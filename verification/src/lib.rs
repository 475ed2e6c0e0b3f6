//! The engine of a mod manager for games that load their mods with BepInEx:
//! what to install for a package, where the files of its archive go, how a
//! mod is disabled and enabled again, and how the catalog is searched.
//!
//! The library computes and decides; it reads no file and fetches nothing.
//! Its callers bring the catalog, the names of an archive's entries and the
//! files found on disk, and carry out the plans it gives.

pub mod catalog;
pub mod errors;
pub mod extract;
pub mod index;
pub mod install;
pub mod installs;
pub mod matching;
pub mod paths;
pub mod profiles;
pub mod resolver;
pub mod search;
pub mod text;
pub mod toggle;
pub mod version;
