//! The plan by which a mod's archive is laid out in a profile.
//!
//! From the names of an archive's entries the plan says, entry by entry, what
//! is to be done with it, and which of the files written lie outside the
//! mod's private folder. Writing the files is left to the caller.
//!
//! An entry whose name is not safe is dropped: nothing is written for a name
//! that is empty or absolute, or that holds a NUL, a backslash or a component
//! `..`, whether or not the name would lead out of the profile.

use crate::paths::{
    after, after_chars, has_no_parent, is_dir_name, is_dir_name_chars, is_external,
    is_external_chars, is_hint, is_safe_name, is_safe_name_chars, join3, lemma_normalized_no_parent,
    lemma_root_hint_is_hint, lemma_routed_stays_under, mod_folder_chars, mod_folder_of,
    normalize_chars, normalized, parent_component_at, root_hint, root_hint_chars, route_chars,
    routed, stays_under,
};
use crate::text::{chars_eq, from_chars, starts_with, to_chars};
use vstd::prelude::*;

verus! {

/// What is done with one entry of an archive.
#[derive(Debug)]
pub enum ExtractAction {
    /// Nothing is written for it.
    Skip,
    /// The directory `path` is created.
    CreateDir { path: String },
    /// The entry's contents are written to the file `path`, replacing what is
    /// there. `external` says that the file is recorded as lying outside the
    /// mod's private folder.
    WriteFile { path: String, external: bool },
}

/// The model of an `ExtractAction`.
pub enum ActionView {
    Skip,
    CreateDir { path: Seq<char> },
    WriteFile { path: Seq<char>, external: bool },
}

impl DeepView for ExtractAction {
    type V = ActionView;

    open spec fn deep_view(&self) -> ActionView {
        match *self {
            ExtractAction::Skip => ActionView::Skip,
            ExtractAction::CreateDir { path } => ActionView::CreateDir { path: path@ },
            ExtractAction::WriteFile { path, external } => ActionView::WriteFile {
                path: path@,
                external,
            },
        }
    }
}

/// How the archive of a mod is laid out in a profile.
#[derive(Debug)]
pub struct ExtractionPlan {
    /// The mod's private folder.
    pub mod_folder: String,
    /// Whether the private folder is created before anything is written.
    pub create_mod_folder: bool,
    /// What is done with each entry, in the archive's order.
    pub actions: Vec<ExtractAction>,
    /// The files written outside the private folder, in the archive's order.
    pub external_files: Vec<String>,
}

/// The mod is the package that installs the loader itself.
pub open spec fn is_bootstrap(mod_name: Seq<char>) -> bool {
    mod_name == "BepInEx-BepInExPack"@
}

/// The normalized path is that of an entry of the loader's package below the
/// package's own root folder.
pub open spec fn is_bootstrap_entry(mod_name: Seq<char>, path: Seq<char>) -> bool {
    is_bootstrap(mod_name) && "BepInExPack/"@.is_prefix_of(path) && path != "BepInExPack/"@
}

/// What is done with the entry `name` of the archive of `mod_name`.
///
/// An entry whose name is not safe is skipped. An entry of the loader's
/// package below its root folder goes to the profile root, directories
/// included, and is not recorded. Any other directory is skipped, and any
/// other file goes where the routing rules put it.
pub open spec fn entry_action(
    mod_name: Seq<char>,
    name: Seq<char>,
    hint: Seq<char>,
    profile: Seq<char>,
) -> ActionView {
    let path = normalized(name);
    if !is_safe_name(name) {
        ActionView::Skip
    } else if is_bootstrap_entry(mod_name, path) {
        let target = profile + "/"@ + after(path, "BepInExPack/"@);
        if is_dir_name(path) {
            ActionView::CreateDir { path: target }
        } else {
            ActionView::WriteFile { path: target, external: false }
        }
    } else if is_dir_name(path) {
        ActionView::Skip
    } else {
        let target = routed(path, hint, profile, mod_name);
        ActionView::WriteFile { path: target, external: is_external(target, profile, mod_name) }
    }
}

/// The actions for all entries of an archive, with the hint that the archive
/// as a whole gives.
pub open spec fn planned_actions(
    mod_name: Seq<char>,
    names: Seq<Seq<char>>,
    profile: Seq<char>,
) -> Seq<ActionView> {
    Seq::new(names.len(), |i: int| entry_action(mod_name, names[i], root_hint(names), profile))
}

/// The paths of the files that the actions record as external, in order.
pub open spec fn external_paths(actions: Seq<ActionView>) -> Seq<Seq<char>>
    decreases actions.len(),
{
    if actions.len() == 0 {
        Seq::empty()
    } else {
        let before = external_paths(actions.drop_last());
        match actions.last() {
            ActionView::WriteFile { path, external } => if external {
                before.push(path)
            } else {
                before
            },
            _ => before,
        }
    }
}

/// The file in which a mod's external files are recorded.
pub open spec fn record_path_of(mod_folder: Seq<char>) -> Seq<char> {
    mod_folder + "/external_files.json"@
}

/// Whatever is done with an entry is done under the profile: the path that
/// is created or written lies below the profile's folder, and no `..` in it
/// leads back out. The mod's name must hold no `..`.
pub proof fn lemma_action_stays_in_profile(
    mod_name: Seq<char>,
    name: Seq<char>,
    hint: Seq<char>,
    profile: Seq<char>,
)
    requires
        has_no_parent(mod_name),
        is_hint(hint),
    ensures
        match entry_action(mod_name, name, hint, profile) {
            ActionView::Skip => true,
            ActionView::CreateDir { path } => stays_under(path, profile),
            ActionView::WriteFile { path, .. } => stays_under(path, profile),
        },
{
    if is_safe_name(name) {
        let path = normalized(name);
        lemma_normalized_no_parent(name);
        if is_bootstrap_entry(mod_name, path) {
            reveal_strlit("BepInExPack/");
            reveal_strlit("/");
            let tail = after(path, "BepInExPack/"@);
            assert(path[11] == '/') by {
                assert(path.subrange(0, 12)[11] == path[11]);
            }
            assert forall|i: int| !parent_component_at(tail, i) by {
                if parent_component_at(tail, i) {
                    assert(parent_component_at(path, i + 12));
                }
            }
            assert forall|i: int| !parent_component_at("/"@ + tail, i) by {
                if parent_component_at("/"@ + tail, i) {
                    assert(parent_component_at(tail, i - 1));
                }
            }
            let target = profile + "/"@ + tail;
            assert(target.skip(profile.len() as int) =~= "/"@ + tail);
            assert(target.subrange(0, profile.len() as int) =~= profile);
        } else if !is_dir_name(path) {
            lemma_routed_stays_under(path, hint, profile, mod_name);
        }
    }
}

/// Every action of a plan is done under the profile.
pub proof fn lemma_plan_stays_in_profile(
    mod_name: Seq<char>,
    names: Seq<Seq<char>>,
    profile: Seq<char>,
    k: int,
)
    requires
        has_no_parent(mod_name),
        0 <= k < names.len(),
    ensures
        match planned_actions(mod_name, names, profile)[k] {
            ActionView::Skip => true,
            ActionView::CreateDir { path } => stays_under(path, profile),
            ActionView::WriteFile { path, .. } => stays_under(path, profile),
        },
{
    lemma_root_hint_is_hint(names);
    lemma_action_stays_in_profile(mod_name, names[k], root_hint(names), profile);
}

pub(crate) fn is_bootstrap_chars(mod_name: &Vec<char>) -> (r: bool)
    ensures
        r == is_bootstrap(mod_name@),
{
    let name = to_chars("BepInEx-BepInExPack");
    chars_eq(mod_name, &name)
}

pub(crate) fn plan_entry_chars(
    mod_name: &Vec<char>,
    name: &Vec<char>,
    hint: &Vec<char>,
    profile: &Vec<char>,
) -> (r: ExtractAction)
    ensures
        r.deep_view() == entry_action(mod_name@, name@, hint@, profile@),
{
    if !is_safe_name_chars(name) {
        return ExtractAction::Skip;
    }
    let path = normalize_chars(name);
    let root = to_chars("BepInExPack/");
    if is_bootstrap_chars(mod_name) && starts_with(&path, &root) && !chars_eq(&path, &root) {
        let rest = after_chars(&path, &root);
        let target = join3(profile, "/", &rest);
        if is_dir_name_chars(&path) {
            ExtractAction::CreateDir { path: from_chars(&target) }
        } else {
            ExtractAction::WriteFile { path: from_chars(&target), external: false }
        }
    } else if is_dir_name_chars(&path) {
        ExtractAction::Skip
    } else {
        let target = route_chars(&path, hint, profile, mod_name);
        let external = is_external_chars(&target, profile, mod_name);
        ExtractAction::WriteFile { path: from_chars(&target), external }
    }
}

/// What is done with the entry `name` of the archive of `mod_name`, given the
/// archive's mod root hint.
pub fn plan_entry(mod_name: &str, name: &str, hint: &str, profile_dir: &str) -> (r: ExtractAction)
    ensures
        r.deep_view() == entry_action(mod_name@, name@, hint@, profile_dir@),
{
    let m = to_chars(mod_name);
    let n = to_chars(name);
    let h = to_chars(hint);
    let p = to_chars(profile_dir);
    plan_entry_chars(&m, &n, &h, &p)
}

/// Lays out the archive of the mod `mod_name`, whose entries have the names
/// `entry_names`, in the profile at `profile_dir`.
///
/// The hint is taken from all entries first; then every entry gets its
/// action, and the files recorded as external are collected in order.
pub fn extract_mod(mod_name: &str, entry_names: &Vec<String>, profile_dir: &str) -> (plan:
    ExtractionPlan)
    ensures
        plan.mod_folder@ == mod_folder_of(profile_dir@, mod_name@),
        plan.create_mod_folder == !is_bootstrap(mod_name@),
        plan.actions.deep_view() == planned_actions(
            mod_name@,
            entry_names.deep_view(),
            profile_dir@,
        ),
        plan.external_files.deep_view() == external_paths(plan.actions.deep_view()),
{
    let m = to_chars(mod_name);
    let p = to_chars(profile_dir);
    let folder = mod_folder_chars(&p, &m);
    let hint = root_hint_chars(entry_names);
    let mut actions: Vec<ExtractAction> = Vec::new();
    let mut external_files: Vec<String> = Vec::new();
    let ghost names = entry_names.deep_view();
    let ghost wanted = planned_actions(mod_name@, names, profile_dir@);
    let mut i: usize = 0;
    while i < entry_names.len()
        invariant
            i <= entry_names.len(),
            names == entry_names.deep_view(),
            wanted == planned_actions(mod_name@, names, profile_dir@),
            m@ == mod_name@,
            p@ == profile_dir@,
            hint@ == root_hint(names),
            actions.deep_view() == wanted.take(i as int),
            external_files.deep_view() == external_paths(actions.deep_view()),
        decreases entry_names.len() - i,
    {
        let name = to_chars(entry_names[i].as_str());
        let action = plan_entry_chars(&m, &name, &hint, &p);
        let ghost before = actions.deep_view();
        let ghost before_files = external_files.deep_view();
        proof {
            assert(name@ == names[i as int]);
            assert(action.deep_view() == wanted[i as int]);
        }
        match &action {
            ExtractAction::WriteFile { path, external } => {
                if *external {
                    external_files.push(path.clone());
                    assert(external_files.deep_view() =~= before_files.push(path@));
                }
            },
            _ => {},
        }
        actions.push(action);
        proof {
            assert(actions.deep_view() =~= before.push(wanted[i as int]));
            assert(actions.deep_view().drop_last() =~= before);
            assert(wanted.take(i + 1) =~= wanted.take(i as int).push(wanted[i as int]));
        }
        i += 1;
    }
    proof {
        assert(wanted.take(entry_names.len() as int) =~= wanted);
    }
    ExtractionPlan {
        mod_folder: from_chars(&folder),
        create_mod_folder: !is_bootstrap_chars(&m),
        actions,
        external_files,
    }
}

/// The file in which the external files of the mod with the private folder
/// `mod_folder` are recorded.
pub fn external_record_path(mod_folder: &str) -> (r: String)
    ensures
        r@ == record_path_of(mod_folder@),
{
    let mut out = to_chars(mod_folder);
    crate::text::push_str(&mut out, "/external_files.json");
    from_chars(&out)
}

} // verus!
