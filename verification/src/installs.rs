//! Installations of the game, and the settings that remember them.

use crate::text::{chars_eq, to_chars};
use vstd::prelude::*;

verus! {

/// Where an installation was found.
#[derive(Clone, Copy, Debug, PartialEq, Eq, Structural)]
pub enum Source {
    Steam,
    Local,
}

/// One installation of the game.
#[derive(Debug)]
pub struct Install {
    pub path: String,
    pub icon: String,
    pub source: Source,
}

/// The model of an `Install`.
pub struct InstallView {
    pub path: Seq<char>,
    pub icon: Seq<char>,
    pub source: Source,
}

impl DeepView for Install {
    type V = InstallView;

    open spec fn deep_view(&self) -> InstallView {
        InstallView { path: self.path@, icon: self.icon@, source: self.source }
    }
}

impl Clone for Install {
    fn clone(&self) -> (r: Self)
        ensures
            r.deep_view() == self.deep_view(),
    {
        Install { path: self.path.clone(), icon: self.icon.clone(), source: self.source }
    }
}

/// What a scan for installations found.
#[derive(Debug)]
pub struct ScanResult {
    pub selected_install_path: Option<String>,
    pub installs: Vec<Install>,
}

/// The game as it runs, or ran last.
#[derive(Debug)]
pub struct GameStatus {
    pub running: bool,
    pub profile: Option<String>,
    pub pid: u32,
}

/// What the application remembers between runs.
#[derive(Debug)]
pub struct Settings {
    pub selected_install: Option<String>,
    pub installs: Option<Vec<Install>>,
    pub game_status: Option<GameStatus>,
}

/// An installation at `path` is in the list.
pub open spec fn has_install(installs: Seq<InstallView>, path: Seq<char>) -> bool {
    exists|i: int| 0 <= i < installs.len() && (#[trigger] installs[i]).path == path
}

/// The installation found at `path`, with the icon that every installation
/// gets.
pub open spec fn found_install(path: Seq<char>, source: Source) -> InstallView {
    InstallView { path, icon: "/logo.png"@, source }
}

/// The list with the library folders added as Steam installations, each
/// unless an installation at its path is in the list already.
pub open spec fn with_libraries(installs: Seq<InstallView>, folders: Seq<Seq<char>>) -> Seq<
    InstallView,
>
    decreases folders.len(),
{
    if folders.len() == 0 {
        installs
    } else {
        let before = with_libraries(installs, folders.drop_last());
        if has_install(before, folders.last()) {
            before
        } else {
            before.push(found_install(folders.last(), Source::Steam))
        }
    }
}

/// The installations after a scan: those known before, then the one in the
/// user's own Steam folder where there is one, known or not, then those in
/// the library folders that are not in the list yet.
pub open spec fn scanned_installs(
    known: Seq<InstallView>,
    steam_folder: Option<Seq<char>>,
    library_folders: Seq<Seq<char>>,
) -> Seq<InstallView> {
    let first = match steam_folder {
        Some(p) => known.push(found_install(p, Source::Steam)),
        None => known,
    };
    with_libraries(first, library_folders)
}

/// Whether an installation at `path` is in the list.
pub fn contains_install(installs: &Vec<Install>, path: &str) -> (r: bool)
    ensures
        r == has_install(installs.deep_view(), path@),
{
    find_install(installs, path).is_some()
}

/// The place of the first installation at `path` in the list.
pub fn find_install(installs: &Vec<Install>, path: &str) -> (r: Option<usize>)
    ensures
        match r {
            Some(i) => i < installs.len() && installs[i as int].path@ == path@ && forall|j: int|
                0 <= j < i ==> installs[j].path@ != path@,
            None => true,
        },
        r is Some == has_install(installs.deep_view(), path@),
{
    let wanted = to_chars(path);
    let mut i: usize = 0;
    while i < installs.len()
        invariant
            i <= installs.len(),
            wanted@ == path@,
            forall|j: int| 0 <= j < i ==> installs[j].path@ != path@,
        decreases installs.len() - i,
    {
        let here = to_chars(installs[i].path.as_str());
        if chars_eq(&here, &wanted) {
            assert(installs.deep_view()[i as int].path == path@);
            return Some(i);
        }
        i += 1;
    }
    proof {
        assert forall|j: int| 0 <= j < installs.deep_view().len() implies (
        #[trigger] installs.deep_view()[j]).path != path@ by {
            assert(installs.deep_view()[j] == installs[j].deep_view());
        }
    }
    None
}

/// The installation that the settings select, where it is among the known
/// ones.
pub fn get_selected_install(settings: &Settings) -> (r: Option<Install>)
    ensures
        match r {
            Some(install) => settings.selected_install is Some && settings.installs is Some
                && install.path@ == settings.selected_install->0@ && exists|i: int|
                0 <= i < settings.installs->0.len() && install.deep_view()
                    == settings.installs->0[i].deep_view() && forall|j: int|
                    0 <= j < i ==> settings.installs->0[j].path@ != install.path@,
            None => settings.selected_install is None || settings.installs is None || !has_install(
                settings.installs->0.deep_view(),
                settings.selected_install->0@,
            ),
        },
{
    match (&settings.selected_install, &settings.installs) {
        (Some(path), Some(installs)) => match find_install(installs, path.as_str()) {
            Some(i) => Some(installs[i].clone()),
            None => None,
        },
        _ => None,
    }
}

/// Adds the installation at `path`, found by hand, unless one at that path
/// is known already. Says whether it was added.
pub fn add_manual_install(installs: &mut Vec<Install>, path: &str) -> (added: bool)
    ensures
        added == !has_install(old(installs).deep_view(), path@),
        final(installs).deep_view() == (if added {
            old(installs).deep_view().push(found_install(path@, Source::Local))
        } else {
            old(installs).deep_view()
        }),
{
    if contains_install(installs, path) {
        return false;
    }
    let ghost before = installs.deep_view();
    let install = Install {
        path: from_str_owned(path),
        icon: from_str_owned("/logo.png"),
        source: Source::Local,
    };
    installs.push(install);
    assert(installs.deep_view() =~= before.push(found_install(path@, Source::Local)));
    true
}

fn from_str_owned(s: &str) -> (r: String)
    ensures
        r@ == s@,
{
    s.to_owned()
}

/// Brings the list of installations up to date. `steam_folder` is the game's
/// folder in the user's own Steam folder, where it exists, and
/// `library_folders` are the game's folders that exist in the Steam libraries
/// of the machine's disks. The selected path is kept where an installation at
/// it is in the list.
pub fn scan(
    known: Vec<Install>,
    selected_install: &str,
    steam_folder: Option<String>,
    library_folders: &Vec<String>,
) -> (r: ScanResult)
    ensures
        r.installs.deep_view() == scanned_installs(
            known.deep_view(),
            match steam_folder {
                Some(p) => Some(p@),
                None => None,
            },
            library_folders.deep_view(),
        ),
        match r.selected_install_path {
            Some(p) => p@ == selected_install@ && has_install(
                r.installs.deep_view(),
                selected_install@,
            ),
            None => !has_install(r.installs.deep_view(), selected_install@),
        },
{
    let mut installs = known;
    let ghost start = installs.deep_view();
    match steam_folder {
        Some(p) => {
            let ghost pv = p@;
            let icon = from_str_owned("/logo.png");
            installs.push(Install { path: p, icon, source: Source::Steam });
            assert(installs.deep_view() =~= start.push(found_install(pv, Source::Steam)));
        },
        None => {},
    }
    let ghost first = installs.deep_view();
    let mut i: usize = 0;
    while i < library_folders.len()
        invariant
            i <= library_folders.len(),
            installs.deep_view() == with_libraries(
                first,
                library_folders.deep_view().take(i as int),
            ),
        decreases library_folders.len() - i,
    {
        let folder = &library_folders[i];
        let ghost before = installs.deep_view();
        proof {
            let next = library_folders.deep_view().take(i + 1);
            assert(next.drop_last() =~= library_folders.deep_view().take(i as int));
            assert(next.last() == folder@);
        }
        if !contains_install(&installs, folder.as_str()) {
            installs.push(
                Install {
                    path: folder.clone(),
                    icon: from_str_owned("/logo.png"),
                    source: Source::Steam,
                },
            );
            assert(installs.deep_view() =~= before.push(found_install(folder@, Source::Steam)));
        }
        i += 1;
    }
    assert(library_folders.deep_view().take(library_folders.len() as int)
        =~= library_folders.deep_view());
    let selected_install_path = if contains_install(&installs, selected_install) {
        Some(from_str_owned(selected_install))
    } else {
        None
    };
    ScanResult { selected_install_path, installs }
}

/// The status of the game, given the status remembered and whether the
/// process remembered in it is still alive: the remembered status where it
/// is, and "not running" where it is not or none is remembered.
pub fn get_game_status(remembered: Option<GameStatus>, alive: bool) -> (r: GameStatus)
    ensures
        match remembered {
            Some(s) => if alive {
                r == s
            } else {
                !r.running && r.profile is None && r.pid == 0
            },
            None => !r.running && r.profile is None && r.pid == 0,
        },
{
    match remembered {
        Some(s) => if alive {
            s
        } else {
            GameStatus { running: false, profile: None, pid: 0 }
        },
        None => GameStatus { running: false, profile: None, pid: 0 },
    }
}

} // verus!
