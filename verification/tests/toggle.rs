use lethal_manager::catalog::ModInfo;
use lethal_manager::toggle::{
    moves_due, sidecar_folder, str_skip_to, toggle_mod, FileMove, TogglePlan,
};
use std::collections::BTreeMap;

fn installed(folder: &str, enabled: bool) -> ModInfo {
    ModInfo {
        name: "Mod".to_string(),
        full_name: "Au-Mod".to_string(),
        description: String::new(),
        author: "Au".to_string(),
        version_number: "1.0.0".to_string(),
        dependencies: vec![],
        folder: folder.to_string(),
        icon: None,
        enabled,
    }
}

fn strings(list: &[&str]) -> Vec<String> {
    list.iter().map(|s| s.to_string()).collect()
}

fn pairs(moves: &[FileMove]) -> Vec<(String, String)> {
    moves.iter().map(|m| (m.from.clone(), m.to.clone())).collect()
}

/// Carries a plan out on files held in memory: a move whose source is
/// missing is left out.
fn carry_out(files: &mut BTreeMap<String, Vec<u8>>, plan: &TogglePlan) {
    for m in plan.renames.iter().chain(plan.moves.iter()) {
        if let Some(contents) = files.remove(&m.from) {
            files.insert(m.to.clone(), contents);
        }
    }
}

fn binaries_of(files: &BTreeMap<String, Vec<u8>>, folder: &str) -> Vec<String> {
    files
        .keys()
        .filter(|p| p.starts_with(&format!("{folder}/")) && p.contains(".dll"))
        .cloned()
        .collect()
}

const FOLDER: &str = "C:/p/BepInEx/plugins/Au-Mod";

#[test]
fn skip_to_keeps_the_tail_from_the_pattern_on() {
    assert_eq!(str_skip_to("C:/p/BepInEx/config/x.cfg", "BepInEx/"), "BepInEx/config/x.cfg");
    assert_eq!(str_skip_to("a/BepInEx/b/BepInEx/c", "BepInEx/"), "BepInEx/b/BepInEx/c");
    assert_eq!(str_skip_to("no/loader/here", "BepInEx/"), "no/loader/here");
    assert_eq!(str_skip_to("é/BepInEx/ü", "BepInEx/"), "BepInEx/ü");
    assert_eq!(str_skip_to("abc", ""), "abc");
    assert_eq!(str_skip_to("", "x"), "");
}

#[test]
fn disabling_suffixes_binaries_and_parks_external_files() {
    let m = installed(FOLDER, true);
    let plan = toggle_mod(
        &m,
        &strings(&[
            "C:/p/BepInEx/plugins/Au-Mod/Mod.dll",
            "C:/p/BepInEx/plugins/Au-Mod/Old.dll.disabled",
        ]),
        &strings(&["C:/p/BepInEx/config/Mod.cfg"]),
    );
    assert!(!plan.enabled);
    assert_eq!(
        pairs(&plan.renames),
        [(
            "C:/p/BepInEx/plugins/Au-Mod/Mod.dll".to_string(),
            "C:/p/BepInEx/plugins/Au-Mod/Mod.dll.disabled".to_string()
        )]
    );
    assert_eq!(
        pairs(&plan.moves),
        [(
            "C:/p/BepInEx/config/Mod.cfg".to_string(),
            "C:/p/BepInEx/plugins/Au-Mod/.disabled/BepInEx/config/Mod.cfg".to_string()
        )]
    );
    assert_eq!(sidecar_folder(FOLDER), "C:/p/BepInEx/plugins/Au-Mod/.disabled");
}

#[test]
fn enabling_strips_the_suffix_and_brings_external_files_back() {
    let m = installed(FOLDER, false);
    let plan = toggle_mod(
        &m,
        &strings(&[
            "C:/p/BepInEx/plugins/Au-Mod/Mod.dll.disabled",
            "C:/p/BepInEx/plugins/Au-Mod/New.dll",
        ]),
        &strings(&["C:/p/BepInEx/config/Mod.cfg"]),
    );
    assert!(plan.enabled);
    assert_eq!(
        pairs(&plan.renames),
        [(
            "C:/p/BepInEx/plugins/Au-Mod/Mod.dll.disabled".to_string(),
            "C:/p/BepInEx/plugins/Au-Mod/Mod.dll".to_string()
        )]
    );
    assert_eq!(
        pairs(&plan.moves),
        [(
            "C:/p/BepInEx/plugins/Au-Mod/.disabled/BepInEx/config/Mod.cfg".to_string(),
            "C:/p/BepInEx/config/Mod.cfg".to_string()
        )]
    );
}

#[test]
fn disabling_then_enabling_restores_files_and_flag() {
    let mut files: BTreeMap<String, Vec<u8>> = BTreeMap::new();
    files.insert(format!("{FOLDER}/Mod.dll"), vec![1, 2, 3]);
    files.insert("C:/p/BepInEx/config/Mod.cfg".to_string(), b"volume=11".to_vec());
    let at_first = files.clone();
    let external = strings(&["C:/p/BepInEx/config/Mod.cfg"]);

    let mut m = installed(FOLDER, true);
    let plan = toggle_mod(&m, &binaries_of(&files, FOLDER), &external);
    carry_out(&mut files, &plan);
    m.enabled = plan.enabled;
    assert!(!m.enabled);
    assert_eq!(
        files.keys().cloned().collect::<Vec<_>>(),
        [
            "C:/p/BepInEx/plugins/Au-Mod/.disabled/BepInEx/config/Mod.cfg".to_string(),
            "C:/p/BepInEx/plugins/Au-Mod/Mod.dll.disabled".to_string(),
        ]
    );

    let plan = toggle_mod(&m, &binaries_of(&files, FOLDER), &external);
    carry_out(&mut files, &plan);
    m.enabled = plan.enabled;
    assert!(m.enabled);
    assert_eq!(files, at_first);
}

#[test]
fn disabling_what_is_disabled_changes_nothing() {
    let mut files: BTreeMap<String, Vec<u8>> = BTreeMap::new();
    files.insert(format!("{FOLDER}/Mod.dll"), vec![1, 2, 3]);
    files.insert("C:/p/BepInEx/config/Mod.cfg".to_string(), b"volume=11".to_vec());
    let external = strings(&["C:/p/BepInEx/config/Mod.cfg"]);
    let m = installed(FOLDER, true);

    let plan = toggle_mod(&m, &binaries_of(&files, FOLDER), &external);
    carry_out(&mut files, &plan);
    let disabled = files.clone();

    // the flag was not stored: the mod still counts as enabled and is disabled again
    let again = toggle_mod(&m, &binaries_of(&files, FOLDER), &external);
    assert!(again.renames.is_empty());
    carry_out(&mut files, &again);
    assert_eq!(files, disabled);
}

#[test]
fn only_plugin_binaries_are_renamed() {
    let m = installed(FOLDER, true);
    let plan = toggle_mod(
        &m,
        &strings(&[
            "C:/p/BepInEx/plugins/Au-Mod/README.md",
            "C:/p/BepInEx/plugins/Au-Mod/lib/Dep.dll.old",
            "C:/p/BepInEx/plugins/Au-Mod/x.dll/notes.txt",
            "C:/p/BepInEx/plugins/Au-Mod/icon.png",
        ]),
        &vec![],
    );
    assert_eq!(
        pairs(&plan.renames),
        [(
            "C:/p/BepInEx/plugins/Au-Mod/lib/Dep.dll.old".to_string(),
            "C:/p/BepInEx/plugins/Au-Mod/lib/Dep.dll.old.disabled".to_string()
        )]
    );
}

#[test]
fn mod_without_external_files_has_no_moves() {
    let plan = toggle_mod(&installed(FOLDER, false), &vec![], &vec![]);
    assert!(plan.enabled);
    assert!(plan.renames.is_empty());
    assert!(plan.moves.is_empty());
}

#[test]
fn moves_without_a_source_are_left_out() {
    let external = strings(&["C:/p/BepInEx/config/A.cfg", "C:/p/BepInEx/config/B.cfg", "C:/p/c"]);
    let plan = toggle_mod(&installed(FOLDER, true), &vec![], &external);
    let due = moves_due(&plan, &vec![true, false, true], false);
    assert_eq!(
        pairs(&due),
        [
            (
                "C:/p/BepInEx/config/A.cfg".to_string(),
                "C:/p/BepInEx/plugins/Au-Mod/.disabled/BepInEx/config/A.cfg".to_string()
            ),
            ("C:/p/c".to_string(), "C:/p/BepInEx/plugins/Au-Mod/.disabled/C:/p/c".to_string()),
        ]
    );
    assert!(moves_due(&plan, &vec![false, false, false], true).is_empty());
    // a move without a word on its source counts as one whose source is missing
    assert_eq!(moves_due(&plan, &vec![true], true).len(), 1);
    assert_eq!(moves_due(&plan, &vec![true, true, true, true], true).len(), 3);
}

#[test]
fn nothing_moves_on_enabling_without_a_sidecar_folder() {
    let external = strings(&["C:/p/BepInEx/config/A.cfg"]);
    let plan = toggle_mod(&installed(FOLDER, false), &vec![], &external);
    assert!(plan.enabled);
    assert!(moves_due(&plan, &vec![true], false).is_empty());
    assert_eq!(
        pairs(&moves_due(&plan, &vec![true], true)),
        [(
            "C:/p/BepInEx/plugins/Au-Mod/.disabled/BepInEx/config/A.cfg".to_string(),
            "C:/p/BepInEx/config/A.cfg".to_string()
        )]
    );
    assert!(moves_due(&plan, &vec![false], true).is_empty());
}
