use lethal_manager::extract::{extract_mod, plan_entry, ExtractAction};
use lethal_manager::paths::{fix_path, is_external_file, is_safe_entry, mod_root_hint, remap};

const PROFILE: &str = "C:/Users/me/profiles/Main";

fn names(list: &[&str]) -> Vec<String> {
    list.iter().map(|s| s.to_string()).collect()
}

#[test]
fn binary_in_hinted_folder_is_private() {
    let hint = "BepInEx/plugins/SomeAuthor-SomeMod/";
    let target = remap(
        "BepInEx/plugins/SomeAuthor-SomeMod/SomeMod.dll",
        hint,
        PROFILE,
        "SomeAuthor-SomeMod",
    );
    assert_eq!(
        target,
        "C:/Users/me/profiles/Main/BepInEx/plugins/SomeAuthor-SomeMod/SomeMod.dll"
    );
    assert!(!is_external_file(&target, PROFILE, "SomeAuthor-SomeMod"));
}

#[test]
fn config_entry_is_shared_and_external() {
    for hint in ["*", "/", "BepInEx/plugins/SomeAuthor-SomeMod/", "plugins/"] {
        let target = remap("config/SomeMod.cfg", hint, PROFILE, "SomeAuthor-SomeMod");
        assert_eq!(target, "C:/Users/me/profiles/Main/BepInEx/config/SomeMod.cfg");
        assert!(is_external_file(&target, PROFILE, "SomeAuthor-SomeMod"));
    }
    let target = remap("bepinex/CONFIG/a/b.cfg", "*", PROFILE, "A-B");
    assert_eq!(target, "C:/Users/me/profiles/Main/BepInEx/config/a/b.cfg");
}

#[test]
fn fix_path_puts_prefix_in_canonical_case() {
    assert_eq!(fix_path("bepinex/Plugins/Mod/Mod.dll"), "BepInEx/plugins/Mod/Mod.dll");
    assert_eq!(fix_path("BEPINEX/CONFIG/x.cfg"), "BepInEx/config/x.cfg");
    assert_eq!(fix_path("BepInEx/Plugins/"), "BepInEx/plugins/");
    assert_eq!(fix_path("bepinex/readme.txt"), "BepInEx/readme.txt");
    assert_eq!(fix_path("plugins/Mod/Mod.dll"), "plugins/Mod/Mod.dll");
    assert_eq!(fix_path("Other/BepInEx/Plugins/x"), "Other/BepInEx/Plugins/x");
    assert_eq!(fix_path("README.md"), "README.md");
    assert_eq!(fix_path(""), "");
}

#[test]
fn hint_is_child_of_plugins_on_the_way_to_the_binary() {
    assert_eq!(mod_root_hint(&names(&["BepInEx/plugins/Mod/Mod.dll"])), "BepInEx/plugins/Mod/");
    assert_eq!(
        mod_root_hint(&names(&["bepinex/PLUGINS/Mod/sub/Mod.dll"])),
        "BepInEx/plugins/Mod/"
    );
    assert_eq!(mod_root_hint(&names(&["plugins/Mod.dll"])), "plugins/");
    assert_eq!(mod_root_hint(&names(&["BepInEx/plugins/Mod.dll"])), "BepInEx/plugins/");
}

#[test]
fn hint_without_plugins_directory_or_binary() {
    assert_eq!(mod_root_hint(&names(&["Mod.dll"])), "/");
    assert_eq!(mod_root_hint(&names(&["a/b/Mod.dll"])), "/");
    assert_eq!(mod_root_hint(&names(&["README.md", "icon.png"])), "*");
    assert_eq!(mod_root_hint(&names(&[])), "*");
}

#[test]
fn last_binary_decides_the_hint() {
    let list = names(&["plugins/A/a.dll", "README.md", "plugins/B/b.dll", "icon.png"]);
    assert_eq!(mod_root_hint(&list), "plugins/B/");
}

#[test]
fn plugins_area_routing() {
    let m = "Au-Mod";
    // directly in plugins: private
    assert_eq!(
        remap("plugins/readme.txt", "plugins/Mod/", PROFILE, m),
        "C:/Users/me/profiles/Main/BepInEx/plugins/Au-Mod/readme.txt"
    );
    // inside the hint: private, hint stripped
    assert_eq!(
        remap("plugins/Mod/assets/a.bundle", "plugins/Mod/", PROFILE, m),
        "C:/Users/me/profiles/Main/BepInEx/plugins/Au-Mod/assets/a.bundle"
    );
    // elsewhere in plugins: shared
    assert_eq!(
        remap("plugins/Other/a.bundle", "plugins/Mod/", PROFILE, m),
        "C:/Users/me/profiles/Main/BepInEx/plugins/Other/a.bundle"
    );
    assert_eq!(
        remap("BepInEx/plugins/Other/a.bundle", "*", PROFILE, m),
        "C:/Users/me/profiles/Main/BepInEx/plugins/Other/a.bundle"
    );
    // hint relative to the area
    assert_eq!(
        remap("plugins/Mod/x/a.bundle", "Mod/", PROFILE, m),
        "C:/Users/me/profiles/Main/BepInEx/plugins/x/a.bundle"
    );
}

#[test]
fn other_areas_routing() {
    let m = "Au-Mod";
    assert_eq!(
        remap("patchers/P.dll", "*", PROFILE, m),
        "C:/Users/me/profiles/Main/BepInEx/plugins/Au-Mod/P.dll"
    );
    assert_eq!(
        remap("BepInEx/Patchers/sub/P.dll", "*", PROFILE, m),
        "C:/Users/me/profiles/Main/BepInEx/plugins/Au-Mod/sub/P.dll"
    );
    assert_eq!(
        remap("BepInEx/core/x.dll", "*", PROFILE, m),
        "C:/Users/me/profiles/Main/BepInEx/plugins/core/x.dll"
    );
    assert_eq!(
        remap("Assets/a.png", "*", PROFILE, m),
        "C:/Users/me/profiles/Main/BepInEx/plugins/Assets/a.png"
    );
    assert_eq!(
        remap("README.md", "*", PROFILE, m),
        "C:/Users/me/profiles/Main/BepInEx/plugins/Au-Mod/README.md"
    );
}

#[test]
fn external_means_outside_the_private_folder() {
    let m = "Au-Mod";
    assert!(!is_external_file("C:/p/BepInEx/plugins/Au-Mod/x.dll", "C:/p", m));
    assert!(is_external_file("C:/p/BepInEx/plugins/Au-Mod2/x.dll", "C:/p", m));
    assert!(is_external_file("C:/p/BepInEx/plugins/Au-Mod", "C:/p", m));
    assert!(is_external_file("C:/p/BepInEx/config/x.cfg", "C:/p", m));
}

#[test]
fn unsafe_names_are_refused() {
    assert!(is_safe_entry("plugins/a.dll"));
    assert!(is_safe_entry("a..b/c"));
    assert!(is_safe_entry("..a/c"));
    assert!(!is_safe_entry(""));
    assert!(!is_safe_entry("/etc/passwd"));
    assert!(!is_safe_entry("../x"));
    assert!(!is_safe_entry("a/../../x"));
    assert!(!is_safe_entry("a/.."));
    assert!(!is_safe_entry(".."));
    assert!(!is_safe_entry("a\\b"));
    assert!(!is_safe_entry("a\0b"));
}

#[test]
fn plan_for_an_ordinary_mod() {
    let list = names(&[
        "README.md",
        "BepInEx/",
        "BepInEx/plugins/",
        "BepInEx/plugins/Mod/",
        "BepInEx/plugins/Mod/Mod.dll",
        "BepInEx/config/Mod.cfg",
        "../evil.txt",
    ]);
    let plan = extract_mod("Au-Mod", &list, "C:/p");
    assert_eq!(plan.mod_folder, "C:/p/BepInEx/plugins/Au-Mod");
    assert!(plan.create_mod_folder);
    assert_eq!(plan.actions.len(), 7);
    match &plan.actions[0] {
        ExtractAction::WriteFile { path, external } => {
            assert_eq!(path, "C:/p/BepInEx/plugins/Au-Mod/README.md");
            assert!(!external);
        }
        _ => panic!("readme is written"),
    }
    assert!(matches!(plan.actions[1], ExtractAction::Skip));
    assert!(matches!(plan.actions[2], ExtractAction::Skip));
    assert!(matches!(plan.actions[3], ExtractAction::Skip));
    match &plan.actions[4] {
        ExtractAction::WriteFile { path, external } => {
            assert_eq!(path, "C:/p/BepInEx/plugins/Au-Mod/Mod.dll");
            assert!(!external);
        }
        _ => panic!("binary is written"),
    }
    match &plan.actions[5] {
        ExtractAction::WriteFile { path, external } => {
            assert_eq!(path, "C:/p/BepInEx/config/Mod.cfg");
            assert!(external);
        }
        _ => panic!("config is written"),
    }
    assert!(matches!(plan.actions[6], ExtractAction::Skip));
    assert_eq!(plan.external_files, vec!["C:/p/BepInEx/config/Mod.cfg".to_string()]);
}

#[test]
fn plan_for_the_loader_package() {
    let list = names(&[
        "BepInExPack/",
        "BepInExPack/winhttp.dll",
        "BepInExPack/BepInEx/",
        "BepInExPack/BepInEx/core/BepInEx.dll",
        "README.md",
    ]);
    let plan = extract_mod("BepInEx-BepInExPack", &list, "C:/p");
    assert!(!plan.create_mod_folder);
    assert!(matches!(plan.actions[0], ExtractAction::Skip));
    match &plan.actions[1] {
        ExtractAction::WriteFile { path, external } => {
            assert_eq!(path, "C:/p/winhttp.dll");
            assert!(!external);
        }
        _ => panic!("loader binary is written"),
    }
    match &plan.actions[2] {
        ExtractAction::CreateDir { path } => assert_eq!(path, "C:/p/BepInEx/"),
        _ => panic!("directory is created"),
    }
    match &plan.actions[3] {
        ExtractAction::WriteFile { path, external } => {
            assert_eq!(path, "C:/p/BepInEx/core/BepInEx.dll");
            assert!(!external);
        }
        _ => panic!("core file is written"),
    }
    match &plan.actions[4] {
        ExtractAction::WriteFile { path, external } => {
            assert_eq!(path, "C:/p/BepInEx/plugins/BepInEx-BepInExPack/README.md");
            assert!(!external);
        }
        _ => panic!("readme is written"),
    }
    assert!(plan.external_files.is_empty());
}

#[test]
fn plan_entry_agrees_with_plan() {
    let a = plan_entry("Au-Mod", "plugins/Other/x.txt", "plugins/Mod/", "C:/p");
    match a {
        ExtractAction::WriteFile { path, external } => {
            assert_eq!(path, "C:/p/BepInEx/plugins/Other/x.txt");
            assert!(external);
        }
        _ => panic!("file is written"),
    }
}
