use lethal_manager::catalog::{Mod, Timestamp, Version};
use lethal_manager::errors::ErrorKind;
use lethal_manager::install::download_mod;
use lethal_manager::installs::{
    add_manual_install, contains_install, find_install, get_game_status, get_selected_install,
    scan, GameStatus, Install, Settings, Source,
};
use lethal_manager::profiles::{
    check_new_profile, icon_extension, icon_is_inline, installed_mod, is_valid_profile_name,
    profile_info, strip_bom, Profile,
};

fn install(path: &str, source: Source) -> Install {
    Install { path: path.to_string(), icon: "/logo.png".to_string(), source }
}

fn paths(installs: &[Install]) -> Vec<(String, Source)> {
    installs.iter().map(|i| (i.path.clone(), i.source)).collect()
}

fn version(full_name: &str, name: &str, number: &str, deps: &[&str]) -> Version {
    Version {
        date_created: Timestamp { secs: 0, nanos: 0 },
        dependencies: deps.iter().map(|d| d.to_string()).collect(),
        description: format!("about {number}"),
        download_url: format!("https://example.invalid/{full_name}.zip"),
        downloads: 0,
        file_size: 0,
        full_name: full_name.to_string(),
        icon: String::new(),
        is_active: true,
        name: name.to_string(),
        uuid4: String::new(),
        version_number: number.to_string(),
        website_url: String::new(),
    }
}

#[test]
fn profile_names() {
    for ok in ["Main", "my_profile-2", "A", "0", "-", "_"] {
        assert!(is_valid_profile_name(ok), "{ok:?}");
        assert_eq!(check_new_profile(ok, false), Ok(()));
        assert_eq!(check_new_profile(ok, true), Err(ErrorKind::Conflict));
    }
    for bad in ["", "my profile", "a/b", "..", "caf\u{e9}", "a.b", "Main\n", " Main"] {
        assert!(!is_valid_profile_name(bad), "{bad:?}");
        assert_eq!(check_new_profile(bad, false), Err(ErrorKind::InvalidInput));
        assert_eq!(check_new_profile(bad, true), Err(ErrorKind::InvalidInput));
    }
}

#[test]
fn icon_extensions() {
    assert!(icon_is_inline("data:image/png;base64,iVBOR"));
    assert_eq!(icon_extension("data:image/png;base64,iVBOR"), Ok("png".to_string()));
    assert_eq!(icon_extension("data:image/svg+xml;utf8,<svg/>"), Ok("svg+xml".to_string()));
    assert_eq!(icon_extension("data:image/;base64,"), Ok(String::new()));
    assert_eq!(icon_extension("data:image/png"), Err(ErrorKind::InvalidInput));
    assert!(!icon_is_inline("https://example.invalid/a/icon.v2.jpeg"));
    assert_eq!(icon_extension("https://example.invalid/a/icon.v2.jpeg"), Ok("jpeg".to_string()));
    assert_eq!(icon_extension("icon"), Ok("icon".to_string()));
    assert_eq!(icon_extension(""), Ok(String::new()));
}

#[test]
fn byte_order_marks_are_taken_off() {
    assert_eq!(strip_bom("\u{feff}{\"a\":1}"), "{\"a\":1}");
    assert_eq!(strip_bom("\u{feff}\u{feff}x\u{feff}"), "x\u{feff}");
    assert_eq!(strip_bom("plain"), "plain");
    assert_eq!(strip_bom("\u{feff}"), "");
    assert_eq!(strip_bom(""), "");
}

#[test]
fn profile_is_listed_with_its_mods() {
    let p = Profile { name: "Main".to_string(), icon: None, folder: "old".to_string() };
    let info = profile_info(p, 3, "C:/profiles/Main".to_string());
    assert_eq!(
        (info.name.as_str(), info.icon, info.mods_amount, info.folder.as_str()),
        ("Main", None, 3, "C:/profiles/Main")
    );
}

#[test]
fn installed_mod_is_described_by_the_catalog() {
    let catalog = vec![Mod {
        categories: vec!["Mods".to_string()],
        date_created: Timestamp { secs: 0, nanos: 0 },
        date_updated: Timestamp { secs: 0, nanos: 0 },
        full_name: "Au-Mod".to_string(),
        has_nsfw_content: false,
        is_deprecated: false,
        is_pinned: false,
        name: "Mod".to_string(),
        owner: "Au".to_string(),
        package_url: String::new(),
        rating_score: 1,
        uuid4: String::new(),
        versions: vec![
            version("Au-Mod-1.1.0", "Mod", "1.1.0", &["Bo-Lib-2.0.0"]),
            version("Au-Mod-1.0.0", "Mod", "1.0.0", &[]),
        ],
    }];
    let info = installed_mod(&catalog, "Au-Mod", "1.1.0", "C:/p/plugins/Au-Mod", None, false)
        .unwrap();
    assert_eq!(info.name, "Mod");
    assert_eq!(info.full_name, "Au-Mod");
    assert_eq!(info.description, "about 1.1.0");
    assert_eq!(info.author, "Au");
    assert_eq!(info.version_number, "1.1.0");
    assert_eq!(info.dependencies, ["Bo-Lib-2.0.0"]);
    assert_eq!(info.folder, "C:/p/plugins/Au-Mod");
    assert_eq!(info.icon, None);
    assert!(info.enabled);
    let info = installed_mod(
        &catalog,
        "Au-Mod",
        "1.0.0",
        "f",
        Some("f/icon.png".to_string()),
        true,
    )
    .unwrap();
    assert_eq!(info.description, "about 1.0.0");
    assert_eq!(info.icon, Some("f/icon.png".to_string()));
    assert!(!info.enabled);
    assert_eq!(
        installed_mod(&catalog, "Au-Mod", "9.9.9", "f", None, false).err(),
        Some(ErrorKind::NotFound)
    );
    assert_eq!(
        installed_mod(&catalog, "Au-Other", "1.0.0", "f", None, false).err(),
        Some(ErrorKind::NotFound)
    );
}

#[test]
fn install_steps_follow_the_versions() {
    let versions = vec![
        version("Bo-Lib-2.0.0", "Lib", "2.0.0", &[]),
        version("Au-Some-Mod-1.1.0", "Some-Mod", "1.1.0", &["Bo-Lib-2.0.0"]),
    ];
    let steps = download_mod(&versions, "C:/Temp/");
    assert_eq!(steps.len(), 2);
    assert_eq!(steps[0].mod_name, "Bo-Lib");
    assert_eq!(steps[0].download_label, "Downloading Lib...");
    assert_eq!(steps[0].extract_label, "Extracting Lib...");
    assert_eq!(steps[0].download_url, "https://example.invalid/Bo-Lib-2.0.0.zip");
    assert_eq!(steps[0].archive, "C:/Temp/Bo-Lib-2.0.0.zip");
    assert_eq!((steps[0].index, steps[0].total), (0, 2));
    assert_eq!(steps[1].mod_name, "Au-Some-Mod");
    assert_eq!(steps[1].archive, "C:/Temp/Au-Some-Mod-1.1.0.zip");
    assert_eq!((steps[1].index, steps[1].total), (1, 2));
    assert!(download_mod(&vec![], "C:/Temp/").is_empty());
}

#[test]
fn selected_install_is_one_of_the_known() {
    let known = vec![install("C:/a", Source::Steam), install("D:/b", Source::Local)];
    let mut settings = Settings {
        selected_install: Some("D:/b".to_string()),
        installs: Some(known),
        game_status: None,
    };
    let found = get_selected_install(&settings).unwrap();
    assert_eq!((found.path.as_str(), found.source), ("D:/b", Source::Local));
    settings.selected_install = Some("E:/c".to_string());
    assert!(get_selected_install(&settings).is_none());
    settings.selected_install = None;
    assert!(get_selected_install(&settings).is_none());
    settings.selected_install = Some("C:/a".to_string());
    settings.installs = None;
    assert!(get_selected_install(&settings).is_none());
}

#[test]
fn install_found_by_hand_is_added_once() {
    let mut known = vec![install("C:/a", Source::Steam)];
    assert!(add_manual_install(&mut known, "D:/b"));
    assert!(!add_manual_install(&mut known, "D:/b"));
    assert!(!add_manual_install(&mut known, "C:/a"));
    assert_eq!(
        paths(&known),
        [("C:/a".to_string(), Source::Steam), ("D:/b".to_string(), Source::Local)]
    );
    assert_eq!(known[1].icon, "/logo.png");
    assert_eq!(find_install(&known, "D:/b"), Some(1));
    assert_eq!(find_install(&known, "d:/b"), None);
    assert!(contains_install(&known, "C:/a"));
}

#[test]
fn scan_adds_what_it_finds() {
    let known = vec![install("D:/lib/game", Source::Local)];
    let libraries =
        vec!["D:/lib/game".to_string(), "E:/lib/game".to_string(), "E:/lib/game".to_string()];
    let r = scan(known, "E:/lib/game", Some("C:/home/game".to_string()), &libraries);
    assert_eq!(
        paths(&r.installs),
        [
            ("D:/lib/game".to_string(), Source::Local),
            ("C:/home/game".to_string(), Source::Steam),
            ("E:/lib/game".to_string(), Source::Steam),
        ]
    );
    assert_eq!(r.selected_install_path, Some("E:/lib/game".to_string()));

    let r = scan(vec![], "C:/gone", None, &vec![]);
    assert!(r.installs.is_empty());
    assert_eq!(r.selected_install_path, None);
}

#[test]
fn scan_lists_the_home_folder_each_time() {
    let known = vec![install("C:/home/game", Source::Steam)];
    let r = scan(known, "", Some("C:/home/game".to_string()), &vec![]);
    assert_eq!(r.installs.len(), 2);
    assert_eq!(r.selected_install_path, None);
}

#[test]
fn game_status_follows_the_process() {
    let running = || GameStatus { running: true, profile: Some("Main".to_string()), pid: 77 };
    let s = get_game_status(Some(running()), true);
    assert_eq!((s.running, s.profile, s.pid), (true, Some("Main".to_string()), 77));
    let s = get_game_status(Some(running()), false);
    assert_eq!((s.running, s.profile, s.pid), (false, None, 0));
    let s = get_game_status(None, true);
    assert_eq!((s.running, s.profile, s.pid), (false, None, 0));
}
