use lethal_manager::catalog::{
    get_mod, get_mod_version, parse_mod_version, Mod, ModInfo, Package, Timestamp, Version,
};
use lethal_manager::errors::ErrorKind;
use lethal_manager::resolver::get_dependencies;

fn version(full_name: &str, number: &str, deps: &[&str]) -> Version {
    Version {
        date_created: Timestamp { secs: 0, nanos: 0 },
        dependencies: deps.iter().map(|d| d.to_string()).collect(),
        description: format!("{full_name} {number}"),
        download_url: format!("https://example.invalid/{full_name}/{number}"),
        downloads: 0,
        file_size: 0,
        full_name: full_name.to_string(),
        icon: String::new(),
        is_active: true,
        name: full_name.to_string(),
        uuid4: String::new(),
        version_number: number.to_string(),
        website_url: String::new(),
    }
}

fn package(full_name: &str, versions: Vec<Version>) -> Mod {
    Mod {
        categories: vec![],
        date_created: Timestamp { secs: 0, nanos: 0 },
        date_updated: Timestamp { secs: 0, nanos: 0 },
        full_name: full_name.to_string(),
        has_nsfw_content: false,
        is_deprecated: false,
        is_pinned: false,
        name: full_name.to_string(),
        owner: String::new(),
        package_url: String::new(),
        rating_score: 0,
        uuid4: String::new(),
        versions,
    }
}

fn installed(full_name: &str, number: &str) -> ModInfo {
    ModInfo {
        name: full_name.to_string(),
        full_name: full_name.to_string(),
        description: String::new(),
        author: String::new(),
        version_number: number.to_string(),
        dependencies: vec![],
        folder: String::new(),
        icon: None,
        enabled: true,
    }
}

fn names(found: &[Version]) -> Vec<String> {
    found.iter().map(|v| format!("{}@{}", v.full_name, v.version_number)).collect()
}

#[test]
fn chain_is_resolved_dependency_first() {
    let catalog = vec![
        package("A", vec![version("A", "1.0.0", &["B-1.0.0"])]),
        package("B", vec![version("B", "1.0.0", &["C-1.0.0"])]),
        package("C", vec![version("C", "1.0.0", &[])]),
    ];
    let found = get_dependencies("A-1.0.0", &vec![], &catalog).unwrap();
    assert_eq!(names(&found), ["C@1.0.0", "B@1.0.0", "A@1.0.0"]);
}

#[test]
fn installed_dependency_of_the_same_version_is_left_alone() {
    let catalog = vec![
        package("A", vec![version("A", "1.0.0", &["B-1.0.0"])]),
        package("B", vec![version("B", "2.0.0", &[]), version("B", "1.0.0", &[])]),
    ];
    let found = get_dependencies("A-1.0.0", &vec![installed("B", "1.0.0")], &catalog).unwrap();
    assert_eq!(names(&found), ["A@1.0.0"]);
}

#[test]
fn installed_dependency_of_a_lower_version_is_upgraded() {
    let catalog = vec![
        package("A", vec![version("A", "1.0.0", &["B-2.0.0"])]),
        package("B", vec![version("B", "2.0.0", &[]), version("B", "1.0.0", &[])]),
    ];
    let found = get_dependencies("A-1.0.0", &vec![installed("B", "1.0.0")], &catalog).unwrap();
    assert_eq!(names(&found), ["B@2.0.0", "A@1.0.0"]);
}

#[test]
fn greater_version_replaces_the_entry_in_place() {
    let catalog = vec![
        package("A", vec![version("A", "1.0.0", &["B-1.0.0", "C-1.0.0"])]),
        package("B", vec![version("B", "2.0.0", &["D-1.0.0"]), version("B", "1.0.0", &[])]),
        package("C", vec![version("C", "1.0.0", &["B-2.0.0"])]),
        package("D", vec![version("D", "1.0.0", &[])]),
    ];
    let found = get_dependencies("A-1.0.0", &vec![], &catalog).unwrap();
    assert_eq!(names(&found), ["D@1.0.0", "C@1.0.0", "B@2.0.0", "A@1.0.0"]);
}

#[test]
fn lower_or_equal_version_met_again_is_passed_over() {
    let catalog = vec![
        package("A", vec![version("A", "1.0.0", &["B-2.0.0", "C-1.0.0"])]),
        package("B", vec![version("B", "2.0.0", &[]), version("B", "1.0.0", &["D-1.0.0"])]),
        package("C", vec![version("C", "1.0.0", &["B-1.0.0", "B-2.0.0"])]),
        package("D", vec![version("D", "1.0.0", &[])]),
    ];
    let found = get_dependencies("A-1.0.0", &vec![], &catalog).unwrap();
    assert_eq!(names(&found), ["C@1.0.0", "B@2.0.0", "A@1.0.0"]);
}

#[test]
fn what_the_catalog_lacks_is_passed_over() {
    let catalog = vec![
        package("A", vec![version("A", "1.0.0", &["Gone-1.0.0", "B-9.9.9", "B-1.0.0"])]),
        package("B", vec![version("B", "1.0.0", &[])]),
    ];
    let found = get_dependencies("A-1.0.0", &vec![], &catalog).unwrap();
    assert_eq!(names(&found), ["B@1.0.0", "A@1.0.0"]);
    assert!(get_dependencies("Gone-1.0.0", &vec![], &catalog).unwrap().is_empty());
    assert!(get_dependencies("A-2.0.0", &vec![], &catalog).unwrap().is_empty());
    assert!(get_dependencies("", &vec![], &catalog).unwrap().is_empty());
}

#[test]
fn cycles_end() {
    let catalog = vec![
        package(
            "A",
            vec![version("A", "2.0.0", &["B-2.0.0"]), version("A", "1.0.0", &["B-1.0.0"])],
        ),
        package(
            "B",
            vec![version("B", "2.0.0", &["A-2.0.0"]), version("B", "1.0.0", &["A-2.0.0"])],
        ),
    ];
    let found = get_dependencies("A-1.0.0", &vec![], &catalog).unwrap();
    assert_eq!(names(&found), ["B@2.0.0", "A@2.0.0"]);
}

#[test]
fn malformed_version_in_a_comparison_is_refused() {
    let catalog = vec![
        package("A", vec![version("A", "1.0.0", &["B-1.0.0", "B-one"])]),
        package("B", vec![version("B", "1.0.0", &[])]),
    ];
    assert_eq!(
        get_dependencies("A-1.0.0", &vec![], &catalog).err(),
        Some(ErrorKind::InvalidInput)
    );
    let catalog = vec![package("A", vec![version("A", "1.0.0", &[])])];
    assert_eq!(
        get_dependencies("A-1.0.0", &vec![installed("A", "latest")], &catalog).err(),
        Some(ErrorKind::InvalidInput)
    );
}

#[test]
fn reference_is_split_at_the_last_dash() {
    assert_eq!(
        parse_mod_version("Author-Some-Mod-1.2.3"),
        ("Author-Some-Mod".to_string(), "1.2.3".to_string())
    );
    assert_eq!(parse_mod_version("A-1.0.0"), ("A".to_string(), "1.0.0".to_string()));
    assert_eq!(parse_mod_version("1.0.0"), (String::new(), "1.0.0".to_string()));
    assert_eq!(parse_mod_version("A-"), ("A".to_string(), String::new()));
    assert_eq!(parse_mod_version(""), (String::new(), String::new()));
}

#[test]
fn catalog_lookup() {
    let index = Package {
        categories: vec![],
        mods: vec![
            package("Au-X", vec![version("Au-X", "1.1.0", &[]), version("Au-X", "1.0.0", &[])]),
            package("Au-Y", vec![version("Au-Y", "0.1.0", &[])]),
        ],
    };
    assert_eq!(get_mod(&index, "Au-Y").unwrap().full_name, "Au-Y");
    assert!(get_mod(&index, "Au-Z").is_none());
    let v = get_mod_version(&index, "Au-X-1.0.0").unwrap();
    assert_eq!((v.full_name.as_str(), v.version_number.as_str()), ("Au-X", "1.0.0"));
    assert!(get_mod_version(&index, "Au-X-2.0.0").is_none());
    assert!(get_mod_version(&index, "Au-Z-1.0.0").is_none());
}
