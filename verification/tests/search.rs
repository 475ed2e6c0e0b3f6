use lethal_manager::catalog::{Mod, Package, Timestamp, Types, Version};
use lethal_manager::errors::ErrorKind;
use lethal_manager::index::load_package;
use lethal_manager::matching::is_valid_pattern;
use lethal_manager::search::{
    after_poll, parse_sort_key, search, search_page, SearchControl, SortKey,
};

fn version(description: &str, downloads: i32) -> Version {
    Version {
        date_created: Timestamp { secs: 0, nanos: 0 },
        dependencies: vec![],
        description: description.to_string(),
        download_url: String::new(),
        downloads,
        file_size: 0,
        full_name: String::new(),
        icon: String::new(),
        is_active: true,
        name: String::new(),
        uuid4: String::new(),
        version_number: "1.0.0".to_string(),
        website_url: String::new(),
    }
}

fn package(owner: &str, name: &str, description: &str, categories: &[&str]) -> Mod {
    Mod {
        categories: categories.iter().map(|c| c.to_string()).collect(),
        date_created: Timestamp { secs: 0, nanos: 0 },
        date_updated: Timestamp { secs: 0, nanos: 0 },
        full_name: format!("{owner}-{name}"),
        has_nsfw_content: false,
        is_deprecated: false,
        is_pinned: false,
        name: name.to_string(),
        owner: owner.to_string(),
        package_url: String::new(),
        rating_score: 0,
        uuid4: String::new(),
        versions: vec![version(description, 0)],
    }
}

fn index(mods: Vec<Mod>) -> Package {
    Package { categories: vec!["Audio".to_string(), "Tools".to_string()], mods }
}

const ANY: Types = Types { mods: 0, modpacks: 0 };

fn names(mods: &[Mod]) -> Vec<String> {
    mods.iter().map(|m| m.name.clone()).collect()
}

fn find(p: &Package, query: &str, sort: &str, types: Types, categories: &[&str]) -> Vec<String> {
    let wanted: Vec<String> = categories.iter().map(|c| c.to_string()).collect();
    let mut all = vec![];
    let mut page = 0;
    loop {
        let res = search_page(p, query, page, sort, types, &wanted).unwrap();
        if res.mods.is_empty() {
            return all;
        }
        all.extend(names(&res.mods));
        page += 1;
    }
}

#[test]
fn forty_five_hits_make_two_full_pages() {
    let mods: Vec<Mod> =
        (0..45).map(|i| package("Au", &format!("Thing{i:02}"), "a thing", &["Mods"])).collect();
    let p = index(mods);
    let first = search_page(&p, "thing", 0, "", ANY, &vec![]).unwrap();
    assert_eq!(first.pages, 2);
    assert_eq!(first.mods.len(), 20);
    let expected: Vec<String> = (0..20).map(|i| format!("Thing{i:02}")).collect();
    assert_eq!(names(&first.mods), expected);
    assert_eq!(first.categories, ["Audio", "Tools"]);
    let second = search_page(&p, "thing", 1, "", ANY, &vec![]).unwrap();
    let expected: Vec<String> = (20..40).map(|i| format!("Thing{i:02}")).collect();
    assert_eq!(names(&second.mods), expected);
    let third = search_page(&p, "thing", 2, "", ANY, &vec![]).unwrap();
    let expected: Vec<String> = (40..45).map(|i| format!("Thing{i:02}")).collect();
    assert_eq!(names(&third.mods), expected);
    assert_eq!(third.pages, 2);
    assert!(search_page(&p, "thing", 3, "", ANY, &vec![]).unwrap().mods.is_empty());
    assert!(search_page(&p, "thing", usize::MAX, "", ANY, &vec![]).unwrap().mods.is_empty());
}

#[test]
fn page_counts() {
    for (total, pages) in [(0, 0), (19, 0), (20, 1), (21, 1), (39, 1), (40, 2)] {
        let mods: Vec<Mod> =
            (0..total).map(|i| package("Au", &format!("T{i}"), "", &[])).collect();
        let res = search_page(&index(mods), "", 0, "", ANY, &vec![]).unwrap();
        assert_eq!(res.pages, pages);
        assert_eq!(res.mods.len(), total.min(20));
    }
}

#[test]
fn loader_package_is_never_a_hit() {
    let p = index(vec![
        package("BepInEx", "BepInExPack", "the loader", &["Mods"]),
        package("Au", "Loader", "about BepInExPack", &["Mods"]),
    ]);
    assert_eq!(find(&p, "bepinexpack", "", ANY, &[]), ["Loader"]);
    assert_eq!(find(&p, "", "", ANY, &[]), ["Loader"]);
}

#[test]
fn package_without_versions_is_never_a_hit() {
    let mut bare = package("Au", "Bare", "", &[]);
    bare.versions.clear();
    let p = index(vec![bare, package("Au", "Full", "", &[])]);
    assert_eq!(find(&p, "", "", ANY, &[]), ["Full"]);
    assert_eq!(find(&p, "", "downloads", ANY, &[]), ["Full"]);
}

#[test]
fn query_is_a_case_insensitive_regular_expression() {
    let p = index(vec![
        package("Au", "BigLobby", "More players", &[]),
        package("Bo", "Flashlight", "Brighter light", &[]),
        package("Cy", "Quota", "Lower quota", &[]),
    ]);
    assert_eq!(find(&p, "LOBBY", "", ANY, &[]), ["BigLobby"]);
    assert_eq!(find(&p, "light$", "", ANY, &[]), ["Flashlight"]);
    assert_eq!(find(&p, "^(au|cy)-", "", ANY, &[]), ["BigLobby", "Quota"]);
    assert_eq!(find(&p, "bo-flashlight flashlight brighter", "", ANY, &[]), ["Flashlight"]);
    assert_eq!(find(&p, "zzzzzzzz", "", ANY, &[]), Vec::<String>::new());
}

#[test]
fn query_that_is_no_expression_is_refused() {
    let p = index(vec![package("Au", "BigLobby", "", &[])]);
    for q in ["(", "[a-", "a{2,1}", "\\"] {
        assert!(!is_valid_pattern(&format!("(?i){q}")));
        assert_eq!(search_page(&p, q, 0, "", ANY, &vec![]).err(), Some(ErrorKind::InvalidInput));
        let c = SearchControl::new();
        assert_eq!(search(&c, &p, q, 0, "", ANY, &vec![]).err(), Some(ErrorKind::InvalidInput));
    }
    assert!(is_valid_pattern("(?i)lobby"));
}

#[test]
fn near_words_are_hits() {
    let p = index(vec![
        package("Au", "Game", "lethal fun", &[]),
        package("Bo", "Other", "harmless fun", &[]),
    ]);
    // one character of six is off: the distance is 1, a fifth of 6 is 1
    assert_eq!(find(&p, "lethql", "", ANY, &[]), ["Game"]);
    // two characters are off
    assert_eq!(find(&p, "lethqq", "", ANY, &[]), Vec::<String>::new());
    // one of four is off: a fifth of 4 is 0
    assert_eq!(find(&p, "gqme", "", ANY, &[]), Vec::<String>::new());
}

#[test]
fn words_that_are_not_ascii_are_not_compared() {
    let p = index(vec![package("Au", "Game", "tr\u{e8}sjoli extra", &[])]);
    assert_eq!(find(&p, "tr\u{e8}sjolj", "", ANY, &[]), Vec::<String>::new());
    let p = index(vec![package("Au", "Game", "tresjoli\u{a0}extra", &[])]);
    assert_eq!(find(&p, "tresjolj", "", ANY, &[]), ["Game"]);
}

#[test]
fn type_filter() {
    let p = index(vec![
        package("Au", "M", "", &["Mods"]),
        package("Au", "P", "", &["Modpacks"]),
        package("Au", "MP", "", &["Mods", "Modpacks"]),
        package("Au", "N", "", &["Audio"]),
    ]);
    let t = |mods, modpacks| Types { mods, modpacks };
    assert_eq!(find(&p, "", "", t(0, 0), &[]), ["M", "P", "MP", "N"]);
    assert_eq!(find(&p, "", "", t(1, 0), &[]), ["M", "MP"]);
    assert_eq!(find(&p, "", "", t(0, 1), &[]), ["P", "MP"]);
    assert_eq!(find(&p, "", "", t(1, 1), &[]), ["M", "P", "MP"]);
    assert_eq!(find(&p, "", "", t(-1, 0), &[]), ["P", "N"]);
    assert_eq!(find(&p, "", "", t(0, -1), &[]), ["M", "N"]);
    assert_eq!(find(&p, "", "", t(1, -1), &[]), ["M"]);
    assert_eq!(find(&p, "", "", t(-1, 1), &[]), ["P"]);
    assert_eq!(find(&p, "", "", t(-1, -1), &[]), Vec::<String>::new());
}

#[test]
fn category_filter() {
    let p = index(vec![
        package("Au", "A", "", &["Mods", "Audio"]),
        package("Au", "T", "", &["Mods", "Tools"]),
        package("Au", "AT", "", &["Audio", "Tools"]),
        package("Au", "N", "", &["Mods"]),
    ]);
    assert_eq!(find(&p, "", "", ANY, &[]), ["A", "T", "AT", "N"]);
    assert_eq!(find(&p, "", "", ANY, &["Audio"]), ["A", "AT"]);
    assert_eq!(find(&p, "", "", ANY, &["Audio", "Tools"]), ["A", "T", "AT"]);
    assert_eq!(find(&p, "", "", ANY, &["Suits"]), Vec::<String>::new());
    assert_eq!(find(&p, "", "", Types { mods: 1, modpacks: 0 }, &["Tools"]), ["T"]);
}

#[test]
fn sort_keys() {
    let mut a = package("Au", "bravo", "", &[]);
    a.rating_score = 5;
    a.date_updated = Timestamp { secs: 100, nanos: 5 };
    a.date_created = Timestamp { secs: 30, nanos: 0 };
    a.versions[0].downloads = 7;
    let mut b = package("Au", "alpha", "", &[]);
    b.rating_score = 9;
    b.date_updated = Timestamp { secs: 100, nanos: 6 };
    b.date_created = Timestamp { secs: 10, nanos: 0 };
    b.versions[0].downloads = 7;
    let mut c = package("Au", "Charlie", "", &[]);
    c.rating_score = 5;
    c.date_updated = Timestamp { secs: 99, nanos: 999_999_999 };
    c.date_created = Timestamp { secs: 20, nanos: 0 };
    c.versions[0].downloads = 8;
    let p = index(vec![a, b, c]);
    assert_eq!(find(&p, "", "", ANY, &[]), ["bravo", "alpha", "Charlie"]);
    assert_eq!(find(&p, "", "whatever", ANY, &[]), ["bravo", "alpha", "Charlie"]);
    assert_eq!(find(&p, "", "rating", ANY, &[]), ["alpha", "bravo", "Charlie"]);
    assert_eq!(find(&p, "", "updated", ANY, &[]), ["alpha", "bravo", "Charlie"]);
    assert_eq!(find(&p, "", "created", ANY, &[]), ["bravo", "Charlie", "alpha"]);
    assert_eq!(find(&p, "", "downloads", ANY, &[]), ["Charlie", "bravo", "alpha"]);
    assert_eq!(find(&p, "", "name", ANY, &[]), ["Charlie", "alpha", "bravo"]);
}

#[test]
fn sort_key_words() {
    assert_eq!(parse_sort_key("rating"), SortKey::Rating);
    assert_eq!(parse_sort_key("updated"), SortKey::Updated);
    assert_eq!(parse_sort_key("created"), SortKey::Created);
    assert_eq!(parse_sort_key("downloads"), SortKey::Downloads);
    assert_eq!(parse_sort_key("name"), SortKey::Name);
    assert_eq!(parse_sort_key("Rating"), SortKey::Unsorted);
    assert_eq!(parse_sort_key(""), SortKey::Unsorted);
}

#[test]
fn sort_is_stable_over_many() {
    let mods: Vec<Mod> = (0..50)
        .map(|i| {
            let mut m = package("Au", &format!("N{i:02}"), "", &[]);
            m.rating_score = (i * 7) % 5;
            m
        })
        .collect();
    let mut expected: Vec<(i32, String)> =
        mods.iter().map(|m| (m.rating_score, m.name.clone())).collect();
    expected.sort_by(|x, y| y.0.cmp(&x.0));
    let expected: Vec<String> = expected.into_iter().map(|e| e.1).collect();
    assert_eq!(find(&index(mods), "", "rating", ANY, &[]), expected);
}

#[test]
fn superseded_search_is_cancelled() {
    let p = index(vec![package("Au", "A", "", &[]), package("Au", "B", "", &[])]);
    let c = SearchControl::new();
    assert_eq!(names(&search(&c, &p, "", 0, "", ANY, &vec![]).unwrap().mods), ["A", "B"]);
    c.interrupt();
    assert_eq!(search(&c, &p, "", 0, "", ANY, &vec![]).err(), Some(ErrorKind::Cancelled));
    // the signal was taken off: the next search runs to its end
    assert_eq!(names(&search(&c, &p, "", 0, "", ANY, &vec![]).unwrap().mods), ["A", "B"]);
    assert_eq!(names(&search(&c, &p, "-b ", 0, "name", ANY, &vec![]).unwrap().mods), ["B"]);
}

#[test]
fn index_is_built_from_the_listed_packages() {
    let mut newer = package("Au", "A", "second", &["Mods", "Tools"]);
    newer.rating_score = 2;
    let p = load_package(vec![
        package("ebkr", "r2modman", "the tool", &["Tooling"]),
        package("Au", "A", "first", &["Mods", "Audio"]),
        package("Au", "B", "", &["Modpacks", "Suits", "Audio"]),
        newer,
        package("Au", "C", "", &["audio", "Zebra", "Mods"]),
    ]);
    assert_eq!(names(&p.mods), ["A", "B", "C"]);
    assert_eq!(p.mods[0].rating_score, 2);
    assert_eq!(p.mods[0].versions[0].description, "second");
    assert_eq!(p.categories, ["Audio", "Suits", "Tools", "Zebra", "audio"]);
}

#[test]
fn index_of_nothing() {
    let p = load_package(vec![]);
    assert!(p.mods.is_empty() && p.categories.is_empty());
    let p = load_package(vec![package("ebkr", "r2modman", "", &["Tooling"])]);
    assert!(p.mods.is_empty() && p.categories.is_empty());
}

#[test]
fn scan_ends_where_the_signal_was_seen() {
    assert_eq!(after_poll(true), Err(ErrorKind::Cancelled));
    assert_eq!(after_poll(false), Ok(()));
}

#[test]
fn empty_catalog_is_searched_to_the_end() {
    let p = index(vec![]);
    let c = SearchControl::new();
    c.interrupt();
    let res = search(&c, &p, "anything", 0, "rating", ANY, &vec![]).unwrap();
    assert!(res.mods.is_empty());
    assert_eq!(res.pages, 0);
    assert_eq!(res.categories, ["Audio", "Tools"]);
    // nothing looked for the signal, so it is still there for the next scan
    let p = index(vec![package("Au", "A", "", &[])]);
    assert_eq!(search(&c, &p, "", 0, "", ANY, &vec![]).err(), Some(ErrorKind::Cancelled));
}
