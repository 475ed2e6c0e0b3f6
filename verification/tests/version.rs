use lethal_manager::errors::ErrorKind;
use lethal_manager::version::{compare_versions, get_absolute_version};
use std::cmp::Ordering;

#[test]
fn a_version_equals_itself() {
    for v in ["0.0.0", "1.2.3", "10.20.30", "4294967295.0.1"] {
        assert_eq!(compare_versions(v, v), Ok(Ordering::Equal));
    }
}

#[test]
fn minor_outweighs_patch() {
    assert_eq!(compare_versions("1.2.3", "1.3.0"), Ok(Ordering::Less));
    assert_eq!(compare_versions("1.3.0", "1.2.3"), Ok(Ordering::Greater));
}

#[test]
fn weight_is_major_100_minor_10_patch_1() {
    assert_eq!(get_absolute_version("1.2.3"), Ok(123));
    assert_eq!(get_absolute_version("0.0.0"), Ok(0));
    assert_eq!(get_absolute_version("2.0.7"), Ok(207));
    assert_eq!(get_absolute_version("01.002.0003"), Ok(123));
    assert_eq!(get_absolute_version("1.0.10"), Ok(110));
    assert_eq!(get_absolute_version("1.1.0"), Ok(110));
    assert_eq!(
        get_absolute_version("4294967295.4294967295.4294967295"),
        Ok(4294967295u64 * 111)
    );
}

#[test]
fn the_order_is_not_semantic_versioning() {
    assert_eq!(compare_versions("1.0.10", "1.1.0"), Ok(Ordering::Equal));
    assert_eq!(compare_versions("1.0.11", "1.1.0"), Ok(Ordering::Greater));
    assert_eq!(compare_versions("0.10.0", "1.0.0"), Ok(Ordering::Equal));
}

#[test]
fn malformed_versions_are_refused() {
    for v in [
        "", "1", "1.2", "1.2.3.4", "1..3", ".1.2", "1.2.", "a.b.c", "1.2.x", "+1.2.3", "-1.2.3",
        "1.2.3 ", " 1.2.3", "1.2.4294967296", "1,2,3",
    ] {
        assert_eq!(get_absolute_version(v), Err(ErrorKind::InvalidInput), "{v:?}");
        assert_eq!(compare_versions(v, "1.0.0"), Err(ErrorKind::InvalidInput));
        assert_eq!(compare_versions("1.0.0", v), Err(ErrorKind::InvalidInput));
    }
}

#[test]
fn less_is_transitive_and_irreflexive_on_samples() {
    let vs = ["0.0.1", "0.1.0", "0.9.9", "1.0.0", "1.2.3", "1.3.0", "2.0.0", "10.0.0"];
    for a in vs {
        assert_ne!(compare_versions(a, a), Ok(Ordering::Less));
        for b in vs {
            for c in vs {
                if compare_versions(a, b) == Ok(Ordering::Less)
                    && compare_versions(b, c) == Ok(Ordering::Less)
                {
                    assert_eq!(compare_versions(a, c), Ok(Ordering::Less));
                }
            }
        }
    }
}
