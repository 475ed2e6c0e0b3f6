//! Resolution of a package version's dependencies.
//!
//! The resolver starts from one reference `full_name-version_number` and
//! walks the references that the catalog's versions name as dependencies,
//! depth first. It keeps a list of the versions found, one per package: a
//! package met again replaces its entry where the new version is strictly
//! greater, and is passed over otherwise. A package that is installed in a
//! version at least as great as the one asked for is passed over too, and so
//! is a reference to what the catalog does not hold.
//!
//! The walk is a machine with two parts: the references still to be looked
//! at, the next one last, and the versions found so far.

use crate::catalog::{
    catalog_place, catalog_version, fetch_version, find_installed, installed_names, lemma_position,
    lemma_position_is_first, lemma_position_none, mod_names, parse_mod_version, parsed_reference,
    position, version_numbers, Mod, ModInfo, ModInfoView, ModView, Version, VersionView,
};
use crate::errors::ErrorKind;
use crate::version::{get_absolute_version, lemma_weight_nonnegative, version_weight};
use vstd::prelude::*;

verus! {

/// A version found for a package.
#[derive(Debug)]
pub struct Found {
    pub full_name: String,
    pub version: Version,
}

/// The model of a `Found`.
pub struct FoundView {
    pub full_name: Seq<char>,
    pub version: VersionView,
}

impl DeepView for Found {
    type V = FoundView;

    open spec fn deep_view(&self) -> FoundView {
        FoundView { full_name: self.full_name@, version: self.version.deep_view() }
    }
}

/// The state of the walk.
pub struct Walk {
    /// The references still to be looked at; the last one is next.
    pub pending: Seq<Seq<char>>,
    /// The versions found so far.
    pub found: Seq<FoundView>,
}

/// What a reference brings to the versions found.
pub enum Decision {
    /// Nothing: the branch ends here.
    Pass,
    /// A new entry at the front of the list.
    Insert(VersionView),
    /// A greater version in place of the entry at the given place.
    Upgrade(int, VersionView),
}

/// The names of the packages found, in order.
pub open spec fn found_names(found: Seq<FoundView>) -> Seq<Seq<char>> {
    Seq::new(found.len(), |i: int| found[i].full_name)
}

/// The versions found, in order.
pub open spec fn found_versions(found: Seq<FoundView>) -> Seq<VersionView> {
    Seq::new(found.len(), |i: int| found[i].version)
}

/// What the catalog gives for a package and a number: an entry to insert,
/// or nothing.
pub open spec fn fetched(catalog: Seq<ModView>, name: Seq<char>, number: Seq<char>) -> Decision {
    match catalog_version(catalog, name, number) {
        Some(v) => Decision::Insert(v),
        None => Decision::Pass,
    }
}

/// What the reference brings. A version string that has to be compared and
/// is malformed makes the resolution fail.
pub open spec fn decided(
    reference: Seq<char>,
    found: Seq<FoundView>,
    installed: Seq<ModInfoView>,
    catalog: Seq<ModView>,
) -> Result<Decision, ErrorKind> {
    let (name, number) = parsed_reference(reference);
    match position(found_names(found), name) {
        Some(i) => match (
            version_weight(number),
            version_weight(found[i].version.version_number),
        ) {
            (Some(asked), Some(held)) => if asked > held {
                match catalog_version(catalog, name, number) {
                    Some(v) => Ok(Decision::Upgrade(i, v)),
                    None => Ok(Decision::Pass),
                }
            } else {
                Ok(Decision::Pass)
            },
            _ => Err(ErrorKind::InvalidInput),
        },
        None => match position(installed_names(installed), name) {
            Some(j) => match (version_weight(number), version_weight(installed[j].version_number)) {
                (Some(asked), Some(held)) => if asked <= held {
                    Ok(Decision::Pass)
                } else {
                    Ok(fetched(catalog, name, number))
                },
                _ => Err(ErrorKind::InvalidInput),
            },
            None => Ok(fetched(catalog, name, number)),
        },
    }
}

/// The state after the decision on the next reference: the reference is
/// taken off, a version that comes in brings its dependencies, the first of
/// them next, and takes its place among the versions found.
pub open spec fn advanced(walk: Walk, decision: Decision) -> Walk {
    let name = parsed_reference(walk.pending.last()).0;
    let rest = walk.pending.drop_last();
    match decision {
        Decision::Pass => Walk { pending: rest, found: walk.found },
        Decision::Insert(v) => Walk {
            pending: rest + v.dependencies.reverse(),
            found: seq![FoundView { full_name: name, version: v }] + walk.found,
        },
        Decision::Upgrade(i, v) => Walk {
            pending: rest + v.dependencies.reverse(),
            found: walk.found.update(i, FoundView { full_name: name, version: v }),
        },
    }
}

/// The weight of a version string, and 0 for a malformed one.
pub open spec fn weight_or_zero(number: Seq<char>) -> int {
    match version_weight(number) {
        Some(w) => w,
        None => 0,
    }
}

/// One more than the greatest weight among the versions, at least 1.
pub open spec fn versions_bound(versions: Seq<VersionView>) -> int
    decreases versions.len(),
{
    if versions.len() == 0 {
        1
    } else {
        let before = versions_bound(versions.drop_last());
        let here = weight_or_zero(versions.last().version_number) + 1;
        if here > before {
            here
        } else {
            before
        }
    }
}

/// One more than the greatest weight among all versions of the catalog.
pub open spec fn catalog_bound(catalog: Seq<ModView>) -> int
    decreases catalog.len(),
{
    if catalog.len() == 0 {
        1
    } else {
        let before = catalog_bound(catalog.drop_last());
        let here = versions_bound(catalog.last().versions);
        if here > before {
            here
        } else {
            before
        }
    }
}

/// How far the package `name` has come: 0 while no version of it is found,
/// else one more than the weight of the version found.
pub open spec fn rank(found: Seq<FoundView>, name: Seq<char>) -> int {
    match position(found_names(found), name) {
        Some(i) => 1 + weight_or_zero(found[i].version.version_number),
        None => 0,
    }
}

/// How far the `k`-th package of the catalog can still go.
pub open spec fn room(found: Seq<FoundView>, catalog: Seq<ModView>, k: int) -> nat {
    let r = rank(found, catalog[k].full_name);
    if r < catalog_bound(catalog) {
        (catalog_bound(catalog) - r) as nat
    } else {
        0
    }
}

/// The room of the first `n` packages of the catalog together.
pub open spec fn room_below(found: Seq<FoundView>, catalog: Seq<ModView>, n: int) -> nat
    decreases n,
{
    if n <= 0 {
        0
    } else {
        room_below(found, catalog, n - 1) + room(found, catalog, n - 1)
    }
}

/// The room of all packages of the catalog together: it shrinks with every
/// version that comes in, which is why the walk ends.
pub open spec fn total_room(found: Seq<FoundView>, catalog: Seq<ModView>) -> nat {
    room_below(found, catalog, catalog.len() as int)
}

/// The result of the walk from the given state on: the versions found when
/// nothing is pending any more, or the failure met on the way.
pub open spec fn walked(walk: Walk, installed: Seq<ModInfoView>, catalog: Seq<ModView>) -> Result<
    Seq<VersionView>,
    ErrorKind,
>
    decreases total_room(walk.found, catalog), walk.pending.len(),
{
    if walk.pending.len() == 0 {
        Ok(found_versions(walk.found))
    } else {
        match decided(walk.pending.last(), walk.found, installed, catalog) {
            Ok(decision) => {
                proof {
                    lemma_step_decreases(walk, installed, catalog);
                }
                walked(advanced(walk, decision), installed, catalog)
            },
            Err(e) => Err(e),
        }
    }
}

/// The versions to install for the reference `root`, in the order in which
/// they were last put: dependencies that are met after the package that
/// needs them stand before it.
pub open spec fn resolved(
    root: Seq<char>,
    installed: Seq<ModInfoView>,
    catalog: Seq<ModView>,
) -> Result<Seq<VersionView>, ErrorKind> {
    walked(Walk { pending: seq![root], found: Seq::empty() }, installed, catalog)
}

proof fn lemma_versions_bound(versions: Seq<VersionView>, b: int)
    requires
        0 <= b < versions.len(),
    ensures
        weight_or_zero(versions[b].version_number) < versions_bound(versions),
        1 <= versions_bound(versions),
    decreases versions.len(),
{
    if b < versions.len() - 1 {
        lemma_versions_bound(versions.drop_last(), b);
    } else if versions.len() > 1 {
        lemma_versions_bound(versions.drop_last(), 0);
    }
}

proof fn lemma_catalog_bound(catalog: Seq<ModView>, a: int, b: int)
    requires
        0 <= a < catalog.len(),
        0 <= b < catalog[a].versions.len(),
    ensures
        weight_or_zero(catalog[a].versions[b].version_number) < catalog_bound(catalog),
    decreases catalog.len(),
{
    if a < catalog.len() - 1 {
        lemma_catalog_bound(catalog.drop_last(), a, b);
    } else {
        lemma_versions_bound(catalog[a].versions, b);
    }
}

/// Where no package has lost rank and the `k`-th has gained some within the
/// bound, the room has shrunk.
proof fn lemma_room_shrinks(
    before: Seq<FoundView>,
    after: Seq<FoundView>,
    catalog: Seq<ModView>,
    n: int,
    k: int,
)
    requires
        0 <= n <= catalog.len(),
        forall|j: int|
            0 <= j < catalog.len() ==> rank(before, #[trigger] catalog[j].full_name) <= rank(
                after,
                catalog[j].full_name,
            ),
        0 <= k < catalog.len(),
        rank(before, catalog[k].full_name) < rank(after, catalog[k].full_name),
        rank(after, catalog[k].full_name) <= catalog_bound(catalog),
    ensures
        room_below(after, catalog, n) <= room_below(before, catalog, n),
        k < n ==> room_below(after, catalog, n) < room_below(before, catalog, n),
    decreases n,
{
    if n > 0 {
        lemma_room_shrinks(before, after, catalog, n - 1, k);
        assert(rank(before, catalog[n - 1].full_name) <= rank(after, catalog[n - 1].full_name));
    }
}

/// The rank of every package after a new entry was put at the front.
proof fn lemma_rank_after_insert(found: Seq<FoundView>, entry: FoundView, name: Seq<char>)
    ensures
        rank(seq![entry] + found, name) == (if name == entry.full_name {
            1 + weight_or_zero(entry.version.version_number)
        } else {
            rank(found, name)
        }),
{
    let after = seq![entry] + found;
    let names = found_names(found);
    let after_names = found_names(after);
    assert(after_names =~= seq![entry.full_name] + names);
    if name == entry.full_name {
        assert(crate::catalog::is_first_at(after_names, 0, name));
        lemma_position(after_names, 0, name);
    } else {
        lemma_position_is_first(names, name);
        match position(names, name) {
            Some(i) => {
                assert(crate::catalog::is_first_at(after_names, i + 1, name)) by {
                    assert forall|j: int| 0 <= j < i + 1 implies after_names[j] != name by {
                        if j > 0 {
                            assert(after_names[j] == names[j - 1]);
                        }
                    }
                }
                lemma_position(after_names, i + 1, name);
                assert(after[i + 1] == found[i]);
            },
            None => {
                assert forall|j: int| 0 <= j < after_names.len() implies after_names[j]
                    != name by {
                    if j > 0 {
                        assert(after_names[j] == names[j - 1]);
                    }
                }
                lemma_position_none(after_names, name);
            },
        }
    }
}

/// The rank of every package after the entry of a package was replaced.
proof fn lemma_rank_after_upgrade(
    found: Seq<FoundView>,
    i: int,
    entry: FoundView,
    name: Seq<char>,
)
    requires
        position(found_names(found), entry.full_name) == Some(i),
    ensures
        rank(found.update(i, entry), name) == (if name == entry.full_name {
            1 + weight_or_zero(entry.version.version_number)
        } else {
            rank(found, name)
        }),
{
    lemma_position_is_first(found_names(found), entry.full_name);
    let after = found.update(i, entry);
    assert(found_names(after) =~= found_names(found));
    lemma_position_is_first(found_names(found), name);
}

/// What comes in with a decision is a version of the catalog, filed under
/// the package that the reference names, and it carries the number asked for.
proof fn lemma_decision_from_catalog(
    reference: Seq<char>,
    found: Seq<FoundView>,
    installed: Seq<ModInfoView>,
    catalog: Seq<ModView>,
)
    ensures
        match decided(reference, found, installed, catalog) {
            Ok(Decision::Insert(v)) => {
                &&& position(found_names(found), parsed_reference(reference).0) is None
                &&& catalog_place(
                    catalog,
                    parsed_reference(reference).0,
                    parsed_reference(reference).1,
                ) matches Some((a, b))
                &&& 0 <= a < catalog.len()
                &&& catalog[a].full_name == parsed_reference(reference).0
                &&& 0 <= b < catalog[a].versions.len()
                &&& catalog[a].versions[b] == v
                &&& v.version_number == parsed_reference(reference).1
            },
            Ok(Decision::Upgrade(i, v)) => {
                &&& position(found_names(found), parsed_reference(reference).0) == Some(i)
                &&& 0 <= i < found.len()
                &&& catalog_place(
                    catalog,
                    parsed_reference(reference).0,
                    parsed_reference(reference).1,
                ) matches Some((a, b))
                &&& 0 <= a < catalog.len()
                &&& catalog[a].full_name == parsed_reference(reference).0
                &&& 0 <= b < catalog[a].versions.len()
                &&& catalog[a].versions[b] == v
                &&& v.version_number == parsed_reference(reference).1
                &&& weight_or_zero(found[i].version.version_number) < weight_or_zero(
                    v.version_number,
                )
            },
            _ => true,
        },
{
    let (name, number) = parsed_reference(reference);
    lemma_position_is_first(found_names(found), name);
    lemma_position_is_first(mod_names(catalog), name);
    match position(mod_names(catalog), name) {
        Some(a) => {
            lemma_position_is_first(version_numbers(catalog[a].versions), number);
        },
        None => {},
    }
}

/// Every step of the walk either shrinks the room, or leaves the versions
/// found as they are and takes one reference off.
pub proof fn lemma_step_decreases(walk: Walk, installed: Seq<ModInfoView>, catalog: Seq<ModView>)
    requires
        walk.pending.len() > 0,
        decided(walk.pending.last(), walk.found, installed, catalog) is Ok,
    ensures
        ({
            let next = advanced(
                walk,
                decided(walk.pending.last(), walk.found, installed, catalog)->Ok_0,
            );
            total_room(next.found, catalog) < total_room(walk.found, catalog) || (total_room(
                next.found,
                catalog,
            ) == total_room(walk.found, catalog) && next.pending.len() < walk.pending.len())
        }),
{
    let reference = walk.pending.last();
    let (name, number) = parsed_reference(reference);
    let decision = decided(reference, walk.found, installed, catalog)->Ok_0;
    let next = advanced(walk, decision);
    lemma_decision_from_catalog(reference, walk.found, installed, catalog);
    lemma_weight_nonnegative(number);
    match decision {
        Decision::Pass => {},
        Decision::Insert(v) => {
            let entry = FoundView { full_name: name, version: v };
            let (a, b) = catalog_place(catalog, name, number)->0;
            lemma_catalog_bound(catalog, a, b);
            assert forall|j: int| 0 <= j < catalog.len() implies rank(
                walk.found,
                #[trigger] catalog[j].full_name,
            ) <= rank(next.found, catalog[j].full_name) by {
                lemma_rank_after_insert(walk.found, entry, catalog[j].full_name);
            }
            lemma_rank_after_insert(walk.found, entry, name);
            lemma_room_shrinks(walk.found, next.found, catalog, catalog.len() as int, a);
        },
        Decision::Upgrade(i, v) => {
            let entry = FoundView { full_name: name, version: v };
            let (a, b) = catalog_place(catalog, name, number)->0;
            lemma_catalog_bound(catalog, a, b);
            assert forall|j: int| 0 <= j < catalog.len() implies rank(
                walk.found,
                #[trigger] catalog[j].full_name,
            ) <= rank(next.found, catalog[j].full_name) by {
                lemma_rank_after_upgrade(walk.found, i, entry, catalog[j].full_name);
            }
            lemma_rank_after_upgrade(walk.found, i, entry, name);
            lemma_room_shrinks(walk.found, next.found, catalog, catalog.len() as int, a);
        },
    }
}

/// The version is one that the catalog holds.
pub open spec fn is_catalog_version(catalog: Seq<ModView>, v: VersionView) -> bool {
    exists|a: int, b: int|
        0 <= a < catalog.len() && 0 <= b < catalog[a].versions.len()
            && #[trigger] catalog[a].versions[b] == v
}

/// All versions found are versions of the catalog.
pub open spec fn found_in_catalog(found: Seq<FoundView>, catalog: Seq<ModView>) -> bool {
    forall|i: int|
        0 <= i < found.len() ==> is_catalog_version(catalog, (#[trigger] found[i]).version)
}

/// A walk that holds versions of the catalog only ends with versions of the
/// catalog only.
pub proof fn lemma_walked_in_catalog(
    walk: Walk,
    installed: Seq<ModInfoView>,
    catalog: Seq<ModView>,
)
    requires
        found_in_catalog(walk.found, catalog),
    ensures
        walked(walk, installed, catalog) matches Ok(versions) ==> forall|i: int|
            0 <= i < versions.len() ==> is_catalog_version(catalog, #[trigger] versions[i]),
    decreases total_room(walk.found, catalog), walk.pending.len(),
{
    if walk.pending.len() == 0 {
        let versions = found_versions(walk.found);
        assert forall|i: int| 0 <= i < versions.len() implies is_catalog_version(
            catalog,
            #[trigger] versions[i],
        ) by {
            assert(versions[i] == walk.found[i].version);
        }
    } else {
        let reference = walk.pending.last();
        match decided(reference, walk.found, installed, catalog) {
            Ok(decision) => {
                lemma_step_decreases(walk, installed, catalog);
                lemma_decision_from_catalog(reference, walk.found, installed, catalog);
                let next = advanced(walk, decision);
                assert(found_in_catalog(next.found, catalog)) by {
                    match decision {
                        Decision::Pass => {},
                        Decision::Insert(v) => {
                            assert forall|i: int|
                                0 <= i < next.found.len() implies is_catalog_version(
                                catalog,
                                (#[trigger] next.found[i]).version,
                            ) by {
                                if i > 0 {
                                    assert(next.found[i] == walk.found[i - 1]);
                                }
                            }
                        },
                        Decision::Upgrade(p, v) => {
                            assert forall|i: int|
                                0 <= i < next.found.len() implies is_catalog_version(
                                catalog,
                                (#[trigger] next.found[i]).version,
                            ) by {
                                if i != p {
                                    assert(next.found[i] == walk.found[i]);
                                }
                            }
                        },
                    }
                }
                lemma_walked_in_catalog(next, installed, catalog);
            },
            Err(_) => {},
        }
    }
}

/// Whatever is resolved is a version that the catalog holds.
pub proof fn lemma_resolved_in_catalog(
    root: Seq<char>,
    installed: Seq<ModInfoView>,
    catalog: Seq<ModView>,
)
    ensures
        resolved(root, installed, catalog) matches Ok(versions) ==> forall|i: int|
            0 <= i < versions.len() ==> is_catalog_version(catalog, #[trigger] versions[i]),
{
    lemma_walked_in_catalog(
        Walk { pending: seq![root], found: Seq::empty() },
        installed,
        catalog,
    );
}

/// The place of the first entry for the package `full_name`.
fn find_found(found: &Vec<Found>, full_name: &String) -> (r: Option<usize>)
    ensures
        match r {
            Some(i) => position(found_names(found.deep_view()), full_name@) == Some(i as int) && i
                < found.len(),
            None => position(found_names(found.deep_view()), full_name@) is None,
        },
{
    let ghost names = found_names(found.deep_view());
    let mut i: usize = 0;
    while i < found.len()
        invariant
            i <= found.len(),
            names == found_names(found.deep_view()),
            forall|j: int| 0 <= j < i ==> names[j] != full_name@,
        decreases found.len() - i,
    {
        if found[i].full_name == *full_name {
            proof {
                assert(names[i as int] == found[i as int].deep_view().full_name);
                lemma_position(names, i as int, full_name@);
            }
            return Some(i);
        }
        assert(names[i as int] == found[i as int].deep_view().full_name);
        i += 1;
    }
    proof {
        lemma_position_none(names, full_name@);
    }
    None
}

/// What comes in for a reference: nothing, a new entry, or a replacement.
enum Step {
    Pass,
    Insert(Version),
    Upgrade(usize, Version),
}

impl Step {
    spec fn decision(self) -> Decision {
        match self {
            Step::Pass => Decision::Pass,
            Step::Insert(v) => Decision::Insert(v.deep_view()),
            Step::Upgrade(i, v) => Decision::Upgrade(i as int, v.deep_view()),
        }
    }
}

fn fetch_step(mods: &Vec<Mod>, name: &String, number: &String) -> (r: Step)
    ensures
        r.decision() == fetched(mods.deep_view(), name@, number@),
{
    match fetch_version(mods, name.as_str(), number.as_str()) {
        Some(v) => Step::Insert(v),
        None => Step::Pass,
    }
}

/// Decides on one reference.
fn decide(
    name: &String,
    number: &String,
    found: &Vec<Found>,
    installed: &Vec<ModInfo>,
    mods: &Vec<Mod>,
    Ghost(reference): Ghost<Seq<char>>,
) -> (r: Result<Step, ErrorKind>)
    requires
        parsed_reference(reference) == (name@, number@),
    ensures
        match r {
            Ok(step) => decided(
                reference,
                found.deep_view(),
                installed.deep_view(),
                mods.deep_view(),
            ) == Ok::<Decision, ErrorKind>(step.decision()),
            Err(e) => decided(
                reference,
                found.deep_view(),
                installed.deep_view(),
                mods.deep_view(),
            ) == Err::<Decision, ErrorKind>(e),
        },
        r matches Ok(Step::Upgrade(i, _)) ==> i < found.len(),
{
    match find_found(found, name) {
        Some(i) => {
            assert(found.deep_view()[i as int] == found[i as int].deep_view());
            let asked = get_absolute_version(number.as_str());
            let held = get_absolute_version(found[i].version.version_number.as_str());
            match (asked, held) {
                (Ok(a), Ok(h)) => {
                    if a > h {
                        match fetch_version(mods, name.as_str(), number.as_str()) {
                            Some(v) => Ok(Step::Upgrade(i, v)),
                            None => Ok(Step::Pass),
                        }
                    } else {
                        Ok(Step::Pass)
                    }
                },
                _ => Err(ErrorKind::InvalidInput),
            }
        },
        None => match find_installed(installed, name.as_str()) {
            Some(j) => {
                assert(installed.deep_view()[j as int] == installed[j as int].deep_view());
                let asked = get_absolute_version(number.as_str());
                let held = get_absolute_version(installed[j].version_number.as_str());
                match (asked, held) {
                    (Ok(a), Ok(h)) => {
                        if a <= h {
                            Ok(Step::Pass)
                        } else {
                            Ok(fetch_step(mods, name, number))
                        }
                    },
                    _ => Err(ErrorKind::InvalidInput),
                }
            },
            None => Ok(fetch_step(mods, name, number)),
        },
    }
}

/// Puts the dependencies on the pending references, the first one last.
fn push_reversed(pending: &mut Vec<String>, dependencies: &Vec<String>)
    ensures
        final(pending).deep_view() == old(pending).deep_view() + dependencies.deep_view().reverse(),
{
    let ghost start = pending.deep_view();
    let ghost deps = dependencies.deep_view();
    let mut k: usize = dependencies.len();
    while k > 0
        invariant
            k <= dependencies.len(),
            deps == dependencies.deep_view(),
            pending.deep_view() == start + deps.reverse().take(deps.len() - k),
        decreases k,
    {
        k -= 1;
        let ghost before = pending.deep_view();
        pending.push(dependencies[k].clone());
        proof {
            let r = deps.reverse();
            let n = deps.len() as int;
            assert(r[n - k - 1] == deps[k as int]);
            assert(r.take(n - k) =~= r.take(n - k - 1).push(r[n - k - 1]));
            assert(pending.deep_view() =~= before.push(deps[k as int]));
        }
    }
    assert(deps.reverse().take(deps.len() as int) =~= deps.reverse());
}

/// The versions found, without the names they were found under.
fn into_versions(found: Vec<Found>) -> (r: Vec<Version>)
    ensures
        r.deep_view() == found_versions(found.deep_view()),
{
    let mut out: Vec<Version> = Vec::new();
    let mut i: usize = 0;
    while i < found.len()
        invariant
            i <= found.len(),
            out.deep_view() == found_versions(found.deep_view()).take(i as int),
        decreases found.len() - i,
    {
        let ghost before = out.deep_view();
        out.push(found[i].version.clone());
        proof {
            let all = found_versions(found.deep_view());
            assert(found.deep_view()[i as int] == found[i as int].deep_view());
            assert(all.take(i + 1) =~= all.take(i as int).push(all[i as int]));
            assert(out.deep_view() =~= before.push(all[i as int]));
        }
        i += 1;
    }
    assert(found_versions(found.deep_view()).take(found.len() as int) =~= found_versions(
        found.deep_view(),
    ));
    out
}

/// Resolves the versions to install for the reference `version_name`, given
/// the mods installed in the profile and the catalog's packages.
///
/// The walk ends for every catalog. It fails only where a version string
/// that it has to compare is not three dot-separated numbers.
pub fn get_dependencies(version_name: &str, profile_mods: &Vec<ModInfo>, mods: &Vec<Mod>) -> (r:
    Result<Vec<Version>, ErrorKind>)
    ensures
        match r {
            Ok(versions) => resolved(version_name@, profile_mods.deep_view(), mods.deep_view())
                == Ok::<Seq<VersionView>, ErrorKind>(versions.deep_view()),
            Err(e) => resolved(version_name@, profile_mods.deep_view(), mods.deep_view()) == Err::<
                Seq<VersionView>,
                ErrorKind,
            >(e),
        },
{
    let ghost installed = profile_mods.deep_view();
    let ghost catalog = mods.deep_view();
    let ghost goal = resolved(version_name@, installed, catalog);
    let mut pending: Vec<String> = Vec::new();
    pending.push(version_name.to_owned());
    let mut found: Vec<Found> = Vec::new();
    proof {
        assert(pending.deep_view() =~= seq![version_name@]);
        assert(found.deep_view() =~= Seq::<FoundView>::empty());
    }
    while pending.len() > 0
        invariant
            installed == profile_mods.deep_view(),
            catalog == mods.deep_view(),
            goal == resolved(version_name@, installed, catalog),
            goal == walked(
                Walk { pending: pending.deep_view(), found: found.deep_view() },
                installed,
                catalog,
            ),
        decreases total_room(found.deep_view(), catalog), pending.len(),
    {
        let ghost walk = Walk { pending: pending.deep_view(), found: found.deep_view() };
        let reference = pending.pop().unwrap();
        proof {
            assert(reference@ == walk.pending.last());
            assert(pending.deep_view() =~= walk.pending.drop_last());
        }
        let (name, number) = parse_mod_version(reference.as_str());
        match decide(&name, &number, &found, profile_mods, mods, Ghost(reference@)) {
            Err(e) => {
                return Err(e);
            },
            Ok(step) => {
                proof {
                    lemma_step_decreases(walk, installed, catalog);
                }
                match step {
                    Step::Pass => {},
                    Step::Insert(v) => {
                        push_reversed(&mut pending, &v.dependencies);
                        let ghost entry = FoundView { full_name: name@, version: v.deep_view() };
                        found.insert(0, Found { full_name: name, version: v });
                        assert(found.deep_view() =~= seq![entry] + walk.found);
                    },
                    Step::Upgrade(i, v) => {
                        push_reversed(&mut pending, &v.dependencies);
                        let ghost entry = FoundView { full_name: name@, version: v.deep_view() };
                        found.set(i, Found { full_name: name, version: v });
                        assert(found.deep_view() =~= walk.found.update(i as int, entry));
                    },
                }
            },
        }
    }
    Ok(into_versions(found))
}

} // verus!
