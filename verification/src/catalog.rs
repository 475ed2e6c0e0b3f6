//! The package catalog: packages, their versions, and the index of them.

use crate::text::{from_chars, is_last_index, last_index, rfind_char, slice, to_chars};
use vstd::prelude::*;

verus! {

/// A point in time: seconds since the Unix epoch, and nanoseconds within the
/// second.
#[derive(Clone, Copy, Debug, PartialEq, Eq, Structural)]
pub struct Timestamp {
    pub secs: i64,
    pub nanos: u32,
}

/// One published version of a package.
#[derive(Debug)]
pub struct Version {
    pub date_created: Timestamp,
    pub dependencies: Vec<String>,
    pub description: String,
    pub download_url: String,
    pub downloads: i32,
    pub file_size: i64,
    pub full_name: String,
    pub icon: String,
    pub is_active: bool,
    pub name: String,
    pub uuid4: String,
    pub version_number: String,
    pub website_url: String,
}

/// The model of a `Version`.
pub struct VersionView {
    pub date_created: Timestamp,
    pub dependencies: Seq<Seq<char>>,
    pub description: Seq<char>,
    pub download_url: Seq<char>,
    pub downloads: i32,
    pub file_size: i64,
    pub full_name: Seq<char>,
    pub icon: Seq<char>,
    pub is_active: bool,
    pub name: Seq<char>,
    pub uuid4: Seq<char>,
    pub version_number: Seq<char>,
    pub website_url: Seq<char>,
}

impl DeepView for Version {
    type V = VersionView;

    open spec fn deep_view(&self) -> VersionView {
        VersionView {
            date_created: self.date_created,
            dependencies: self.dependencies.deep_view(),
            description: self.description@,
            download_url: self.download_url@,
            downloads: self.downloads,
            file_size: self.file_size,
            full_name: self.full_name@,
            icon: self.icon@,
            is_active: self.is_active,
            name: self.name@,
            uuid4: self.uuid4@,
            version_number: self.version_number@,
            website_url: self.website_url@,
        }
    }
}

/// A package of the catalog, with its versions, the latest first.
#[derive(Debug)]
pub struct Mod {
    pub categories: Vec<String>,
    pub date_created: Timestamp,
    pub date_updated: Timestamp,
    pub full_name: String,
    pub has_nsfw_content: bool,
    pub is_deprecated: bool,
    pub is_pinned: bool,
    pub name: String,
    pub owner: String,
    pub package_url: String,
    pub rating_score: i32,
    pub uuid4: String,
    pub versions: Vec<Version>,
}

/// The model of a `Mod`.
pub struct ModView {
    pub categories: Seq<Seq<char>>,
    pub date_created: Timestamp,
    pub date_updated: Timestamp,
    pub full_name: Seq<char>,
    pub has_nsfw_content: bool,
    pub is_deprecated: bool,
    pub is_pinned: bool,
    pub name: Seq<char>,
    pub owner: Seq<char>,
    pub package_url: Seq<char>,
    pub rating_score: i32,
    pub uuid4: Seq<char>,
    pub versions: Seq<VersionView>,
}

impl DeepView for Mod {
    type V = ModView;

    open spec fn deep_view(&self) -> ModView {
        ModView {
            categories: self.categories.deep_view(),
            date_created: self.date_created,
            date_updated: self.date_updated,
            full_name: self.full_name@,
            has_nsfw_content: self.has_nsfw_content,
            is_deprecated: self.is_deprecated,
            is_pinned: self.is_pinned,
            name: self.name@,
            owner: self.owner@,
            package_url: self.package_url@,
            rating_score: self.rating_score,
            uuid4: self.uuid4@,
            versions: self.versions.deep_view(),
        }
    }
}

/// The index of the catalog: the packages in the order in which they were
/// filed, and the category labels that occur among them.
#[derive(Debug)]
pub struct Package {
    pub categories: Vec<String>,
    pub mods: Vec<Mod>,
}

/// One page of a search.
#[derive(Debug)]
pub struct SearchResults {
    pub categories: Vec<String>,
    pub mods: Vec<Mod>,
    pub pages: u32,
}

/// A mod as it is installed in a profile.
#[derive(Debug)]
pub struct ModInfo {
    pub name: String,
    pub full_name: String,
    pub description: String,
    pub author: String,
    pub version_number: String,
    pub dependencies: Vec<String>,
    pub folder: String,
    pub icon: Option<String>,
    pub enabled: bool,
}

/// The model of a `ModInfo`.
pub struct ModInfoView {
    pub name: Seq<char>,
    pub full_name: Seq<char>,
    pub description: Seq<char>,
    pub author: Seq<char>,
    pub version_number: Seq<char>,
    pub dependencies: Seq<Seq<char>>,
    pub folder: Seq<char>,
    pub icon: Option<Seq<char>>,
    pub enabled: bool,
}

impl DeepView for ModInfo {
    type V = ModInfoView;

    open spec fn deep_view(&self) -> ModInfoView {
        ModInfoView {
            name: self.name@,
            full_name: self.full_name@,
            description: self.description@,
            author: self.author@,
            version_number: self.version_number@,
            dependencies: self.dependencies.deep_view(),
            folder: self.folder@,
            icon: match self.icon {
                Some(s) => Some(s@),
                None => None,
            },
            enabled: self.enabled,
        }
    }
}

/// What a search asks of the two package types: `1` requires the type, `-1`
/// excludes it, `0` leaves it open.
#[derive(Clone, Copy, Debug, PartialEq, Eq, Structural)]
pub struct Types {
    pub mods: i8,
    pub modpacks: i8,
}

/// A copy of a list of strings.
pub fn clone_strings(v: &Vec<String>) -> (r: Vec<String>)
    ensures
        r.deep_view() == v.deep_view(),
{
    let mut r: Vec<String> = Vec::new();
    let mut i: usize = 0;
    while i < v.len()
        invariant
            i <= v.len(),
            r.deep_view() == v.deep_view().take(i as int),
        decreases v.len() - i,
    {
        r.push(v[i].clone());
        assert(r.deep_view() =~= v.deep_view().take(i as int).push(v[i as int]@));
        assert(v.deep_view().take(i + 1) =~= v.deep_view().take(i as int).push(v[i as int]@));
        i += 1;
    }
    assert(v.deep_view().take(v.len() as int) =~= v.deep_view());
    r
}

impl Clone for Version {
    fn clone(&self) -> (r: Self)
        ensures
            r.deep_view() == self.deep_view(),
    {
        Version {
            date_created: self.date_created,
            dependencies: clone_strings(&self.dependencies),
            description: self.description.clone(),
            download_url: self.download_url.clone(),
            downloads: self.downloads,
            file_size: self.file_size,
            full_name: self.full_name.clone(),
            icon: self.icon.clone(),
            is_active: self.is_active,
            name: self.name.clone(),
            uuid4: self.uuid4.clone(),
            version_number: self.version_number.clone(),
            website_url: self.website_url.clone(),
        }
    }
}

/// A copy of a list of versions.
pub fn clone_versions(v: &Vec<Version>) -> (r: Vec<Version>)
    ensures
        r.deep_view() == v.deep_view(),
{
    let mut r: Vec<Version> = Vec::new();
    let mut i: usize = 0;
    while i < v.len()
        invariant
            i <= v.len(),
            r.deep_view() == v.deep_view().take(i as int),
        decreases v.len() - i,
    {
        r.push(v[i].clone());
        assert(r.deep_view() =~= v.deep_view().take(i as int).push(v[i as int].deep_view()));
        assert(v.deep_view().take(i + 1) =~= v.deep_view().take(i as int).push(
            v[i as int].deep_view(),
        ));
        i += 1;
    }
    assert(v.deep_view().take(v.len() as int) =~= v.deep_view());
    r
}

impl Clone for Mod {
    fn clone(&self) -> (r: Self)
        ensures
            r.deep_view() == self.deep_view(),
    {
        Mod {
            categories: clone_strings(&self.categories),
            date_created: self.date_created,
            date_updated: self.date_updated,
            full_name: self.full_name.clone(),
            has_nsfw_content: self.has_nsfw_content,
            is_deprecated: self.is_deprecated,
            is_pinned: self.is_pinned,
            name: self.name.clone(),
            owner: self.owner.clone(),
            package_url: self.package_url.clone(),
            rating_score: self.rating_score,
            uuid4: self.uuid4.clone(),
            versions: clone_versions(&self.versions),
        }
    }
}

impl Clone for ModInfo {
    fn clone(&self) -> (r: Self)
        ensures
            r.deep_view() == self.deep_view(),
    {
        ModInfo {
            name: self.name.clone(),
            full_name: self.full_name.clone(),
            description: self.description.clone(),
            author: self.author.clone(),
            version_number: self.version_number.clone(),
            dependencies: clone_strings(&self.dependencies),
            folder: self.folder.clone(),
            icon: match &self.icon {
                Some(s) => Some(s.clone()),
                None => None,
            },
            enabled: self.enabled,
        }
    }
}

/// `name` stands at `i` in `names`, and nowhere before.
pub open spec fn is_first_at(names: Seq<Seq<char>>, i: int, name: Seq<char>) -> bool {
    0 <= i < names.len() && names[i] == name && forall|j: int| 0 <= j < i ==> names[j] != name
}

/// The first place at which `name` stands in `names`.
pub open spec fn position(names: Seq<Seq<char>>, name: Seq<char>) -> Option<int> {
    if exists|i: int| is_first_at(names, i, name) {
        Some(choose|i: int| is_first_at(names, i, name))
    } else {
        None
    }
}

pub proof fn lemma_position(names: Seq<Seq<char>>, i: int, name: Seq<char>)
    requires
        is_first_at(names, i, name),
    ensures
        position(names, name) == Some(i),
{
    let k = choose|k: int| is_first_at(names, k, name);
    assert(!(k < i));
    assert(!(i < k));
}

pub proof fn lemma_position_none(names: Seq<Seq<char>>, name: Seq<char>)
    requires
        forall|j: int| 0 <= j < names.len() ==> names[j] != name,
    ensures
        position(names, name) is None,
{
}

/// What `position` gives is the first place of the name, and where it gives
/// nothing the name stands nowhere.
pub proof fn lemma_position_is_first(names: Seq<Seq<char>>, name: Seq<char>)
    ensures
        match position(names, name) {
            Some(i) => is_first_at(names, i, name),
            None => forall|j: int| 0 <= j < names.len() ==> names[j] != name,
        },
{
    if position(names, name) is None {
        assert forall|j: int| 0 <= j < names.len() implies names[j] != name by {
            if names[j] == name {
                lemma_some_first(names, j, name);
            }
        }
    }
}

/// A name that stands somewhere has a first place.
proof fn lemma_some_first(names: Seq<Seq<char>>, j: int, name: Seq<char>)
    requires
        0 <= j < names.len(),
        names[j] == name,
    ensures
        exists|i: int| is_first_at(names, i, name),
    decreases j,
{
    if forall|k: int| 0 <= k < j ==> names[k] != name {
        assert(is_first_at(names, j, name));
    } else {
        let k = choose|k: int| 0 <= k < j && names[k] == name;
        lemma_some_first(names, k, name);
    }
}

/// The names of the packages, in order.
pub open spec fn mod_names(mods: Seq<ModView>) -> Seq<Seq<char>> {
    Seq::new(mods.len(), |i: int| mods[i].full_name)
}

/// The numbers of the versions, in order.
pub open spec fn version_numbers(versions: Seq<VersionView>) -> Seq<Seq<char>> {
    Seq::new(versions.len(), |i: int| versions[i].version_number)
}

/// The names of the installed mods, in order.
pub open spec fn installed_names(installed: Seq<ModInfoView>) -> Seq<Seq<char>> {
    Seq::new(installed.len(), |i: int| installed[i].full_name)
}

/// Where the catalog holds the version `number` of the package `name`: the
/// place of the first package of that name, and in it the place of the first
/// version of that number.
pub open spec fn catalog_place(mods: Seq<ModView>, name: Seq<char>, number: Seq<char>) -> Option<
    (int, int),
> {
    match position(mod_names(mods), name) {
        Some(a) => match position(version_numbers(mods[a].versions), number) {
            Some(b) => Some((a, b)),
            None => None,
        },
        None => None,
    }
}

/// The version `number` of the package `name`, where the catalog holds it.
pub open spec fn catalog_version(mods: Seq<ModView>, name: Seq<char>, number: Seq<char>) -> Option<
    VersionView,
> {
    match catalog_place(mods, name, number) {
        Some((a, b)) => Some(mods[a].versions[b]),
        None => None,
    }
}

/// The place of the first package named `full_name` in the list.
pub fn find_mod(mods: &Vec<Mod>, full_name: &str) -> (r: Option<usize>)
    ensures
        match r {
            Some(i) => position(mod_names(mods.deep_view()), full_name@) == Some(i as int) && i
                < mods.len(),
            None => position(mod_names(mods.deep_view()), full_name@) is None,
        },
{
    let wanted: String = full_name.to_owned();
    let ghost names = mod_names(mods.deep_view());
    let mut i: usize = 0;
    while i < mods.len()
        invariant
            i <= mods.len(),
            wanted@ == full_name@,
            names == mod_names(mods.deep_view()),
            forall|j: int| 0 <= j < i ==> names[j] != full_name@,
        decreases mods.len() - i,
    {
        if mods[i].full_name == wanted {
            proof {
                assert(names[i as int] == mods[i as int].deep_view().full_name);
                lemma_position(names, i as int, full_name@);
            }
            return Some(i);
        }
        assert(names[i as int] == mods[i as int].deep_view().full_name);
        i += 1;
    }
    proof {
        lemma_position_none(names, full_name@);
    }
    None
}

/// The place of the first version numbered `number` in the list.
pub fn find_version(versions: &Vec<Version>, number: &str) -> (r: Option<usize>)
    ensures
        match r {
            Some(i) => position(version_numbers(versions.deep_view()), number@) == Some(i as int)
                && i < versions.len(),
            None => position(version_numbers(versions.deep_view()), number@) is None,
        },
{
    let wanted: String = number.to_owned();
    let ghost names = version_numbers(versions.deep_view());
    let mut i: usize = 0;
    while i < versions.len()
        invariant
            i <= versions.len(),
            wanted@ == number@,
            names == version_numbers(versions.deep_view()),
            forall|j: int| 0 <= j < i ==> names[j] != number@,
        decreases versions.len() - i,
    {
        if versions[i].version_number == wanted {
            proof {
                assert(names[i as int] == versions[i as int].deep_view().version_number);
                lemma_position(names, i as int, number@);
            }
            return Some(i);
        }
        assert(names[i as int] == versions[i as int].deep_view().version_number);
        i += 1;
    }
    proof {
        lemma_position_none(names, number@);
    }
    None
}

/// The place of the first installed mod named `full_name` in the list.
pub fn find_installed(installed: &Vec<ModInfo>, full_name: &str) -> (r: Option<usize>)
    ensures
        match r {
            Some(i) => position(installed_names(installed.deep_view()), full_name@) == Some(
                i as int,
            ) && i < installed.len(),
            None => position(installed_names(installed.deep_view()), full_name@) is None,
        },
{
    let wanted: String = full_name.to_owned();
    let ghost names = installed_names(installed.deep_view());
    let mut i: usize = 0;
    while i < installed.len()
        invariant
            i <= installed.len(),
            wanted@ == full_name@,
            names == installed_names(installed.deep_view()),
            forall|j: int| 0 <= j < i ==> names[j] != full_name@,
        decreases installed.len() - i,
    {
        if installed[i].full_name == wanted {
            proof {
                assert(names[i as int] == installed[i as int].deep_view().full_name);
                lemma_position(names, i as int, full_name@);
            }
            return Some(i);
        }
        assert(names[i as int] == installed[i as int].deep_view().full_name);
        i += 1;
    }
    proof {
        lemma_position_none(names, full_name@);
    }
    None
}

/// The package named `full_name`, where the catalog holds one.
pub fn get_mod(package: &Package, full_name: &str) -> (r: Option<Mod>)
    ensures
        match r {
            Some(m) => position(mod_names(package.mods.deep_view()), full_name@) matches Some(i)
                && m.deep_view() == package.mods.deep_view()[i],
            None => position(mod_names(package.mods.deep_view()), full_name@) is None,
        },
{
    match find_mod(&package.mods, full_name) {
        Some(i) => Some(package.mods[i].clone()),
        None => None,
    }
}

/// The version that the reference `version_name` names, where the catalog
/// holds the package and, in it, the version.
pub fn get_mod_version(package: &Package, version_name: &str) -> (r: Option<Version>)
    ensures
        match r {
            Some(v) => catalog_version(
                package.mods.deep_view(),
                parsed_reference(version_name@).0,
                parsed_reference(version_name@).1,
            ) == Some(v.deep_view()),
            None => catalog_version(
                package.mods.deep_view(),
                parsed_reference(version_name@).0,
                parsed_reference(version_name@).1,
            ) is None,
        },
{
    let (full_name, version_number) = parse_mod_version(version_name);
    fetch_version(&package.mods, full_name.as_str(), version_number.as_str())
}

/// The version `number` of the package `name`, where the list of packages
/// holds it.
pub fn fetch_version(mods: &Vec<Mod>, name: &str, number: &str) -> (r: Option<Version>)
    ensures
        match r {
            Some(v) => catalog_version(mods.deep_view(), name@, number@) == Some(v.deep_view()),
            None => catalog_version(mods.deep_view(), name@, number@) is None,
        },
{
    match find_mod(mods, name) {
        Some(a) => match find_version(&mods[a].versions, number) {
            Some(b) => Some(mods[a].versions[b].clone()),
            None => None,
        },
        None => None,
    }
}

/// A reference `full_name-version_number` split at its last `-` into the
/// package's name and the version's number. Without a `-` the whole reference
/// is the number and the name is empty.
pub open spec fn parsed_reference(reference: Seq<char>) -> (Seq<char>, Seq<char>) {
    match last_index(reference, '-') {
        Some(i) => (reference.take(i), reference.skip(i + 1)),
        None => (Seq::empty(), reference),
    }
}

pub(crate) fn parse_reference_chars(reference: &Vec<char>) -> (r: (Vec<char>, Vec<char>))
    ensures
        (r.0@, r.1@) == parsed_reference(reference@),
{
    match rfind_char(reference, '-') {
        Some(i) => {
            let n = reference.len();
            (slice(reference, 0, i), slice(reference, i + 1, n))
        },
        None => {
            let n = reference.len();
            let whole = slice(reference, 0, n);
            assert(whole@ =~= reference@);
            (Vec::new(), whole)
        },
    }
}

/// Splits a reference `full_name-version_number` at its last `-`.
pub fn parse_mod_version(version_name: &str) -> (r: (String, String))
    ensures
        (r.0@, r.1@) == parsed_reference(version_name@),
{
    let chars = to_chars(version_name);
    let (name, number) = parse_reference_chars(&chars);
    (from_chars(&name), from_chars(&number))
}

/// A reference made of a name and a number without `-` is split into the
/// two again.
pub proof fn lemma_reference_round_trip(name: Seq<char>, number: Seq<char>)
    requires
        !number.contains('-'),
    ensures
        parsed_reference(name + seq!['-'] + number) == (name, number),
{
    let r = name + seq!['-'] + number;
    let i = name.len() as int;
    assert(r[i] == '-');
    assert forall|j: int| i < j < r.len() implies r[j] != '-' by {
        assert(r[j] == number[j - i - 1]);
        assert(number.contains(number[j - i - 1]));
    }
    assert(is_last_index(r, i, '-'));
    crate::text::lemma_last_index(r, i, '-');
    assert(r.take(i) =~= name);
    assert(r.skip(i + 1) =~= number);
}

} // verus!
