//! Search in the catalog: filter, sort, one page of twenty.
//!
//! A package is a hit where it is not the loader's own package, has a
//! version, meets what the search asks of its type and categories, and its
//! text matches the query: directly, as a case-insensitive regular
//! expression, or nearly, by one of its ASCII words being at least four
//! fifths similar to the query. The hits keep the catalog's order unless a
//! sort key is given; the sort is stable.

use crate::catalog::{clone_strings, Mod, ModView, Package, SearchResults, Timestamp, Types};
use crate::errors::ErrorKind;
use crate::matching::{
    compile, compiled_pattern, is_match, regex_is_match, regex_valid, sift4, sift4_distance,
};
use crate::text::{
    chars_eq, chars_less, from_chars, lemma_lex_asymmetric, lemma_lex_total, lemma_lex_transitive,
    lex_less, slice, to_chars,
};
use std::sync::atomic::{AtomicBool, AtomicUsize};
use vstd::prelude::*;
use vstd::string::StringExecFns;

verus! {

/// The number of packages on a page.
pub const PAGE_SIZE: usize = 20;

/// By what the hits are put in order.
#[derive(Clone, Copy, Debug, PartialEq, Eq, Structural)]
pub enum SortKey {
    /// The catalog's order.
    Unsorted,
    /// The highest rating first.
    Rating,
    /// The latest update first.
    Updated,
    /// The latest creation first.
    Created,
    /// The most downloads of the latest version first.
    Downloads,
    /// By name, ascending.
    Name,
}

/// The sort key that a word names; any other word leaves the hits unsorted.
pub open spec fn sort_key_of(word: Seq<char>) -> SortKey {
    if word == "rating"@ {
        SortKey::Rating
    } else if word == "updated"@ {
        SortKey::Updated
    } else if word == "created"@ {
        SortKey::Created
    } else if word == "downloads"@ {
        SortKey::Downloads
    } else if word == "name"@ {
        SortKey::Name
    } else {
        SortKey::Unsorted
    }
}

/// What a search asks for.
pub struct Query {
    /// The text searched for.
    pub text: Seq<char>,
    /// What is asked of the package's type.
    pub types: Types,
    /// The categories of which a package must have one, if there are any.
    pub categories: Seq<Seq<char>>,
}

/// The pattern under which a query's text is searched for.
pub open spec fn pattern_of(text: Seq<char>) -> Seq<char> {
    "(?i)"@ + text
}

/// Whether a package of these categories meets what is asked of its type.
/// A type that is required lets the package in, a type that is excluded
/// keeps it out, and where nothing is required a package is in unless the
/// search excludes both types.
pub open spec fn type_matches(types: Types, categories: Seq<Seq<char>>) -> bool {
    let is_mod = categories.contains("Mods"@);
    let is_modpack = categories.contains("Modpacks"@);
    let open = (types.mods == 0 && (types.modpacks == 0 || types.modpacks == -1)) || (types.mods
        == -1 && types.modpacks == 0);
    let required = (types.mods == 1 && is_mod) || (types.modpacks == 1 && is_modpack);
    let excluded = (types.mods == -1 && is_mod) || (types.modpacks == -1 && is_modpack);
    (open || required) && !excluded
}

/// Whether a package of these categories has one of the wanted ones; every
/// package has where none is wanted.
pub open spec fn category_matches(wanted: Seq<Seq<char>>, categories: Seq<Seq<char>>) -> bool {
    wanted.len() == 0 || exists|i: int|
        0 <= i < categories.len() && wanted.contains(#[trigger] categories[i])
}

/// The text of a package that a query is matched against: its full name, its
/// name and the description of its latest version.
pub open spec fn content_of(m: ModView) -> Seq<char> {
    m.full_name + " "@ + m.name + " "@ + m.versions[0].description
}

/// The character is white space.
pub open spec fn is_space(c: char) -> bool {
    let n = c as u32;
    (0x09 <= n && n <= 0x0d) || n == 0x20 || n == 0x85 || n == 0xa0 || n == 0x1680 || (0x2000 <= n
        && n <= 0x200a) || n == 0x2028 || n == 0x2029 || n == 0x202f || n == 0x205f || n == 0x3000
}

/// A word of `s` stands from `i` up to `j`: a longest run of characters that
/// are not white space.
pub open spec fn is_word_at(s: Seq<char>, i: int, j: int) -> bool {
    &&& 0 <= i < j <= s.len()
    &&& forall|k: int| i <= k < j ==> !is_space(#[trigger] s[k])
    &&& (i == 0 || is_space(s[i - 1]))
    &&& (j == s.len() || is_space(s[j]))
}

/// All characters of the word are ASCII.
pub open spec fn is_ascii_word(w: Seq<char>) -> bool {
    forall|k: int| 0 <= k < w.len() ==> (#[trigger] w[k] as u32) < 128
}

/// The word is at least four fifths similar to the query: their distance is
/// at most a fifth of the length of the longer one.
pub open spec fn is_similar(query: Seq<char>, word: Seq<char>) -> bool {
    let longer = if query.len() >= word.len() {
        query.len()
    } else {
        word.len()
    };
    sift4_distance(query, word) <= longer / 5
}

/// One of the ASCII words of `content` is similar to the query.
pub open spec fn nearly_matches(query: Seq<char>, content: Seq<char>) -> bool {
    exists|i: int, j: int| #[trigger]
        is_word_at(content, i, j) && is_ascii_word(content.subrange(i, j)) && is_similar(
            query,
            content.subrange(i, j),
        )
}

/// The text matches the query, directly or nearly.
pub open spec fn text_matches(query: Seq<char>, content: Seq<char>) -> bool {
    regex_is_match(pattern_of(query), content) || nearly_matches(query, content)
}

/// The package is a hit of the search.
pub open spec fn is_hit(m: ModView, q: Query) -> bool {
    &&& m.full_name != "BepInEx-BepInExPack"@
    &&& m.versions.len() > 0
    &&& type_matches(q.types, m.categories)
    &&& category_matches(q.categories, m.categories)
    &&& text_matches(q.text, content_of(m))
}

/// The places of the hits among the first `n` packages, ascending.
pub open spec fn hits_below(mods: Seq<ModView>, q: Query, n: int) -> Seq<int>
    decreases n,
{
    if n <= 0 {
        Seq::empty()
    } else {
        let before = hits_below(mods, q, n - 1);
        if is_hit(mods[n - 1], q) {
            before.push(n - 1)
        } else {
            before
        }
    }
}

/// The places of all hits, ascending.
pub open spec fn hits(mods: Seq<ModView>, q: Query) -> Seq<int> {
    hits_below(mods, q, mods.len() as int)
}

/// `a` is later than `b`.
pub open spec fn later(a: Timestamp, b: Timestamp) -> bool {
    a.secs > b.secs || (a.secs == b.secs && a.nanos > b.nanos)
}

/// Under the key, `a` has to stand before `b`.
pub open spec fn precedes(a: ModView, b: ModView, key: SortKey) -> bool {
    match key {
        SortKey::Unsorted => false,
        SortKey::Rating => a.rating_score > b.rating_score,
        SortKey::Updated => later(a.date_updated, b.date_updated),
        SortKey::Created => later(a.date_created, b.date_created),
        SortKey::Downloads => a.versions[0].downloads > b.versions[0].downloads,
        SortKey::Name => lex_less(a.name, b.name),
    }
}

/// Where the package at place `x` goes into the ordered places `sorted`:
/// before the first one that it has to stand before, and behind all others.
pub open spec fn insertion_point(sorted: Seq<int>, x: int, mods: Seq<ModView>, key: SortKey) -> int
    decreases sorted.len(),
{
    if sorted.len() == 0 {
        0
    } else {
        let p = insertion_point(sorted.drop_last(), x, mods, key);
        if p < sorted.len() - 1 {
            p
        } else if precedes(mods[x], mods[sorted.last()], key) {
            p
        } else {
            sorted.len() as int
        }
    }
}

/// The places put in order under the key, one after the other: places whose
/// packages are equal under the key keep the order they came in.
pub open spec fn ordered(places: Seq<int>, mods: Seq<ModView>, key: SortKey) -> Seq<int>
    decreases places.len(),
{
    if places.len() == 0 {
        Seq::empty()
    } else {
        let before = ordered(places.drop_last(), mods, key);
        before.insert(insertion_point(before, places.last(), mods, key), places.last())
    }
}

/// Page `page` of the places: twenty from place `20 * page` on, or as many
/// as are left.
pub open spec fn page_of(places: Seq<int>, page: int) -> Seq<int> {
    let from = if 20 * page < places.len() {
        20 * page
    } else {
        places.len() as int
    };
    let to = if from + 20 < places.len() {
        from + 20
    } else {
        places.len() as int
    };
    places.subrange(from, to)
}

/// The number of full pages that `total` hits fill, as far as 32 bits hold
/// it.
pub open spec fn pages_of(total: int) -> int {
    if total / 20 > u32::MAX {
        u32::MAX as int
    } else {
        total / 20
    }
}

/// The packages at the given places.
pub open spec fn mods_at(mods: Seq<ModView>, places: Seq<int>) -> Seq<ModView> {
    Seq::new(places.len(), |i: int| mods[places[i]])
}

/// The places of the packages on the page that a search gives.
pub open spec fn found_page(mods: Seq<ModView>, q: Query, key: SortKey, page: int) -> Seq<int> {
    page_of(ordered(hits(mods, q), mods, key), page)
}

/// No package has to stand before a package that has to stand before it.
pub proof fn lemma_precedes_asymmetric(a: ModView, b: ModView, key: SortKey)
    requires
        precedes(a, b, key),
    ensures
        !precedes(b, a, key),
{
    if key == SortKey::Name {
        lemma_lex_asymmetric(a.name, b.name);
    }
}

/// Having to stand before is transitive.
pub proof fn lemma_precedes_transitive(a: ModView, b: ModView, c: ModView, key: SortKey)
    requires
        precedes(a, b, key),
        precedes(b, c, key),
    ensures
        precedes(a, c, key),
{
    if key == SortKey::Name {
        lemma_lex_transitive(a.name, b.name, c.name);
    }
}

/// Where `a` need not stand before `b`, nor `b` before `c`, `a` need not
/// stand before `c`.
pub proof fn lemma_precedes_negatively_transitive(
    a: ModView,
    b: ModView,
    c: ModView,
    key: SortKey,
)
    requires
        !precedes(a, b, key),
        !precedes(b, c, key),
    ensures
        !precedes(a, c, key),
{
    if key == SortKey::Name && lex_less(a.name, c.name) {
        lemma_lex_total(a.name, b.name);
        lemma_lex_total(b.name, c.name);
        if b.name == a.name {
        } else if c.name == b.name {
        } else {
            lemma_lex_transitive(c.name, b.name, a.name);
            lemma_lex_asymmetric(c.name, a.name);
        }
    }
}

/// The insertion point lies behind every package that the new one need not
/// stand before, and at the first that it has to stand before.
pub proof fn lemma_insertion_point(sorted: Seq<int>, x: int, mods: Seq<ModView>, key: SortKey)
    ensures
        0 <= insertion_point(sorted, x, mods, key) <= sorted.len(),
        forall|i: int|
            0 <= i < insertion_point(sorted, x, mods, key) ==> !precedes(
                mods[x],
                mods[#[trigger] sorted[i]],
                key,
            ),
        insertion_point(sorted, x, mods, key) < sorted.len() ==> precedes(
            mods[x],
            mods[sorted[insertion_point(sorted, x, mods, key)]],
            key,
        ),
    decreases sorted.len(),
{
    if sorted.len() > 0 {
        lemma_insertion_point(sorted.drop_last(), x, mods, key);
        let p = insertion_point(sorted.drop_last(), x, mods, key);
        assert forall|i: int| 0 <= i < insertion_point(sorted, x, mods, key) implies !precedes(
            mods[x],
            mods[#[trigger] sorted[i]],
            key,
        ) by {
            if i < sorted.len() - 1 {
                assert(sorted.drop_last()[i] == sorted[i]);
            }
        }
        if p < sorted.len() - 1 {
            assert(sorted.drop_last()[p] == sorted[p]);
        }
    }
}

/// No package stands behind one that it has to stand before.
pub open spec fn in_order(places: Seq<int>, mods: Seq<ModView>, key: SortKey) -> bool {
    forall|i: int, j: int|
        0 <= i < j < places.len() ==> !precedes(
            mods[#[trigger] places[j]],
            mods[#[trigger] places[i]],
            key,
        )
}

/// A package that stands before one of a lower place has to stand before
/// it: packages that are equal under the key keep the order of their places.
pub open spec fn ties_keep_places(places: Seq<int>, mods: Seq<ModView>, key: SortKey) -> bool {
    forall|i: int, j: int|
        0 <= i < j < places.len() && places[i] > places[j] ==> precedes(
            mods[#[trigger] places[i]],
            mods[#[trigger] places[j]],
            key,
        )
}

/// Each place is lower than the next.
pub open spec fn ascending(places: Seq<int>) -> bool {
    forall|i: int, j: int| 0 <= i < j < places.len() ==> places[i] < places[j]
}

/// Ordering puts the places in order under the key.
pub proof fn lemma_ordered_in_order(places: Seq<int>, mods: Seq<ModView>, key: SortKey)
    ensures
        in_order(ordered(places, mods, key), mods, key),
        ordered(places, mods, key).len() == places.len(),
    decreases places.len(),
{
    if places.len() > 0 {
        lemma_ordered_in_order(places.drop_last(), mods, key);
        let before = ordered(places.drop_last(), mods, key);
        let x = places.last();
        let p = insertion_point(before, x, mods, key);
        lemma_insertion_point(before, x, mods, key);
        let after = before.insert(p, x);
        assert forall|i: int, j: int| 0 <= i < j < after.len() implies !precedes(
            mods[#[trigger] after[j]],
            mods[#[trigger] after[i]],
            key,
        ) by {
            if j == p {
                assert(after[i] == before[i]);
            } else if i == p {
                assert(after[j] == before[j - 1]);
                if precedes(mods[before[j - 1]], mods[x], key) {
                    lemma_precedes_transitive(mods[before[j - 1]], mods[x], mods[before[p]], key);
                    if j - 1 == p {
                        lemma_precedes_asymmetric(mods[x], mods[before[p]], key);
                    }
                }
            } else if j < p {
                assert(after[i] == before[i] && after[j] == before[j]);
            } else if i < p {
                assert(after[i] == before[i] && after[j] == before[j - 1]);
            } else {
                assert(after[i] == before[i - 1] && after[j] == before[j - 1]);
            }
        }
    }
}

/// Ordering keeps every place, as often as it was given.
pub proof fn lemma_ordered_same_places(places: Seq<int>, mods: Seq<ModView>, key: SortKey)
    ensures
        ordered(places, mods, key).to_multiset() == places.to_multiset(),
    decreases places.len(),
{
    if places.len() > 0 {
        lemma_ordered_same_places(places.drop_last(), mods, key);
        lemma_ordered_in_order(places.drop_last(), mods, key);
        let before = ordered(places.drop_last(), mods, key);
        let x = places.last();
        let p = insertion_point(before, x, mods, key);
        lemma_insertion_point(before, x, mods, key);
        let shorter = places.drop_last();
        vstd::seq_lib::to_multiset_insert(before, p, x);
        vstd::seq_lib::to_multiset_build(shorter, x);
        assert(shorter.push(x) =~= places);
        assert(before.insert(p, x).to_multiset() == before.to_multiset().insert(x));
        assert(shorter.push(x).to_multiset() == shorter.to_multiset().insert(x));
        assert(ordered(places, mods, key) == before.insert(p, x));
    } else {
        assert(places =~= Seq::<int>::empty());
    }
}

/// Ordering ascending places is stable: among packages that are equal
/// under the key the lower place comes first.
pub proof fn lemma_ordered_is_stable(places: Seq<int>, mods: Seq<ModView>, key: SortKey)
    requires
        ascending(places),
    ensures
        ties_keep_places(ordered(places, mods, key), mods, key),
        forall|i: int|
            0 <= i < places.len() ==> places.contains(#[trigger] ordered(places, mods, key)[i]),
    decreases places.len(),
{
    lemma_ordered_in_order(places, mods, key);
    if places.len() > 0 {
        let shorter = places.drop_last();
        lemma_ordered_is_stable(shorter, mods, key);
        lemma_ordered_in_order(shorter, mods, key);
        let before = ordered(shorter, mods, key);
        let x = places.last();
        let p = insertion_point(before, x, mods, key);
        lemma_insertion_point(before, x, mods, key);
        let after = before.insert(p, x);
        assert forall|t: int| 0 <= t < before.len() implies (#[trigger] before[t]) < x by {
            assert(shorter.contains(before[t]));
            let w = choose|w: int| 0 <= w < shorter.len() && shorter[w] == before[t];
            assert(places[w] == shorter[w]);
        }
        assert forall|i: int| 0 <= i < places.len() implies places.contains(
            #[trigger] after[i],
        ) by {
            if i == p {
                assert(places[places.len() - 1] == x);
            } else {
                let t = if i < p {
                    i
                } else {
                    i - 1
                };
                assert(after[i] == before[t]);
                assert(shorter.contains(before[t]));
                let w = choose|w: int| 0 <= w < shorter.len() && shorter[w] == before[t];
                assert(places[w] == before[t]);
            }
        }
        assert forall|i: int, j: int|
            0 <= i < j < after.len() && after[i] > after[j] implies precedes(
            mods[#[trigger] after[i]],
            mods[#[trigger] after[j]],
            key,
        ) by {
            if j == p {
                assert(after[i] == before[i]);
            } else if i == p {
                assert(after[j] == before[j - 1]);
                if j - 1 > p && !precedes(mods[x], mods[before[j - 1]], key) {
                    lemma_precedes_negatively_transitive(
                        mods[x],
                        mods[before[j - 1]],
                        mods[before[p]],
                        key,
                    );
                }
            } else if j < p {
                assert(after[i] == before[i] && after[j] == before[j]);
            } else if i < p {
                assert(after[i] == before[i] && after[j] == before[j - 1]);
            } else {
                assert(after[i] == before[i - 1] && after[j] == before[j - 1]);
            }
        }
    }
}

/// The places of the hits are ascending, and each is a place of the catalog.
pub proof fn lemma_hits_ascending(mods: Seq<ModView>, q: Query, n: int)
    requires
        0 <= n <= mods.len(),
    ensures
        ascending(hits_below(mods, q, n)),
        forall|k: int|
            0 <= k < hits_below(mods, q, n).len() ==> 0 <= (#[trigger] hits_below(mods, q, n)[k])
                < n,
    decreases n,
{
    if n > 0 {
        lemma_hits_ascending(mods, q, n - 1);
        let before = hits_below(mods, q, n - 1);
        let here = hits_below(mods, q, n);
        assert forall|k: int| 0 <= k < here.len() implies 0 <= (#[trigger] here[k]) < n by {
            if k < before.len() {
                assert(here[k] == before[k]);
            }
        }
        assert forall|i: int, j: int| 0 <= i < j < here.len() implies here[i] < here[j] by {
            assert(here[i] == before[i]);
            if j < before.len() {
                assert(here[j] == before[j]);
            }
        }
    }
}

/// What a search finds is in order under its key, holds every hit once, and
/// keeps the catalog's order among hits that are equal under the key.
pub proof fn lemma_search_order(mods: Seq<ModView>, q: Query, key: SortKey)
    ensures
        in_order(ordered(hits(mods, q), mods, key), mods, key),
        ordered(hits(mods, q), mods, key).to_multiset() == hits(mods, q).to_multiset(),
        ties_keep_places(ordered(hits(mods, q), mods, key), mods, key),
{
    lemma_hits_ascending(mods, q, mods.len() as int);
    lemma_ordered_in_order(hits(mods, q), mods, key);
    lemma_ordered_same_places(hits(mods, q), mods, key);
    lemma_ordered_is_stable(hits(mods, q), mods, key);
}

/// The signals by which a newer search supersedes one that is still
/// scanning the catalog: how many searches are under way, and whether the
/// one that scans has been told to end.
pub struct SearchControl {
    running: AtomicUsize,
    interrupt: AtomicBool,
}

impl SearchControl {
    /// No search is under way, none is told to end.
    pub fn new() -> Self {
        SearchControl { running: AtomicUsize::new(0), interrupt: AtomicBool::new(false) }
    }

    /// Tells the search that is scanning the catalog, or the next one that
    /// does, to end before its next package.
    pub fn interrupt(&self) {
        self.interrupt.store(true, std::sync::atomic::Ordering::SeqCst);
    }

    /// Announces a search: where another one is under way, it is told to
    /// end.
    fn enter(&self) {
        let others = self.running.fetch_add(1, std::sync::atomic::Ordering::SeqCst);
        if others > 0 {
            self.interrupt.store(true, std::sync::atomic::Ordering::SeqCst);
        }
    }

    /// Says that the search is over, however it ended.
    fn leave(&self) {
        self.running.fetch_sub(1, std::sync::atomic::Ordering::SeqCst);
    }

    /// Whether the search that asks was told to end; the signal is taken
    /// off.
    fn superseded(&self) -> bool {
        self.interrupt.swap(false, std::sync::atomic::Ordering::SeqCst)
    }
}

/// The sort key that a word names.
pub fn parse_sort_key(word: &str) -> (r: SortKey)
    ensures
        r == sort_key_of(word@),
{
    let w = to_chars(word);
    if chars_eq(&w, &to_chars("rating")) {
        SortKey::Rating
    } else if chars_eq(&w, &to_chars("updated")) {
        SortKey::Updated
    } else if chars_eq(&w, &to_chars("created")) {
        SortKey::Created
    } else if chars_eq(&w, &to_chars("downloads")) {
        SortKey::Downloads
    } else if chars_eq(&w, &to_chars("name")) {
        SortKey::Name
    } else {
        SortKey::Unsorted
    }
}

/// Whether the list holds the label.
fn has_label(labels: &Vec<String>, label: &String) -> (r: bool)
    ensures
        r == labels.deep_view().contains(label@),
{
    let mut i: usize = 0;
    while i < labels.len()
        invariant
            i <= labels.len(),
            forall|j: int| 0 <= j < i ==> labels.deep_view()[j] != label@,
        decreases labels.len() - i,
    {
        if labels[i] == *label {
            assert(labels.deep_view()[i as int] == label@);
            return true;
        }
        assert(labels.deep_view()[i as int] == labels[i as int]@);
        i += 1;
    }
    false
}

fn check_type(types: Types, categories: &Vec<String>) -> (r: bool)
    ensures
        r == type_matches(types, categories.deep_view()),
{
    let mods_label: String = "Mods".to_owned();
    let modpacks_label: String = "Modpacks".to_owned();
    let is_mod = has_label(categories, &mods_label);
    let is_modpack = has_label(categories, &modpacks_label);
    let open = (types.mods == 0 && (types.modpacks == 0 || types.modpacks == -1)) || (types.mods
        == -1 && types.modpacks == 0);
    let required = (types.mods == 1 && is_mod) || (types.modpacks == 1 && is_modpack);
    let excluded = (types.mods == -1 && is_mod) || (types.modpacks == -1 && is_modpack);
    (open || required) && !excluded
}

fn check_category(wanted: &Vec<String>, categories: &Vec<String>) -> (r: bool)
    ensures
        r == category_matches(wanted.deep_view(), categories.deep_view()),
{
    if wanted.len() == 0 {
        return true;
    }
    let mut i: usize = 0;
    while i < categories.len()
        invariant
            i <= categories.len(),
            wanted.len() > 0,
            forall|j: int|
                0 <= j < i ==> !wanted.deep_view().contains(#[trigger] categories.deep_view()[j]),
        decreases categories.len() - i,
    {
        assert(categories.deep_view()[i as int] == categories[i as int]@);
        if has_label(wanted, &categories[i]) {
            return true;
        }
        i += 1;
    }
    false
}

/// Whether the character is white space.
fn is_space_char(c: char) -> (r: bool)
    ensures
        r == is_space(c),
{
    let n = c as u32;
    (0x09 <= n && n <= 0x0d) || n == 0x20 || n == 0x85 || n == 0xa0 || n == 0x1680 || (0x2000 <= n
        && n <= 0x200a) || n == 0x2028 || n == 0x2029 || n == 0x202f || n == 0x205f || n == 0x3000
}

fn is_ascii_chars(w: &Vec<char>) -> (r: bool)
    ensures
        r == is_ascii_word(w@),
{
    let mut i: usize = 0;
    while i < w.len()
        invariant
            i <= w.len(),
            forall|k: int| 0 <= k < i ==> (#[trigger] w@[k] as u32) < 128,
        decreases w.len() - i,
    {
        if w[i] as u32 >= 128 {
            return false;
        }
        i += 1;
    }
    true
}

fn check_similar(query: &str, query_len: usize, word: &Vec<char>) -> (r: bool)
    requires
        query_len == query@.len(),
    ensures
        r == is_similar(query@, word@),
{
    let text = from_chars(word);
    let d = sift4(query, text.as_str());
    let longer = if query_len >= word.len() {
        query_len
    } else {
        word.len()
    };
    d <= longer / 5
}

fn check_nearly(query: &str, query_len: usize, content: &Vec<char>) -> (r: bool)
    requires
        query_len == query@.len(),
    ensures
        r == nearly_matches(query@, content@),
{
    let n = content.len();
    let mut k: usize = 0;
    while k < n
        invariant
            k <= n,
            n == content.len(),
            query_len == query@.len(),
            k == 0 || k == n || is_space(content@[k - 1]) || is_space(content@[k as int]),
            forall|i: int, j: int|
                #[trigger] is_word_at(content@, i, j) && j <= k ==> !(is_ascii_word(
                    content@.subrange(i, j),
                ) && is_similar(query@, content@.subrange(i, j))),
        decreases n - k,
    {
        if is_space_char(content[k]) {
            proof {
                assert forall|i: int, j: int| #[trigger]
                    is_word_at(content@, i, j) && j <= k + 1 implies !(is_ascii_word(
                    content@.subrange(i, j),
                ) && is_similar(query@, content@.subrange(i, j))) by {
                    if j == k + 1 {
                        assert(!is_space(content@[j - 1]));
                    }
                }
            }
            k += 1;
        } else {
            let start = k;
            let mut end = k + 1;
            while end < n && !is_space_char(content[end])
                invariant
                    start < end <= n,
                    n == content.len(),
                    forall|t: int| start <= t < end ==> !is_space(#[trigger] content@[t]),
                decreases n - end,
            {
                end += 1;
            }
            proof {
                assert(is_word_at(content@, start as int, end as int));
            }
            let word = slice(content, start, end);
            if is_ascii_chars(&word) && check_similar(query, query_len, &word) {
                return true;
            }
            proof {
                assert forall|i: int, j: int| #[trigger]
                    is_word_at(content@, i, j) && j <= end implies !(is_ascii_word(
                    content@.subrange(i, j),
                ) && is_similar(query@, content@.subrange(i, j))) by {
                    if j > start {
                        // a word that ends behind `start` is the word just looked at
                        if j < end {
                            assert(!is_space(content@[j]));
                        }
                        if i < start {
                            assert(!is_space(content@[start - 1]));
                        }
                        if i > start {
                            assert(!is_space(content@[i - 1]));
                        }
                    }
                }
            }
            k = end;
        }
    }
    false
}

/// The text of a package that a query is matched against.
fn content_text(m: &Mod) -> (r: String)
    requires
        m.versions.len() > 0,
    ensures
        r@ == content_of(m.deep_view()),
{
    let mut s = m.full_name.clone();
    s.append(" ");
    s.append(m.name.as_str());
    s.append(" ");
    s.append(m.versions[0].description.as_str());
    assert(m.deep_view().versions[0] == m.versions[0].deep_view());
    s
}

/// What a search brings along through the scan of the catalog.
struct Scan<'a> {
    re: regex::Regex,
    query: &'a str,
    query_len: usize,
    types: Types,
    categories: &'a Vec<String>,
}

impl<'a> Scan<'a> {
    spec fn wf(&self) -> bool {
        &&& compiled_pattern(self.re) == pattern_of(self.query@)
        &&& self.query_len == self.query@.len()
    }

    spec fn query(&self) -> Query {
        Query { text: self.query@, types: self.types, categories: self.categories.deep_view() }
    }

    /// Whether the package is a hit.
    fn check(&self, m: &Mod) -> (r: bool)
        requires
            self.wf(),
        ensures
            r == is_hit(m.deep_view(), self.query()),
    {
        let loader: String = "BepInEx-BepInExPack".to_owned();
        if m.full_name == loader || m.versions.len() == 0 {
            return false;
        }
        if !check_type(self.types, &m.categories) {
            return false;
        }
        if !check_category(self.categories, &m.categories) {
            return false;
        }
        let content = content_text(m);
        if is_match(&self.re, content.as_str()) {
            return true;
        }
        let chars = to_chars(content.as_str());
        check_nearly(self.query, self.query_len, &chars)
    }
}

/// What a scan does once it has looked for the signal, before a package:
/// it ends with `Cancelled` where the signal was there, and goes on where
/// it was not.
pub fn after_poll(superseded: bool) -> (r: Result<(), ErrorKind>)
    ensures
        r == (if superseded {
            Err::<(), ErrorKind>(ErrorKind::Cancelled)
        } else {
            Ok::<(), ErrorKind>(())
        }),
{
    if superseded {
        Err(ErrorKind::Cancelled)
    } else {
        Ok(())
    }
}

/// Scans the catalog for hits. With a control at hand the scan looks for the
/// signal before every package, and ends as `after_poll` says. A catalog
/// without packages is scanned without a look at the signal.
fn scan_hits(control: Option<&SearchControl>, mods: &Vec<Mod>, scan: &Scan) -> (r: Result<
    Vec<usize>,
    ErrorKind,
>)
    requires
        scan.wf(),
    ensures
        match r {
            Ok(found) => found@.map_values(|i: usize| i as int) == hits(
                mods.deep_view(),
                scan.query(),
            ) && forall|k: int| 0 <= k < found.len() ==> (#[trigger] found[k]) < mods.len(),
            Err(e) => e == ErrorKind::Cancelled && control is Some,
        },
        mods.len() == 0 ==> r is Ok,
        control is None ==> r is Ok,
{
    let mut found: Vec<usize> = Vec::new();
    let mut i: usize = 0;
    while i < mods.len()
        invariant
            i <= mods.len(),
            scan.wf(),
            found@.map_values(|i: usize| i as int) == hits_below(
                mods.deep_view(),
                scan.query(),
                i as int,
            ),
            forall|k: int| 0 <= k < found.len() ==> (#[trigger] found[k]) < mods.len(),
        decreases mods.len() - i,
    {
        match control {
            Some(c) => {
                match after_poll(c.superseded()) {
                    Ok(()) => {},
                    Err(e) => {
                        return Err(e);
                    },
                }
            },
            None => {},
        }
        let ghost before = found@.map_values(|i: usize| i as int);
        assert(mods.deep_view()[i as int] == mods[i as int].deep_view());
        if scan.check(&mods[i]) {
            found.push(i);
            assert(found@.map_values(|i: usize| i as int) =~= before.push(i as int));
        }
        i += 1;
    }
    Ok(found)
}

/// Whether `a` is later than `b`.
fn is_later(a: &Timestamp, b: &Timestamp) -> (r: bool)
    ensures
        r == later(*a, *b),
{
    a.secs > b.secs || (a.secs == b.secs && a.nanos > b.nanos)
}

/// The names of the packages as characters, for a search that sorts by
/// name; no names for any other key.
fn names_for(mods: &Vec<Mod>, key: SortKey) -> (names: Vec<Vec<char>>)
    ensures
        has_names(names@, mods.deep_view(), key),
{
    let mut names: Vec<Vec<char>> = Vec::new();
    if key == SortKey::Name {
        let mut i: usize = 0;
        while i < mods.len()
            invariant
                i <= mods.len(),
                names.len() == i,
                forall|k: int| 0 <= k < i ==> (#[trigger] names[k])@ == mods[k].name@,
            decreases mods.len() - i,
        {
            names.push(to_chars(mods[i].name.as_str()));
            i += 1;
        }
        proof {
            assert forall|k: int| 0 <= k < mods.len() implies (#[trigger] names@[k])@
                == mods.deep_view()[k].name by {
                assert(mods.deep_view()[k] == mods[k].deep_view());
            }
        }
    }
    names
}

/// Where the key is the name, `names` holds the name of every package.
spec fn has_names(names: Seq<Vec<char>>, mods: Seq<ModView>, key: SortKey) -> bool {
    key == SortKey::Name ==> names.len() == mods.len() && forall|k: int|
        0 <= k < mods.len() ==> (#[trigger] names[k])@ == mods[k].name
}

/// The places are places of packages that have a version.
spec fn are_places(places: Seq<usize>, mods: Seq<ModView>) -> bool {
    forall|k: int|
        0 <= k < places.len() ==> (#[trigger] places[k]) < mods.len()
            && mods[places[k] as int].versions.len() > 0
}

/// Whether the package at place `x` has to stand before the one at place `y`
/// under the key.
fn stands_before(x: usize, y: usize, mods: &Vec<Mod>, names: &Vec<Vec<char>>, key: SortKey) -> (r:
    bool)
    requires
        x < mods.len(),
        y < mods.len(),
        mods[x as int].versions.len() > 0,
        mods[y as int].versions.len() > 0,
        has_names(names@, mods.deep_view(), key),
    ensures
        r == precedes(mods.deep_view()[x as int], mods.deep_view()[y as int], key),
{
    let a = &mods[x];
    let b = &mods[y];
    proof {
        assert(mods.deep_view()[x as int] == a.deep_view());
        assert(mods.deep_view()[y as int] == b.deep_view());
        assert(a.deep_view().versions[0] == a.versions[0].deep_view());
        assert(b.deep_view().versions[0] == b.versions[0].deep_view());
    }
    match key {
        SortKey::Unsorted => false,
        SortKey::Rating => a.rating_score > b.rating_score,
        SortKey::Updated => is_later(&a.date_updated, &b.date_updated),
        SortKey::Created => is_later(&a.date_created, &b.date_created),
        SortKey::Downloads => a.versions[0].downloads > b.versions[0].downloads,
        SortKey::Name => chars_less(&names[x], &names[y]),
    }
}

/// Where the package at place `x` goes into the ordered places: found by
/// halving, which the order of the places allows.
fn find_insertion_point(
    sorted: &Vec<usize>,
    x: usize,
    mods: &Vec<Mod>,
    names: &Vec<Vec<char>>,
    key: SortKey,
) -> (p: usize)
    requires
        x < mods.len(),
        mods[x as int].versions.len() > 0,
        are_places(sorted@, mods.deep_view()),
        has_names(names@, mods.deep_view(), key),
        in_order(sorted@.map_values(|i: usize| i as int), mods.deep_view(), key),
    ensures
        p == insertion_point(
            sorted@.map_values(|i: usize| i as int),
            x as int,
            mods.deep_view(),
            key,
        ),
        p <= sorted.len(),
{
    let ghost places = sorted@.map_values(|i: usize| i as int);
    let ghost catalog = mods.deep_view();
    let mut lo: usize = 0;
    let mut hi: usize = sorted.len();
    while lo < hi
        invariant
            lo <= hi <= sorted.len(),
            x < mods.len(),
            mods[x as int].versions.len() > 0,
            places == sorted@.map_values(|i: usize| i as int),
            catalog == mods.deep_view(),
            are_places(sorted@, catalog),
            has_names(names@, catalog, key),
            in_order(places, catalog, key),
            forall|k: int|
                0 <= k < lo ==> !precedes(catalog[x as int], catalog[#[trigger] places[k]], key),
            hi < sorted.len() ==> precedes(catalog[x as int], catalog[places[hi as int]], key),
        decreases hi - lo,
    {
        let mid = lo + (hi - lo) / 2;
        assert(places[mid as int] == sorted[mid as int] as int);
        if stands_before(x, sorted[mid], mods, names, key) {
            hi = mid;
        } else {
            proof {
                assert forall|k: int| 0 <= k < mid + 1 implies !precedes(
                    catalog[x as int],
                    catalog[#[trigger] places[k]],
                    key,
                ) by {
                    if k < mid {
                        lemma_precedes_negatively_transitive(
                            catalog[x as int],
                            catalog[places[mid as int]],
                            catalog[places[k]],
                            key,
                        );
                    }
                }
            }
            lo = mid + 1;
        }
    }
    proof {
        lemma_insertion_point(places, x as int, catalog, key);
        let p = insertion_point(places, x as int, catalog, key);
        if p < lo {
            assert(precedes(catalog[x as int], catalog[places[p]], key));
        }
    }
    lo
}

/// Puts the places in order under the key.
fn sort_places(places: &Vec<usize>, mods: &Vec<Mod>, key: SortKey) -> (r: Vec<usize>)
    requires
        are_places(places@, mods.deep_view()),
    ensures
        r@.map_values(|i: usize| i as int) == ordered(
            places@.map_values(|i: usize| i as int),
            mods.deep_view(),
            key,
        ),
        r.len() == places.len(),
        forall|k: int| 0 <= k < r.len() ==> (#[trigger] r[k]) < mods.len(),
{
    let names = names_for(mods, key);
    let ghost all = places@.map_values(|i: usize| i as int);
    let ghost catalog = mods.deep_view();
    let mut sorted: Vec<usize> = Vec::new();
    let mut n: usize = 0;
    while n < places.len()
        invariant
            n <= places.len(),
            all == places@.map_values(|i: usize| i as int),
            catalog == mods.deep_view(),
            sorted.len() == n,
            are_places(places@, catalog),
            are_places(sorted@, catalog),
            has_names(names@, catalog, key),
            sorted@.map_values(|i: usize| i as int) == ordered(all.take(n as int), catalog, key),
        decreases places.len() - n,
    {
        let x = places[n];
        let ghost before = sorted@.map_values(|i: usize| i as int);
        proof {
            lemma_ordered_in_order(all.take(n as int), catalog, key);
            assert(catalog[x as int] == mods[x as int].deep_view());
        }
        let p = find_insertion_point(&sorted, x, mods, &names, key);
        let ghost old_sorted = sorted@;
        sorted.insert(p, x);
        proof {
            assert(all.take(n + 1).drop_last() =~= all.take(n as int));
            assert(all.take(n + 1).last() == x as int);
            assert(sorted@.map_values(|i: usize| i as int) =~= before.insert(p as int, x as int));
            assert forall|k: int| 0 <= k < sorted.len() implies (#[trigger] sorted[k])
                < catalog.len() && catalog[sorted[k] as int].versions.len() > 0 by {
                if k < p {
                    assert(sorted[k] == old_sorted[k]);
                } else if k > p {
                    assert(sorted[k] == old_sorted[k - 1]);
                }
            }
        }
        n += 1;
    }
    assert(all.take(places.len() as int) =~= all);
    sorted
}

/// The packages on the page that a search gives, with the number of full
/// pages that the hits fill.
fn build_page(mods: &Vec<Mod>, sorted: &Vec<usize>, page: usize) -> (r: (Vec<Mod>, u32))
    requires
        forall|k: int| 0 <= k < sorted.len() ==> (#[trigger] sorted[k]) < mods.len(),
    ensures
        r.0.deep_view() == mods_at(
            mods.deep_view(),
            page_of(sorted@.map_values(|i: usize| i as int), page as int),
        ),
        r.1 == pages_of(sorted.len() as int),
{
    let total = sorted.len();
    let from = if page <= total / PAGE_SIZE && page * PAGE_SIZE < total {
        page * PAGE_SIZE
    } else {
        total
    };
    let to = if total - from > PAGE_SIZE {
        from + PAGE_SIZE
    } else {
        total
    };
    let ghost places = sorted@.map_values(|i: usize| i as int);
    let ghost wanted = mods_at(mods.deep_view(), page_of(places, page as int));
    proof {
        assert(page_of(places, page as int) == places.subrange(from as int, to as int));
    }
    let mut out: Vec<Mod> = Vec::new();
    let mut i: usize = from;
    while i < to
        invariant
            from <= i <= to <= sorted.len(),
            places == sorted@.map_values(|i: usize| i as int),
            wanted == mods_at(mods.deep_view(), places.subrange(from as int, to as int)),
            forall|k: int| 0 <= k < sorted.len() ==> (#[trigger] sorted[k]) < mods.len(),
            out.deep_view() == wanted.take(i - from),
        decreases to - i,
    {
        let ghost before = out.deep_view();
        out.push(mods[sorted[i]].clone());
        proof {
            let place = sorted[i as int] as int;
            assert(mods.deep_view()[place] == mods[place].deep_view());
            assert(wanted[i - from] == mods.deep_view()[places[i as int]]);
            assert(wanted.take(i - from + 1) =~= wanted.take(i - from).push(wanted[i - from]));
            assert(out.deep_view() =~= before.push(wanted[i - from]));
        }
        i += 1;
    }
    assert(wanted.take(to - from) =~= wanted);
    let full = total / PAGE_SIZE;
    let pages: u32 = if full > u32::MAX as usize {
        u32::MAX
    } else {
        full as u32
    };
    (out, pages)
}

/// Every hit has a version.
proof fn lemma_hits_have_versions(mods: Seq<ModView>, q: Query, n: int)
    requires
        0 <= n <= mods.len(),
    ensures
        forall|k: int|
            0 <= k < hits_below(mods, q, n).len() ==> 0 <= (#[trigger] hits_below(mods, q, n)[k])
                < n && mods[hits_below(mods, q, n)[k]].versions.len() > 0,
    decreases n,
{
    if n > 0 {
        lemma_hits_have_versions(mods, q, n - 1);
        let before = hits_below(mods, q, n - 1);
        let here = hits_below(mods, q, n);
        assert forall|k: int| 0 <= k < here.len() implies 0 <= (#[trigger] here[k]) < n
            && mods[here[k]].versions.len() > 0 by {
            if k < before.len() {
                assert(here[k] == before[k]);
            }
        }
    }
}

fn run_search(
    control: Option<&SearchControl>,
    package: &Package,
    query: &str,
    page: usize,
    sort: &str,
    types: Types,
    categories: &Vec<String>,
) -> (r: Result<SearchResults, ErrorKind>)
    ensures
        match r {
            Ok(res) => {
                &&& regex_valid(pattern_of(query@))
                &&& res.mods.deep_view() == mods_at(
                    package.mods.deep_view(),
                    found_page(
                        package.mods.deep_view(),
                        Query { text: query@, types, categories: categories.deep_view() },
                        sort_key_of(sort@),
                        page as int,
                    ),
                )
                &&& res.pages == pages_of(
                    hits(
                        package.mods.deep_view(),
                        Query { text: query@, types, categories: categories.deep_view() },
                    ).len() as int,
                )
                &&& res.categories.deep_view() == package.categories.deep_view()
            },
            Err(e) => if regex_valid(pattern_of(query@)) {
                e == ErrorKind::Cancelled && control is Some
            } else {
                e == ErrorKind::InvalidInput
            },
        },
        !regex_valid(pattern_of(query@)) ==> r is Err,
        control is None && regex_valid(pattern_of(query@)) ==> r is Ok,
        package.mods.len() == 0 && regex_valid(pattern_of(query@)) ==> r is Ok,
{
    match control {
        Some(c) => c.enter(),
        None => {},
    }
    let pattern = String::from_str("(?i)").concat(query);
    let re = match compile(pattern.as_str()) {
        Ok(re) => re,
        Err(_) => {
            match control {
                Some(c) => c.leave(),
                None => {},
            }
            return Err(ErrorKind::InvalidInput);
        },
    };
    let query_len = to_chars(query).len();
    let scan = Scan { re, query, query_len, types, categories };
    let scanned = scan_hits(control, &package.mods, &scan);
    match control {
        Some(c) => c.leave(),
        None => {},
    }
    let found = match scanned {
        Ok(found) => found,
        Err(e) => {
            return Err(e);
        },
    };
    let key = parse_sort_key(sort);
    proof {
        lemma_hits_have_versions(package.mods.deep_view(), scan.query(), package.mods.len() as int);
        let places = found@.map_values(|i: usize| i as int);
        assert forall|k: int| 0 <= k < found.len() implies (#[trigger] found@[k])
            < package.mods.deep_view().len()
            && package.mods.deep_view()[found@[k] as int].versions.len() > 0 by {
            assert(places[k] == found[k] as int);
        }
    }
    let sorted = sort_places(&found, &package.mods, key);
    let (mods, pages) = build_page(&package.mods, &sorted, page);
    Ok(SearchResults { categories: clone_strings(&package.categories), mods, pages })
}

/// Searches the catalog and gives page `page` of the hits, put in order by
/// the key that `sort` names, with the catalog's category labels and the
/// number of full pages that the hits fill. A query that is no regular
/// expression is refused.
pub fn search_page(
    package: &Package,
    query: &str,
    page: usize,
    sort: &str,
    types: Types,
    categories: &Vec<String>,
) -> (r: Result<SearchResults, ErrorKind>)
    ensures
        match r {
            Ok(res) => {
                &&& regex_valid(pattern_of(query@))
                &&& res.mods.deep_view() == mods_at(
                    package.mods.deep_view(),
                    found_page(
                        package.mods.deep_view(),
                        Query { text: query@, types, categories: categories.deep_view() },
                        sort_key_of(sort@),
                        page as int,
                    ),
                )
                &&& res.pages == pages_of(
                    hits(
                        package.mods.deep_view(),
                        Query { text: query@, types, categories: categories.deep_view() },
                    ).len() as int,
                )
                &&& res.categories.deep_view() == package.categories.deep_view()
            },
            Err(e) => e == ErrorKind::InvalidInput && !regex_valid(pattern_of(query@)),
        },
{
    run_search(None, package, query, page, sort, types, categories)
}

/// Searches the catalog as `search_page` does, as one of the searches that
/// share `control`. A search that starts while another is under way tells
/// the one that scans the catalog to end. The signal is looked for before
/// every package; the search that finds it takes it off and ends as
/// `after_poll` says, with `Cancelled` and no page. Whether that happens lies
/// with the other searches; a search that ran to its end gives what
/// `search_page` gives, and a search in a catalog without packages always
/// runs to its end.
pub fn search(
    control: &SearchControl,
    package: &Package,
    query: &str,
    page: usize,
    sort: &str,
    types: Types,
    categories: &Vec<String>,
) -> (r: Result<SearchResults, ErrorKind>)
    ensures
        match r {
            Ok(res) => {
                &&& regex_valid(pattern_of(query@))
                &&& res.mods.deep_view() == mods_at(
                    package.mods.deep_view(),
                    found_page(
                        package.mods.deep_view(),
                        Query { text: query@, types, categories: categories.deep_view() },
                        sort_key_of(sort@),
                        page as int,
                    ),
                )
                &&& res.pages == pages_of(
                    hits(
                        package.mods.deep_view(),
                        Query { text: query@, types, categories: categories.deep_view() },
                    ).len() as int,
                )
                &&& res.categories.deep_view() == package.categories.deep_view()
            },
            Err(e) => if regex_valid(pattern_of(query@)) {
                e == ErrorKind::Cancelled
            } else {
                e == ErrorKind::InvalidInput
            },
        },
        !regex_valid(pattern_of(query@)) ==> r is Err,
        package.mods.len() == 0 && regex_valid(pattern_of(query@)) ==> r is Ok,
{
    run_search(Some(control), package, query, page, sort, types, categories)
}

} // verus!
