//! Building the index of the catalog from the list of packages that the
//! catalog's source gives.

use crate::catalog::{lemma_position_is_first, mod_names, position, Mod, ModView, Package};
use crate::text::{
    chars_eq, chars_less, from_chars, lemma_lex_total, lemma_lex_transitive, lex_less, to_chars,
};
use vstd::prelude::*;

verus! {

/// The label names a type of package, not a category.
pub open spec fn is_type_label(label: Seq<char>) -> bool {
    label == "Mods"@ || label == "Modpacks"@
}

/// All category labels of the packages, one package after the other.
pub open spec fn labels_of(mods: Seq<ModView>) -> Seq<Seq<char>>
    decreases mods.len(),
{
    if mods.len() == 0 {
        Seq::empty()
    } else {
        labels_of(mods.drop_last()) + mods.last().categories
    }
}

/// Each label comes before the next one.
pub open spec fn strictly_ascending(labels: Seq<Seq<char>>) -> bool {
    forall|i: int, j: int| 0 <= i < j < labels.len() ==> lex_less(labels[i], labels[j])
}

/// The index with the package `m` filed: in the place of the package of the
/// same name, where there is one, else at the end.
pub open spec fn filed(index: Seq<ModView>, m: ModView) -> Seq<ModView> {
    match position(mod_names(index), m.full_name) {
        Some(i) => index.update(i, m),
        None => index.push(m),
    }
}

/// The index with all packages of the list filed, one after the other.
pub open spec fn filed_all(list: Seq<ModView>) -> Seq<ModView>
    decreases list.len(),
{
    if list.len() == 0 {
        Seq::empty()
    } else {
        filed(filed_all(list.drop_last()), list.last())
    }
}

/// The packages that are listed: all but the first entry of what the
/// catalog's source gives, which stands for the loader's own tool.
pub open spec fn listed(all: Seq<ModView>) -> Seq<ModView> {
    if all.len() == 0 {
        all
    } else {
        all.skip(1)
    }
}

/// The names of the packages of an index are all different.
pub open spec fn names_differ(index: Seq<ModView>) -> bool {
    forall|i: int, j: int|
        0 <= i < j < index.len() ==> (#[trigger] index[i]).full_name != (
        #[trigger] index[j]).full_name
}

/// Filing keeps the names of an index different.
pub proof fn lemma_filed_names_differ(index: Seq<ModView>, m: ModView)
    requires
        names_differ(index),
    ensures
        names_differ(filed(index, m)),
{
    let names = mod_names(index);
    lemma_position_is_first(names, m.full_name);
    let after = filed(index, m);
    match position(names, m.full_name) {
        Some(p) => {
            assert forall|i: int, j: int| 0 <= i < j < after.len() implies (
            #[trigger] after[i]).full_name != (#[trigger] after[j]).full_name by {
                assert(names[p] == index[p].full_name);
                assert(after[i].full_name == index[i].full_name);
                assert(after[j].full_name == index[j].full_name);
            }
        },
        None => {
            assert forall|i: int, j: int| 0 <= i < j < after.len() implies (
            #[trigger] after[i]).full_name != (#[trigger] after[j]).full_name by {
                if j == index.len() {
                    assert(names[i] == index[i].full_name);
                }
            }
        },
    }
}

/// In an index built by filing, no two packages have the same name.
pub proof fn lemma_filed_all_names_differ(list: Seq<ModView>)
    ensures
        names_differ(filed_all(list)),
    decreases list.len(),
{
    if list.len() > 0 {
        lemma_filed_all_names_differ(list.drop_last());
        lemma_filed_names_differ(filed_all(list.drop_last()), list.last());
    }
}

/// `have` holds exactly the labels of `seen` that do not name a type.
pub open spec fn holds_categories(have: Seq<Seq<char>>, seen: Seq<Seq<char>>) -> bool {
    forall|l: Seq<char>| #[trigger] have.contains(l) <==> (seen.contains(l) && !is_type_label(l))
}

/// `after` holds what `before` holds, and `label`.
pub open spec fn holds_one_more(
    before: Seq<Seq<char>>,
    after: Seq<Seq<char>>,
    label: Seq<char>,
) -> bool {
    forall|l: Seq<char>| #[trigger] after.contains(l) <==> (before.contains(l) || l == label)
}

proof fn lemma_push_contains(seen: Seq<Seq<char>>, label: Seq<char>)
    ensures
        holds_one_more(seen, seen.push(label), label),
{
    let next = seen.push(label);
    assert forall|l: Seq<char>| #[trigger] next.contains(l) <==> (seen.contains(l) || l
        == label) by {
        if next.contains(l) {
            let t = choose|t: int| 0 <= t < next.len() && next[t] == l;
            if t < seen.len() {
                assert(seen[t] == l);
            }
        }
        if seen.contains(l) {
            let t = choose|t: int| 0 <= t < seen.len() && seen[t] == l;
            assert(next[t] == l);
        }
        if l == label {
            assert(next[seen.len() as int] == l);
        }
    }
}

proof fn lemma_holds_after_type_label(have: Seq<Seq<char>>, seen: Seq<Seq<char>>, label: Seq<char>)
    requires
        holds_categories(have, seen),
        is_type_label(label),
    ensures
        holds_categories(have, seen.push(label)),
{
    lemma_push_contains(seen, label);
    let next = seen.push(label);
    assert forall|l: Seq<char>| #[trigger] have.contains(l) <==> (next.contains(l)
        && !is_type_label(l)) by {
        assert(next.contains(l) <==> (seen.contains(l) || l == label));
    }
}

proof fn lemma_holds_after_label(
    have: Seq<Seq<char>>,
    after: Seq<Seq<char>>,
    seen: Seq<Seq<char>>,
    label: Seq<char>,
)
    requires
        holds_categories(have, seen),
        !is_type_label(label),
        holds_one_more(have, after, label),
    ensures
        holds_categories(after, seen.push(label)),
{
    lemma_push_contains(seen, label);
    let next = seen.push(label);
    assert forall|l: Seq<char>| #[trigger] after.contains(l) <==> (next.contains(l)
        && !is_type_label(l)) by {
        assert(next.contains(l) <==> (seen.contains(l) || l == label));
        assert(after.contains(l) <==> (have.contains(l) || l == label));
    }
}

/// Files a package in the index.
fn file_mod(index: &mut Vec<Mod>, m: Mod)
    ensures
        final(index).deep_view() == filed(old(index).deep_view(), m.deep_view()),
{
    let ghost before = index.deep_view();
    let ghost mv = m.deep_view();
    match crate::catalog::find_mod(index, m.full_name.as_str()) {
        Some(i) => {
            index.set(i, m);
            assert(index.deep_view() =~= before.update(i as int, mv));
        },
        None => {
            index.push(m);
            assert(index.deep_view() =~= before.push(mv));
        },
    }
}

/// Whether the label names a type of package.
fn check_type_label(label: &Vec<char>) -> (r: bool)
    ensures
        r == is_type_label(label@),
{
    chars_eq(label, &to_chars("Mods")) || chars_eq(label, &to_chars("Modpacks"))
}

/// The model of a list of labels held as characters.
pub open spec fn labels_view(labels: Seq<Vec<char>>) -> Seq<Seq<char>> {
    Seq::new(labels.len(), |i: int| labels[i]@)
}

/// Puts the label into the ascending list, unless it is there.
fn add_label(labels: &mut Vec<Vec<char>>, label: Vec<char>)
    requires
        strictly_ascending(labels_view(old(labels)@)),
    ensures
        strictly_ascending(labels_view(final(labels)@)),
        holds_one_more(labels_view(old(labels)@), labels_view(final(labels)@), label@),
{
    let ghost before = labels_view(labels@);
    let mut k: usize = 0;
    let mut here = false;
    while k < labels.len() && !here
        invariant
            k <= labels.len(),
            labels@ == old(labels)@,
            before == labels_view(labels@),
            strictly_ascending(before),
            forall|t: int| 0 <= t < k ==> lex_less(before[t], label@),
            here ==> k < labels.len() && lex_less(label@, before[k as int]),
        decreases labels.len() - k, (if here { 0int } else { 1int }),
    {
        assert(before[k as int] == labels[k as int]@);
        if chars_eq(&labels[k], &label) {
            proof {
                assert forall|l: Seq<char>| #[trigger] before.contains(l) <==> (before.contains(l)
                    || l == label@) by {
                    assert(before.contains(before[k as int]));
                }
            }
            return ;
        }
        if chars_less(&labels[k], &label) {
            k += 1;
        } else {
            proof {
                lemma_lex_total(before[k as int], label@);
            }
            here = true;
        }
    }
    let ghost lv = label@;
    labels.insert(k, label);
    proof {
        let after = labels_view(labels@);
        assert(after =~= before.insert(k as int, lv));
        assert forall|i: int, j: int| 0 <= i < j < after.len() implies lex_less(
            after[i],
            after[j],
        ) by {
            if j == k {
                assert(after[i] == before[i]);
            } else if i == k {
                assert(after[j] == before[j - 1]);
                if j - 1 > k {
                    lemma_lex_transitive(lv, before[k as int], before[j - 1]);
                }
            } else if i < k && j < k {
                assert(after[i] == before[i] && after[j] == before[j]);
            } else if i < k && j > k {
                assert(after[i] == before[i] && after[j] == before[j - 1]);
            } else {
                assert(after[i] == before[i - 1] && after[j] == before[j - 1]);
            }
        }
        assert forall|l: Seq<char>| #[trigger] after.contains(l) <==> (before.contains(l) || l
            == lv) by {
            if after.contains(l) {
                let t = choose|t: int| 0 <= t < after.len() && after[t] == l;
                if t < k {
                    assert(before[t] == l);
                } else if t > k {
                    assert(before[t - 1] == l);
                }
            }
            if before.contains(l) {
                let t = choose|t: int| 0 <= t < before.len() && before[t] == l;
                if t < k {
                    assert(after[t] == l);
                } else {
                    assert(after[t + 1] == l);
                }
            }
            if l == lv {
                assert(after[k as int] == l);
            }
        }
    }
}

/// Builds the index of the catalog from the list that the catalog's source
/// gives. The first entry of the list is left out. The packages are filed in
/// the order of the list, a later package of the same name taking the place
/// of the earlier one, and the category labels of all of them, without the
/// two labels that name a type, are put in ascending order, each once.
pub fn load_package(mods_v: Vec<Mod>) -> (package: Package)
    ensures
        package.mods.deep_view() == filed_all(listed(mods_v.deep_view())),
        strictly_ascending(package.categories.deep_view()),
        holds_categories(package.categories.deep_view(), labels_of(listed(mods_v.deep_view()))),
{
    let ghost all = mods_v.deep_view();
    let ghost items = mods_v@;
    let ghost list = listed(all);
    let mut labels: Vec<Vec<char>> = Vec::new();
    let mut index: Vec<Mod> = Vec::new();
    let ghost first: int = if all.len() == 0 {
        0
    } else {
        1
    };
    proof {
        assert(list.take(0) =~= Seq::<ModView>::empty());
        assert(index.deep_view() =~= Seq::<ModView>::empty());
        assert(labels_view(labels@) =~= Seq::<Seq<char>>::empty());
        assert(labels_of(list.take(0)) =~= Seq::<Seq<char>>::empty());
        assert forall|k: int| 0 <= k < all.len() implies all[k] == (
        #[trigger] items[k]).deep_view() by {}
    }
    let mut at_first = true;
    for m in it: mods_v
        invariant
            it.seq() == items,
            at_first == (it.index() == 0),
            items.len() == all.len(),
            forall|k: int| 0 <= k < all.len() ==> all[k] == (#[trigger] items[k]).deep_view(),
            list == listed(all),
            first == (if all.len() == 0 {
                0int
            } else {
                1int
            }),
            it.index() == 0 ==> index.deep_view() == filed_all(list.take(0)) && holds_categories(
                labels_view(labels@),
                labels_of(list.take(0)),
            ),
            it.index() > 0 ==> index.deep_view() == filed_all(list.take(it.index() - first))
                && holds_categories(
                labels_view(labels@),
                labels_of(list.take(it.index() - first)),
            ),
            strictly_ascending(labels_view(labels@)),
    {
        let ghost i = it.index();
        if !at_first {
            proof {
                assert(m.deep_view() == all[i]);
                assert(list[i - first] == all[i]);
                assert(list.take(i - first + 1).drop_last() =~= list.take(i - first));
                assert(list.take(i - first + 1).last() == m.deep_view());
            }
            let ghost so_far = labels_of(list.take(i - first));
            let ghost mut seen = so_far;
            let mut j: usize = 0;
            while j < m.categories.len()
                invariant
                    j <= m.categories.len(),
                    strictly_ascending(labels_view(labels@)),
                    seen == so_far + m.deep_view().categories.take(j as int),
                    holds_categories(labels_view(labels@), seen),
                decreases m.categories.len() - j,
            {
                let label = to_chars(m.categories[j].as_str());
                let ghost have = labels_view(labels@);
                proof {
                    assert(label@ == m.deep_view().categories[j as int]);
                    assert(so_far + m.deep_view().categories.take(j + 1) =~= seen.push(label@));
                }
                if !check_type_label(&label) {
                    let ghost lv = label@;
                    add_label(&mut labels, label);
                    proof {
                        lemma_holds_after_label(have, labels_view(labels@), seen, lv);
                        seen = seen.push(lv);
                    }
                } else {
                    proof {
                        lemma_holds_after_type_label(have, seen, label@);
                        seen = seen.push(label@);
                    }
                }
                j += 1;
            }
            proof {
                assert(m.deep_view().categories.take(m.categories.len() as int)
                    =~= m.deep_view().categories);
                assert(seen == labels_of(list.take(i - first + 1)));
            }
            file_mod(&mut index, m);
        }
        at_first = false;
    }
    proof {
        assert(list.take(all.len() - first) =~= list);
    }
    let mut categories: Vec<String> = Vec::new();
    let mut k: usize = 0;
    while k < labels.len()
        invariant
            k <= labels.len(),
            categories.deep_view() == labels_view(labels@).take(k as int),
        decreases labels.len() - k,
    {
        let ghost before = categories.deep_view();
        categories.push(from_chars(&labels[k]));
        proof {
            let lv = labels_view(labels@);
            assert(lv.take(k + 1) =~= lv.take(k as int).push(lv[k as int]));
            assert(categories.deep_view() =~= before.push(lv[k as int]));
        }
        k += 1;
    }
    proof {
        assert(labels_view(labels@).take(labels.len() as int) =~= labels_view(labels@));
    }
    Package { categories, mods: index }
}

} // verus!
