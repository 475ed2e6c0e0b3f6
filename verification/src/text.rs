//! Character-level string utilities.
//!
//! Strings are modelled as `Seq<char>`. The executable functions work on
//! `Vec<char>` so that indexing is constant time; `to_chars` and `from_chars`
//! convert at the boundary.

use vstd::prelude::*;

verus! {

/// `pat` occurs in `s` at offset `i`.
pub open spec fn occurs_at(s: Seq<char>, i: int, pat: Seq<char>) -> bool {
    0 <= i && i + pat.len() <= s.len() && s.subrange(i, i + pat.len()) == pat
}

/// `i` is the offset of the first occurrence of `pat` in `s`.
pub open spec fn is_first_occurrence(s: Seq<char>, i: int, pat: Seq<char>) -> bool {
    occurs_at(s, i, pat) && forall|j: int| 0 <= j < i ==> !occurs_at(s, j, pat)
}

/// The offset of the first occurrence of `pat` in `s`, if there is one.
pub open spec fn first_occurrence(s: Seq<char>, pat: Seq<char>) -> Option<int> {
    if exists|i: int| is_first_occurrence(s, i, pat) {
        Some(choose|i: int| is_first_occurrence(s, i, pat))
    } else {
        None
    }
}

/// `pat` occurs somewhere in `s`.
pub open spec fn contains_seq(s: Seq<char>, pat: Seq<char>) -> bool {
    exists|i: int| occurs_at(s, i, pat)
}

/// `i` is the index of the first `c` in `s`.
pub open spec fn is_first_index(s: Seq<char>, i: int, c: char) -> bool {
    0 <= i < s.len() && s[i] == c && forall|j: int| 0 <= j < i ==> s[j] != c
}

/// The index of the first `c` in `s`, if there is one.
pub open spec fn first_index(s: Seq<char>, c: char) -> Option<int> {
    if exists|i: int| is_first_index(s, i, c) {
        Some(choose|i: int| is_first_index(s, i, c))
    } else {
        None
    }
}

/// `i` is the index of the last `c` in `s`.
pub open spec fn is_last_index(s: Seq<char>, i: int, c: char) -> bool {
    0 <= i < s.len() && s[i] == c && forall|j: int| i < j < s.len() ==> s[j] != c
}

/// The index of the last `c` in `s`, if there is one.
pub open spec fn last_index(s: Seq<char>, c: char) -> Option<int> {
    if exists|i: int| is_last_index(s, i, c) {
        Some(choose|i: int| is_last_index(s, i, c))
    } else {
        None
    }
}

/// The lower-case form of an ASCII letter; any other character is unchanged.
pub open spec fn ascii_lower(c: char) -> char {
    if 'A' <= c && c <= 'Z' {
        ((c as u32 + 32) as u8) as char
    } else {
        c
    }
}

/// `s` with every ASCII upper-case letter replaced by its lower-case form.
pub open spec fn lower(s: Seq<char>) -> Seq<char> {
    Seq::new(s.len(), |i: int| ascii_lower(s[i]))
}

/// `a` and `b` are equal up to the case of ASCII letters.
pub open spec fn eq_ignore_case(a: Seq<char>, b: Seq<char>) -> bool {
    lower(a) == lower(b)
}

/// `a` and `b` agree on their first `k` characters, and at `k` either `a`
/// ends while `b` goes on, or `a` holds the smaller character.
pub open spec fn less_at(a: Seq<char>, b: Seq<char>, k: int) -> bool {
    &&& 0 <= k <= a.len()
    &&& k <= b.len()
    &&& a.take(k) == b.take(k)
    &&& (k == a.len() && k < b.len() || k < a.len() && k < b.len() && a[k] < b[k])
}

/// `a` comes strictly before `b` in the lexicographic order of characters.
pub open spec fn lex_less(a: Seq<char>, b: Seq<char>) -> bool {
    exists|k: int| less_at(a, b, k)
}

pub proof fn lemma_first_occurrence(s: Seq<char>, i: int, pat: Seq<char>)
    requires
        is_first_occurrence(s, i, pat),
    ensures
        first_occurrence(s, pat) == Some(i),
{
    let k = choose|k: int| is_first_occurrence(s, k, pat);
    assert(!(k < i));
    assert(!(i < k));
}

pub proof fn lemma_no_occurrence(s: Seq<char>, pat: Seq<char>)
    requires
        forall|j: int| !occurs_at(s, j, pat),
    ensures
        first_occurrence(s, pat) is None,
        !contains_seq(s, pat),
{
}

pub proof fn lemma_first_index(s: Seq<char>, i: int, c: char)
    requires
        is_first_index(s, i, c),
    ensures
        first_index(s, c) == Some(i),
{
    let k = choose|k: int| is_first_index(s, k, c);
    assert(!(k < i));
    assert(!(i < k));
}

pub proof fn lemma_first_index_none(s: Seq<char>, c: char)
    requires
        !s.contains(c),
    ensures
        first_index(s, c) is None,
{
    if exists|i: int| is_first_index(s, i, c) {
        let k = choose|k: int| is_first_index(s, k, c);
        assert(s.contains(s[k]));
    }
}

pub proof fn lemma_last_index(s: Seq<char>, i: int, c: char)
    requires
        is_last_index(s, i, c),
    ensures
        last_index(s, c) == Some(i),
{
    let k = choose|k: int| is_last_index(s, k, c);
    assert(!(k < i));
    assert(!(i < k));
}

pub proof fn lemma_last_index_none(s: Seq<char>, c: char)
    requires
        !s.contains(c),
    ensures
        last_index(s, c) is None,
{
    if exists|i: int| is_last_index(s, i, c) {
        let k = choose|k: int| is_last_index(s, k, c);
        assert(s.contains(s[k]));
    }
}

/// Appends one character to a `String` with std's `String::push`: the new
/// contents are the old ones followed by `c`.
#[verifier::external_body]
fn push_char(s: &mut String, c: char)
    ensures
        final(s)@ == old(s)@.push(c),
{
    s.push(c);
}

/// The characters of a string slice.
pub fn to_chars(s: &str) -> (v: Vec<char>)
    ensures
        v@ == s@,
{
    let mut v: Vec<char> = Vec::new();
    for c in it: s.chars()
        invariant
            v@ == it.seq().take(it.index()),
            it.seq() == s@,
    {
        v.push(c);
    }
    v
}

/// The string made of the given characters.
pub fn from_chars(v: &Vec<char>) -> (s: String)
    ensures
        s@ == v@,
{
    let mut s = String::new();
    let mut i: usize = 0;
    while i < v.len()
        invariant
            i <= v.len(),
            s@ == v@.take(i as int),
        decreases v.len() - i,
    {
        push_char(&mut s, v[i]);
        i += 1;
    }
    s
}

/// Whether `pat` occurs in `s` at offset `i`.
pub fn matches_at(s: &Vec<char>, i: usize, pat: &Vec<char>) -> (b: bool)
    ensures
        b == occurs_at(s@, i as int, pat@),
{
    if pat.len() > s.len() || i > s.len() - pat.len() {
        return false;
    }
    let mut k: usize = 0;
    while k < pat.len()
        invariant
            k <= pat.len(),
            i + pat.len() <= s.len(),
            forall|j: int| 0 <= j < k ==> s@[i + j] == pat@[j],
        decreases pat.len() - k,
    {
        if s[i + k] != pat[k] {
            assert(s@.subrange(i as int, i + pat.len())[k as int] == s@[i + k]);
            return false;
        }
        k += 1;
    }
    assert(s@.subrange(i as int, i + pat.len()) =~= pat@);
    true
}

/// Whether `s` begins with `pat`.
pub fn starts_with(s: &Vec<char>, pat: &Vec<char>) -> (b: bool)
    ensures
        b == pat@.is_prefix_of(s@),
{
    matches_at(s, 0, pat)
}

/// Whether `s` ends with `pat`.
pub fn ends_with(s: &Vec<char>, pat: &Vec<char>) -> (b: bool)
    ensures
        b == pat@.is_suffix_of(s@),
{
    if pat.len() > s.len() {
        return false;
    }
    matches_at(s, s.len() - pat.len(), pat)
}

/// The offset of the first occurrence of `pat` in `s`.
pub fn find(s: &Vec<char>, pat: &Vec<char>) -> (r: Option<usize>)
    ensures
        r matches Some(i) ==> first_occurrence(s@, pat@) == Some(i as int),
        r is None ==> first_occurrence(s@, pat@) is None,
        r is Some == contains_seq(s@, pat@),
{
    let mut i: usize = 0;
    while i < s.len()
        invariant
            i <= s.len(),
            forall|j: int| 0 <= j < i ==> !occurs_at(s@, j, pat@),
        decreases s.len() - i,
    {
        if matches_at(s, i, pat) {
            proof {
                lemma_first_occurrence(s@, i as int, pat@);
            }
            return Some(i);
        }
        i += 1;
    }
    if matches_at(s, i, pat) {
        proof {
            lemma_first_occurrence(s@, i as int, pat@);
        }
        return Some(i);
    }
    proof {
        lemma_no_occurrence(s@, pat@);
    }
    None
}

/// The index of the first `c` in `s`.
pub fn find_char(s: &Vec<char>, c: char) -> (r: Option<usize>)
    ensures
        r matches Some(i) ==> first_index(s@, c) == Some(i as int) && is_first_index(
            s@,
            i as int,
            c,
        ),
        r is None ==> first_index(s@, c) is None && !s@.contains(c),
{
    let mut i: usize = 0;
    while i < s.len()
        invariant
            i <= s.len(),
            forall|j: int| 0 <= j < i ==> s@[j] != c,
        decreases s.len() - i,
    {
        if s[i] == c {
            proof {
                lemma_first_index(s@, i as int, c);
            }
            return Some(i);
        }
        i += 1;
    }
    proof {
        lemma_first_index_none(s@, c);
    }
    None
}

/// The index of the last `c` in `s`.
pub fn rfind_char(s: &Vec<char>, c: char) -> (r: Option<usize>)
    ensures
        r matches Some(i) ==> last_index(s@, c) == Some(i as int) && is_last_index(
            s@,
            i as int,
            c,
        ),
        r is None ==> last_index(s@, c) is None && !s@.contains(c),
{
    let mut i: usize = s.len();
    while i > 0
        invariant
            i <= s.len(),
            forall|j: int| i <= j < s.len() ==> s@[j] != c,
        decreases i,
    {
        i -= 1;
        if s[i] == c {
            proof {
                lemma_last_index(s@, i as int, c);
            }
            return Some(i);
        }
    }
    proof {
        lemma_last_index_none(s@, c);
    }
    None
}

/// The characters of `s` from `from` up to, not including, `to`.
pub fn slice(s: &Vec<char>, from: usize, to: usize) -> (r: Vec<char>)
    requires
        from <= to <= s.len(),
    ensures
        r@ == s@.subrange(from as int, to as int),
{
    let mut r: Vec<char> = Vec::new();
    let mut i: usize = from;
    while i < to
        invariant
            from <= i <= to,
            to <= s.len(),
            r@ == s@.subrange(from as int, i as int),
        decreases to - i,
    {
        r.push(s[i]);
        i += 1;
    }
    r
}

/// A copy of `s`.
pub fn copy_chars(s: &Vec<char>) -> (r: Vec<char>)
    ensures
        r@ == s@,
{
    let r = slice(s, 0, s.len());
    assert(s@.subrange(0, s@.len() as int) =~= s@);
    r
}

/// Appends the characters of `src` to `dst`.
pub fn push_all(dst: &mut Vec<char>, src: &Vec<char>)
    ensures
        final(dst)@ == old(dst)@ + src@,
{
    let mut i: usize = 0;
    while i < src.len()
        invariant
            i <= src.len(),
            dst@ == old(dst)@ + src@.take(i as int),
        decreases src.len() - i,
    {
        dst.push(src[i]);
        i += 1;
    }
}

/// Appends the characters of the string slice `src` to `dst`.
pub fn push_str(dst: &mut Vec<char>, src: &str)
    ensures
        final(dst)@ == old(dst)@ + src@,
{
    let chars = to_chars(src);
    push_all(dst, &chars);
}

/// The lower-case form of an ASCII letter; any other character is unchanged.
pub fn lower_char(c: char) -> (r: char)
    ensures
        r == ascii_lower(c),
{
    if c >= 'A' && c <= 'Z' {
        ((c as u32 + 32) as u8) as char
    } else {
        c
    }
}

/// `s` with every ASCII upper-case letter replaced by its lower-case form.
pub fn to_lower(s: &Vec<char>) -> (r: Vec<char>)
    ensures
        r@ == lower(s@),
{
    let mut r: Vec<char> = Vec::new();
    let mut i: usize = 0;
    while i < s.len()
        invariant
            i <= s.len(),
            r@ == lower(s@).take(i as int),
        decreases s.len() - i,
    {
        r.push(lower_char(s[i]));
        i += 1;
    }
    r
}

/// Whether `a` and `b` hold the same characters.
pub fn chars_eq(a: &Vec<char>, b: &Vec<char>) -> (r: bool)
    ensures
        r == (a@ == b@),
{
    if a.len() != b.len() {
        return false;
    }
    let r = matches_at(a, 0, b);
    proof {
        if r {
            assert(a@.subrange(0, a@.len() as int) =~= a@);
        }
        if a@ == b@ {
            assert(a@.subrange(0, b@.len() as int) =~= a@);
        }
    }
    r
}

/// Whether `a` and `b` are equal up to the case of ASCII letters.
pub fn chars_eq_ignore_case(a: &Vec<char>, b: &Vec<char>) -> (r: bool)
    ensures
        r == eq_ignore_case(a@, b@),
{
    let la = to_lower(a);
    let lb = to_lower(b);
    chars_eq(&la, &lb)
}

/// Whether `a` comes strictly before `b` in the lexicographic order of
/// characters.
pub fn chars_less(a: &Vec<char>, b: &Vec<char>) -> (r: bool)
    ensures
        r == lex_less(a@, b@),
{
    let mut k: usize = 0;
    while k < a.len() && k < b.len()
        invariant
            k <= a.len(),
            k <= b.len(),
            a@.take(k as int) == b@.take(k as int),
        decreases a.len() - k,
    {
        if a[k] != b[k] {
            let r = a[k] < b[k];
            proof {
                lemma_lex_less_at(a@, b@, k as int);
            }
            return r;
        }
        assert(a@.take(k + 1) =~= a@.take(k as int).push(a@[k as int]));
        assert(b@.take(k + 1) =~= b@.take(k as int).push(b@[k as int]));
        k += 1;
    }
    proof {
        lemma_lex_less_at(a@, b@, k as int);
    }
    k < b.len()
}

/// With the first difference between `a` and `b` at `k` (or the end of one
/// of them there), the order of the two is decided at `k`.
pub proof fn lemma_lex_less_at(a: Seq<char>, b: Seq<char>, k: int)
    requires
        0 <= k <= a.len(),
        k <= b.len(),
        a.take(k) == b.take(k),
        k == a.len() || k == b.len() || a[k] != b[k],
    ensures
        lex_less(a, b) == (k == a.len() && k < b.len() || k < a.len() && k < b.len() && a[k]
            < b[k]),
{
    if lex_less(a, b) {
        let m = choose|m: int| less_at(a, b, m);
        assert(less_at(a, b, m));
        if m < k {
            assert(a.take(k)[m] == a[m]);
            assert(b.take(k)[m] == b[m]);
            assert(false);
        }
        if k < m {
            assert(a.take(m)[k] == a[k]);
            assert(b.take(m)[k] == b[k]);
            assert(false);
        }
        assert(m == k);
    } else {
        assert(!less_at(a, b, k));
    }
}

/// Two strings that agree on their first `k` characters are equal, or one of
/// them comes before the other.
proof fn lemma_lex_from(a: Seq<char>, b: Seq<char>, k: int)
    requires
        0 <= k <= a.len(),
        k <= b.len(),
        a.take(k) == b.take(k),
    ensures
        a == b || lex_less(a, b) || lex_less(b, a),
    decreases a.len() - k,
{
    if k == a.len() {
        if k == b.len() {
            assert(a.take(k) =~= a);
            assert(b.take(k) =~= b);
        } else {
            assert(less_at(a, b, k));
        }
    } else if k == b.len() {
        assert(less_at(b, a, k));
    } else if a[k] < b[k] {
        assert(less_at(a, b, k));
    } else if b[k] < a[k] {
        assert(less_at(b, a, k));
    } else {
        assert(a.take(k + 1) =~= a.take(k).push(a[k]));
        assert(b.take(k + 1) =~= b.take(k).push(b[k]));
        lemma_lex_from(a, b, k + 1);
    }
}

/// Of two different strings one comes before the other.
pub proof fn lemma_lex_total(a: Seq<char>, b: Seq<char>)
    ensures
        a == b || lex_less(a, b) || lex_less(b, a),
{
    assert(a.take(0) =~= b.take(0));
    lemma_lex_from(a, b, 0);
}

/// No string comes before itself, and of two strings at most one comes
/// before the other.
pub proof fn lemma_lex_asymmetric(a: Seq<char>, b: Seq<char>)
    requires
        lex_less(a, b),
    ensures
        !lex_less(b, a),
        a != b,
{
    let k = choose|k: int| less_at(a, b, k);
    if lex_less(b, a) {
        let m = choose|m: int| less_at(b, a, m);
        if m < k {
            assert(a.take(k)[m] == a[m]);
            assert(b.take(k)[m] == b[m]);
        } else if k < m {
            assert(a.take(m)[k] == a[k]);
            assert(b.take(m)[k] == b[k]);
        }
    }
}

/// Coming before is transitive.
pub proof fn lemma_lex_transitive(a: Seq<char>, b: Seq<char>, c: Seq<char>)
    requires
        lex_less(a, b),
        lex_less(b, c),
    ensures
        lex_less(a, c),
{
    let k = choose|k: int| less_at(a, b, k);
    let m = choose|m: int| less_at(b, c, m);
    let n = if k <= m {
        k
    } else {
        m
    };
    assert(a.take(n) =~= c.take(n)) by {
        assert forall|t: int| 0 <= t < n implies a[t] == c[t] by {
            assert(a.take(k)[t] == a[t]);
            assert(b.take(k)[t] == b[t]);
            assert(b.take(m)[t] == b[t]);
            assert(c.take(m)[t] == c[t]);
        }
    }
    if k < m {
        assert(b.take(m)[k] == b[k]);
        assert(c.take(m)[k] == c[k]);
    } else if m < k {
        assert(a.take(k)[m] == a[m]);
        assert(b.take(k)[m] == b[m]);
    }
    assert(less_at(a, c, n));
}

/// `s` split at its first `c`: what stands before it and what stands after.
pub open spec fn split_once(s: Seq<char>, c: char) -> Option<(Seq<char>, Seq<char>)> {
    match first_index(s, c) {
        Some(i) => Some((s.take(i), s.skip(i + 1))),
        None => None,
    }
}

/// Splits `s` at its first `c`.
pub fn split_once_chars(s: &Vec<char>, c: char) -> (r: Option<(Vec<char>, Vec<char>)>)
    ensures
        match r {
            Some((a, b)) => split_once(s@, c) == Some((a@, b@)),
            None => split_once(s@, c) is None,
        },
{
    match find_char(s, c) {
        Some(i) => {
            let n = s.len();
            let a = slice(s, 0, i);
            let b = slice(s, i + 1, n);
            Some((a, b))
        },
        None => None,
    }
}

/// A character that stands somewhere has a last place.
proof fn lemma_some_last(s: Seq<char>, j: int, c: char)
    requires
        0 <= j < s.len(),
        s[j] == c,
    ensures
        exists|i: int| is_last_index(s, i, c),
    decreases s.len() - j,
{
    if forall|k: int| j < k < s.len() ==> s[k] != c {
        assert(is_last_index(s, j, c));
    } else {
        let k = choose|k: int| j < k < s.len() && s[k] == c;
        lemma_some_last(s, k, c);
    }
}

/// What `last_index` gives is the last place of the character, and where it
/// gives nothing the character stands nowhere.
pub proof fn lemma_last_index_is_last(s: Seq<char>, c: char)
    ensures
        match last_index(s, c) {
            Some(i) => is_last_index(s, i, c),
            None => !s.contains(c),
        },
{
    if last_index(s, c) is None && s.contains(c) {
        let j = choose|j: int| 0 <= j < s.len() && s[j] == c;
        lemma_some_last(s, j, c);
    }
}

/// A character that stands somewhere has a first place.
proof fn lemma_some_first_index(s: Seq<char>, j: int, c: char)
    requires
        0 <= j < s.len(),
        s[j] == c,
    ensures
        exists|i: int| is_first_index(s, i, c),
    decreases j,
{
    if forall|k: int| 0 <= k < j ==> s[k] != c {
        assert(is_first_index(s, j, c));
    } else {
        let k = choose|k: int| 0 <= k < j && s[k] == c;
        lemma_some_first_index(s, k, c);
    }
}

/// What `first_index` gives is the first place of the character, and where
/// it gives nothing the character stands nowhere.
pub proof fn lemma_first_index_is_first(s: Seq<char>, c: char)
    ensures
        match first_index(s, c) {
            Some(i) => is_first_index(s, i, c),
            None => !s.contains(c),
        },
{
    if first_index(s, c) is None && s.contains(c) {
        let j = choose|j: int| 0 <= j < s.len() && s[j] == c;
        lemma_some_first_index(s, j, c);
    }
}

} // verus!
