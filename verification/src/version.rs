//! Version strings and their order.
//!
//! A version is written as three numbers with dots between them,
//! `major.minor.patch`. Versions are ordered by the weight
//! `100 * major + 10 * minor + patch`, so `1.0.10` and `1.1.0` weigh the same.

use crate::errors::ErrorKind;
use crate::text::{split_once, split_once_chars, to_chars};
use std::cmp::Ordering;
use vstd::prelude::*;

verus! {

/// The character is a decimal digit.
pub open spec fn is_digit(c: char) -> bool {
    '0' <= c && c <= '9'
}

/// The value of a decimal digit.
pub open spec fn digit_value(c: char) -> int {
    c as int - '0' as int
}

/// The number that a string of decimal digits denotes.
pub open spec fn number_value(s: Seq<char>) -> int
    decreases s.len(),
{
    if s.len() == 0 {
        0
    } else {
        10 * number_value(s.drop_last()) + digit_value(s.last())
    }
}

/// The string is one component of a version: one or more decimal digits that
/// denote a number of at most 32 bits.
pub open spec fn is_component(s: Seq<char>) -> bool {
    &&& s.len() > 0
    &&& forall|i: int| 0 <= i < s.len() ==> is_digit(#[trigger] s[i])
    &&& number_value(s) <= u32::MAX
}

/// The three numbers of a version string, where it is well formed.
pub open spec fn version_parts(s: Seq<char>) -> Option<(int, int, int)> {
    match split_once(s, '.') {
        Some((major, rest)) => match split_once(rest, '.') {
            Some((minor, patch)) => if is_component(major) && is_component(minor)
                && is_component(patch) {
                Some((number_value(major), number_value(minor), number_value(patch)))
            } else {
                None
            },
            None => None,
        },
        None => None,
    }
}

/// The weight by which a version is ordered, where its string is well
/// formed.
pub open spec fn version_weight(s: Seq<char>) -> Option<int> {
    match version_parts(s) {
        Some((major, minor, patch)) => Some(100 * major + 10 * minor + patch),
        None => None,
    }
}

/// The order of two weights.
pub open spec fn weight_order(a: int, b: int) -> Ordering {
    if a < b {
        Ordering::Less
    } else if a == b {
        Ordering::Equal
    } else {
        Ordering::Greater
    }
}

/// The order of two version strings, where both are well formed.
pub open spec fn version_order(a: Seq<char>, b: Seq<char>) -> Option<Ordering> {
    match (version_weight(a), version_weight(b)) {
        (Some(x), Some(y)) => Some(weight_order(x, y)),
        _ => None,
    }
}

/// The number of a prefix of digits stays below that of the whole.
proof fn lemma_number_value_prefix(s: Seq<char>, k: int)
    requires
        0 <= k <= s.len(),
        forall|i: int| 0 <= i < s.len() ==> is_digit(#[trigger] s[i]),
    ensures
        0 <= number_value(s.take(k)) <= number_value(s),
    decreases s.len() - k,
{
    lemma_number_value_nonnegative(s.take(k));
    if k < s.len() {
        lemma_number_value_prefix(s, k + 1);
        assert(s.take(k + 1).drop_last() =~= s.take(k));
        assert(is_digit(s[k]));
        assert(s.take(k + 1).last() == s[k]);
    } else {
        assert(s.take(k) =~= s);
    }
}

proof fn lemma_number_value_nonnegative(s: Seq<char>)
    requires
        forall|i: int| 0 <= i < s.len() ==> is_digit(#[trigger] s[i]),
    ensures
        0 <= number_value(s),
    decreases s.len(),
{
    if s.len() > 0 {
        lemma_number_value_nonnegative(s.drop_last());
        assert(is_digit(s[s.len() - 1]));
    }
}

/// No version weighs less than nothing.
pub proof fn lemma_weight_nonnegative(s: Seq<char>)
    ensures
        version_weight(s) matches Some(w) ==> w >= 0,
{
    match split_once(s, '.') {
        Some((major, rest)) => match split_once(rest, '.') {
            Some((minor, patch)) => {
                if is_component(major) && is_component(minor) && is_component(patch) {
                    lemma_number_value_nonnegative(major);
                    lemma_number_value_nonnegative(minor);
                    lemma_number_value_nonnegative(patch);
                }
            },
            None => {},
        },
        None => {},
    }
}

/// Reads one component of a version.
fn parse_component(s: &Vec<char>) -> (r: Option<u32>)
    ensures
        match r {
            Some(n) => is_component(s@) && number_value(s@) == n,
            None => !is_component(s@),
        },
{
    if s.len() == 0 {
        return None;
    }
    let mut n: u64 = 0;
    let mut i: usize = 0;
    while i < s.len()
        invariant
            i <= s.len(),
            forall|j: int| 0 <= j < i ==> is_digit(#[trigger] s@[j]),
            n == number_value(s@.take(i as int)),
            n <= u32::MAX,
        decreases s.len() - i,
    {
        let c = s[i];
        if c < '0' || c > '9' {
            return None;
        }
        let d: u64 = (c as u32 - '0' as u32) as u64;
        proof {
            assert(s@.take(i + 1).drop_last() =~= s@.take(i as int));
            assert(s@.take(i + 1).last() == c);
        }
        n = n * 10 + d;
        if n > u32::MAX as u64 {
            proof {
                if forall|j: int| 0 <= j < s.len() ==> is_digit(#[trigger] s@[j]) {
                    lemma_number_value_prefix(s@, i + 1);
                }
            }
            return None;
        }
        i += 1;
    }
    assert(s@.take(s.len() as int) =~= s@);
    Some(n as u32)
}

/// The weight `100 * major + 10 * minor + patch` of a version string. A
/// string that is not three dot-separated numbers is refused.
pub fn get_absolute_version(version_number: &str) -> (r: Result<u64, ErrorKind>)
    ensures
        match r {
            Ok(w) => version_weight(version_number@) == Some(w as int),
            Err(e) => e == ErrorKind::InvalidInput && version_weight(version_number@) is None,
        },
{
    let chars = to_chars(version_number);
    weight_of_chars(&chars)
}

pub(crate) fn weight_of_chars(chars: &Vec<char>) -> (r: Result<u64, ErrorKind>)
    ensures
        match r {
            Ok(w) => version_weight(chars@) == Some(w as int),
            Err(e) => e == ErrorKind::InvalidInput && version_weight(chars@) is None,
        },
{
    let (major, rest) = match split_once_chars(chars, '.') {
        Some(p) => p,
        None => {
            return Err(ErrorKind::InvalidInput);
        },
    };
    let (minor, patch) = match split_once_chars(&rest, '.') {
        Some(p) => p,
        None => {
            return Err(ErrorKind::InvalidInput);
        },
    };
    match (parse_component(&major), parse_component(&minor), parse_component(&patch)) {
        (Some(a), Some(b), Some(c)) => Ok(100 * (a as u64) + 10 * (b as u64) + (c as u64)),
        _ => Err(ErrorKind::InvalidInput),
    }
}

/// Compares two version strings by weight. Where either string is not three
/// dot-separated numbers the comparison is refused.
pub fn compare_versions(a: &str, b: &str) -> (r: Result<Ordering, ErrorKind>)
    ensures
        match version_order(a@, b@) {
            Some(o) => r == Ok::<Ordering, ErrorKind>(o),
            None => r == Err::<Ordering, ErrorKind>(ErrorKind::InvalidInput),
        },
{
    let wa = match get_absolute_version(a) {
        Ok(w) => w,
        Err(e) => {
            return Err(e);
        },
    };
    let wb = match get_absolute_version(b) {
        Ok(w) => w,
        Err(e) => {
            return Err(e);
        },
    };
    if wa < wb {
        Ok(Ordering::Less)
    } else if wa == wb {
        Ok(Ordering::Equal)
    } else {
        Ok(Ordering::Greater)
    }
}

/// Every well-formed version equals itself in the order.
pub proof fn lemma_order_reflexive(a: Seq<char>)
    requires
        version_weight(a) is Some,
    ensures
        version_order(a, a) == Some(Ordering::Equal),
{
}

/// No version comes before itself.
pub proof fn lemma_less_irreflexive(a: Seq<char>)
    ensures
        version_order(a, a) != Some(Ordering::Less),
{
}

/// Where `a` comes before `b`, `b` comes after `a`.
pub proof fn lemma_less_asymmetric(a: Seq<char>, b: Seq<char>)
    requires
        version_order(a, b) == Some(Ordering::Less),
    ensures
        version_order(b, a) == Some(Ordering::Greater),
{
}

/// Coming before is transitive.
pub proof fn lemma_less_transitive(a: Seq<char>, b: Seq<char>, c: Seq<char>)
    requires
        version_order(a, b) == Some(Ordering::Less),
        version_order(b, c) == Some(Ordering::Less),
    ensures
        version_order(a, c) == Some(Ordering::Less),
{
}

/// Weighing the same is transitive, so the versions that neither come before
/// nor after one another form classes: the order is a strict weak order.
pub proof fn lemma_equal_transitive(a: Seq<char>, b: Seq<char>, c: Seq<char>)
    requires
        version_order(a, b) == Some(Ordering::Equal),
        version_order(b, c) == Some(Ordering::Equal),
    ensures
        version_order(a, c) == Some(Ordering::Equal),
{
}

} // verus!
