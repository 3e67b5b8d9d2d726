//! Occurrences of one text in another: finding, replacing and splitting.

use vstd::prelude::*;

use crate::text::{from_chars, sub_chars, to_chars};

verus! {

/// Whether `pat` occurs in `s` at position `i`.
pub open spec fn occurs_at(s: Seq<char>, pat: Seq<char>, i: int) -> bool {
    &&& 0 <= i
    &&& i + pat.len() <= s.len()
    &&& s.subrange(i, i + pat.len()) == pat
}

/// Whether `pat` occurs in `s`.
pub open spec fn occurs(s: Seq<char>, pat: Seq<char>) -> bool {
    exists|i: int| #[trigger] occurs_at(s, pat, i)
}

/// The first position from `from` on at which `pat` occurs in `s`.
pub open spec fn find_from(s: Seq<char>, pat: Seq<char>, from: int) -> Option<int>
    decreases s.len() - from + 1,
{
    if from > s.len() {
        None
    } else if occurs_at(s, pat, from) {
        Some(from)
    } else {
        find_from(s, pat, from + 1)
    }
}

/// The part of `s` from `i` on, with every occurrence of `pat` replaced by
/// `to`, from left to right and without overlap.
pub open spec fn replace_from(s: Seq<char>, pat: Seq<char>, to: Seq<char>, i: int) -> Seq<char>
    decreases s.len() - i,
{
    if i >= s.len() {
        Seq::empty()
    } else if pat.len() > 0 && occurs_at(s, pat, i) {
        to + replace_from(s, pat, to, i + pat.len())
    } else {
        seq![s[i]] + replace_from(s, pat, to, i + 1)
    }
}

/// `s` with every occurrence of the nonempty `pat` replaced by `to`.
pub open spec fn replace(s: Seq<char>, pat: Seq<char>, to: Seq<char>) -> Seq<char> {
    replace_from(s, pat, to, 0)
}

/// Whether `s` begins with `prefix`.
pub open spec fn has_prefix(s: Seq<char>, prefix: Seq<char>) -> bool {
    occurs_at(s, prefix, 0)
}

/// What follows `prefix` in `s`, where `s` begins with it.
pub open spec fn after_prefix(s: Seq<char>, prefix: Seq<char>) -> Option<Seq<char>> {
    if has_prefix(s, prefix) {
        Some(s.skip(prefix.len() as int))
    } else {
        None
    }
}

/// The parts of `s` before and after the first occurrence of `pat`.
pub open spec fn split_once(s: Seq<char>, pat: Seq<char>) -> Option<(Seq<char>, Seq<char>)> {
    match find_from(s, pat, 0) {
        Some(k) => Some((s.take(k), s.skip(k + pat.len()))),
        None => None,
    }
}

/// Where `find_from` stops.
pub proof fn lemma_find_from(s: Seq<char>, pat: Seq<char>, from: int)
    requires
        0 <= from,
    ensures
        find_from(s, pat, from) matches Some(k) ==> from <= k && occurs_at(s, pat, k) && forall|i: int|
            from <= i < k ==> !#[trigger] occurs_at(s, pat, i),
        find_from(s, pat, from) is None ==> forall|i: int|
            from <= i ==> !#[trigger] occurs_at(s, pat, i),
    decreases s.len() - from + 1,
{
    if from <= s.len() && !occurs_at(s, pat, from) {
        lemma_find_from(s, pat, from + 1);
    }
}

/// Tests for an occurrence at a position.
pub fn matches_at(chars: &[char], pat: &[char], i: usize) -> (r: bool)
    requires
        i <= chars@.len(),
    ensures
        r == occurs_at(chars@, pat@, i as int),
{
    if pat.len() > chars.len() - i {
        return false;
    }
    let mut j: usize = 0;
    while j < pat.len()
        invariant
            j <= pat@.len(),
            i + pat@.len() <= chars.len(),
            forall|k: int| 0 <= k < j ==> chars@[i + k] == pat@[k],
        decreases pat.len() - j,
    {
        if chars[i + j] != pat[j] {
            assert(chars@.subrange(i as int, i + pat@.len())[j as int] != pat@[j as int]);
            return false;
        }
        j += 1;
    }
    assert(chars@.subrange(i as int, i + pat@.len()) =~= pat@);
    true
}

/// Finds the first occurrence.
pub fn find_chars(chars: &[char], pat: &[char]) -> (r: Option<usize>)
    ensures
        r matches Some(k) ==> find_from(chars@, pat@, 0) == Some(k as int) && k + pat@.len()
            <= chars@.len(),
        r is None ==> find_from(chars@, pat@, 0) is None,
{
    let mut i: usize = 0;
    loop
        invariant
            i <= chars@.len(),
            find_from(chars@, pat@, 0) == find_from(chars@, pat@, i as int),
        decreases chars.len() - i,
    {
        if matches_at(chars, pat, i) {
            return Some(i);
        }
        if i == chars.len() {
            assert(find_from(chars@, pat@, i + 1) is None);
            return None;
        }
        i += 1;
    }
}

/// Replaces every occurrence.
pub fn replace_chars(chars: &[char], pat: &[char], to: &[char]) -> (r: Vec<char>)
    ensures
        r@ == replace(chars@, pat@, to@),
{
    let mut r: Vec<char> = Vec::new();
    let mut i: usize = 0;
    assert(r@ + replace_from(chars@, pat@, to@, 0) =~= replace(chars@, pat@, to@));
    while i < chars.len()
        invariant
            i <= chars@.len(),
            replace(chars@, pat@, to@) == r@ + replace_from(chars@, pat@, to@, i as int),
        decreases chars.len() - i,
    {
        let ghost before = r@;
        if pat.len() > 0 && matches_at(chars, pat, i) {
            r.extend_from_slice(to);
            assert(r@ =~= before + to@);
            assert(r@ + replace_from(chars@, pat@, to@, i + pat@.len()) =~= before + replace_from(
                chars@,
                pat@,
                to@,
                i as int,
            ));
            i += pat.len();
        } else {
            r.push(chars[i]);
            assert(r@ + replace_from(chars@, pat@, to@, i + 1) =~= before + replace_from(
                chars@,
                pat@,
                to@,
                i as int,
            ));
            i += 1;
        }
    }
    assert(r@ + replace_from(chars@, pat@, to@, i as int) =~= r@);
    r
}

/// Replaces every occurrence of one string by another.
pub fn replaced(s: &str, pat: &str, to: &str) -> (r: String)
    ensures
        r@ == replace(s@, pat@, to@),
{
    let chars = to_chars(s);
    let p = to_chars(pat);
    let t = to_chars(to);
    let r = replace_chars(chars.as_slice(), p.as_slice(), t.as_slice());
    from_chars(r.as_slice())
}

/// Whether a string begins with another.
pub fn starts_with(s: &str, prefix: &str) -> (r: bool)
    ensures
        r == has_prefix(s@, prefix@),
{
    let chars = to_chars(s);
    let p = to_chars(prefix);
    matches_at(chars.as_slice(), p.as_slice(), 0)
}

/// What follows a prefix.
pub fn strip_prefix_chars(chars: &[char], prefix: &[char]) -> (r: Option<Vec<char>>)
    ensures
        r matches Some(v) ==> after_prefix(chars@, prefix@) == Some(v@),
        r is None ==> after_prefix(chars@, prefix@) is None,
{
    if matches_at(chars, prefix, 0) {
        assert(chars@.skip(prefix@.len() as int) =~= chars@.subrange(
            prefix@.len() as int,
            chars@.len() as int,
        ));
        Some(sub_chars(chars, prefix.len(), chars.len()))
    } else {
        None
    }
}

/// Splits at the first occurrence.
pub fn split_once_chars(chars: &[char], pat: &[char]) -> (r: Option<(Vec<char>, Vec<char>)>)
    ensures
        r matches Some(p) ==> split_once(chars@, pat@) == Some((p.0@, p.1@)),
        r is None ==> split_once(chars@, pat@) is None,
{
    match find_chars(chars, pat) {
        Some(k) => {
            let len = chars.len();
            let head = sub_chars(chars, 0, k);
            let tail = sub_chars(chars, k + pat.len(), len);
            assert(chars@.take(k as int) =~= head@);
            assert(chars@.skip(k + pat@.len()) =~= tail@);
            Some((head, tail))
        },
        None => None,
    }
}

} // verus!
