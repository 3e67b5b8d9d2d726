//! Marker texts that delimit a block, and the proof that replacing them in a
//! value keeps the value from holding one.

use vstd::prelude::*;

use crate::search::{find_from, lemma_find_from, occurs, occurs_at, replace, replace_from};

verus! {

/// Whether `c` stands nowhere in `s` from position `from` on.
pub open spec fn lacks_from(s: Seq<char>, c: char, from: int) -> bool
    decreases s.len() - from,
{
    from >= s.len() || (s[from] != c && lacks_from(s, c, from + 1))
}

/// Whether `c` stands nowhere in `s`.
pub open spec fn lacks(s: Seq<char>, c: char) -> bool {
    forall|i: int| 0 <= i < s.len() ==> #[trigger] s[i] != c
}

/// How often `c` stands in `s`.
pub open spec fn occurrences(s: Seq<char>, c: char) -> nat
    decreases s.len(),
{
    if s.len() == 0 {
        0
    } else if s.last() == c {
        occurrences(s.drop_last(), c) + 1
    } else {
        occurrences(s.drop_last(), c)
    }
}

/// `lacks_from`, as a statement on every position.
pub proof fn lemma_lacks_from(s: Seq<char>, c: char, from: int)
    requires
        lacks_from(s, c, from),
        0 <= from,
    ensures
        forall|i: int| from <= i < s.len() ==> #[trigger] s[i] != c,
    decreases s.len() - from,
{
    if from < s.len() {
        lemma_lacks_from(s, c, from + 1);
    }
}

/// Whether `to` can take no part in an occurrence of `marker`: however the two
/// are aligned, they differ where they overlap.
pub open spec fn inert(to: Seq<char>, marker: Seq<char>) -> bool {
    forall|d: int|
        -(marker.len() as int) < d < to.len() ==> #[trigger] differs_at_shift(to, marker, d)
}

/// Whether `marker`, shifted by `d`, differs from `to` where they overlap.
pub open spec fn differs_at_shift(to: Seq<char>, marker: Seq<char>, d: int) -> bool {
    exists|p: int|
        0 <= p < to.len() && d <= p < d + marker.len() && marker[p - d] != #[trigger] to[p]
}

/// A replacement is inert when its first character stands in the marker at
/// most at its start, the marker's first character stands in the replacement
/// at most at its start, and the two differ at a common position.
pub proof fn lemma_inert(to: Seq<char>, marker: Seq<char>, p: int)
    requires
        to.len() > 0,
        marker.len() > 0,
        lacks_from(marker, to[0], 1),
        lacks_from(to, marker[0], 1),
        0 <= p < to.len(),
        p < marker.len(),
        to[p] != marker[p],
    ensures
        inert(to, marker),
{
    lemma_lacks_from(marker, to[0], 1);
    lemma_lacks_from(to, marker[0], 1);
    assert forall|d: int|
        -(marker.len() as int) < d < to.len() implies #[trigger] differs_at_shift(
        to,
        marker,
        d,
    ) by {
        if d < 0 {
            assert(marker[0 - d] != to[0]);
        } else if d > 0 {
            assert(marker[d - d] != to[d]);
        } else {
            assert(marker[p - d] != to[p]);
        }
    }
}

/// What replacing leaves before the first match, and what follows.
proof fn lemma_replace_gap(s: Seq<char>, pat: Seq<char>, to: Seq<char>, i: int)
    requires
        0 <= i <= s.len(),
        pat.len() > 0,
    ensures
        find_from(s, pat, i) is None ==> replace_from(s, pat, to, i) == s.skip(i),
        find_from(s, pat, i) matches Some(k) ==> i <= k && k + pat.len() <= s.len()
            && replace_from(s, pat, to, i) == s.subrange(i, k) + (to + replace_from(
            s,
            pat,
            to,
            k + pat.len(),
        )),
    decreases s.len() - i,
{
    if i == s.len() {
        assert(find_from(s, pat, i + 1) is None);
        assert(replace_from(s, pat, to, i) =~= s.skip(i));
    } else if occurs_at(s, pat, i) {
        assert(s.subrange(i, i) + (to + replace_from(s, pat, to, i + pat.len()))
            =~= replace_from(s, pat, to, i));
    } else {
        lemma_replace_gap(s, pat, to, i + 1);
        match find_from(s, pat, i) {
            None => {
                assert(seq![s[i]] + s.skip(i + 1) =~= s.skip(i));
            },
            Some(k) => {
                let rest = to + replace_from(s, pat, to, k + pat.len());
                assert(seq![s[i]] + (s.subrange(i + 1, k) + rest) =~= s.subrange(i, k) + rest);
            },
        }
    }
}

proof fn lemma_replace_from_cleans(
    s: Seq<char>,
    pat: Seq<char>,
    to: Seq<char>,
    marker: Seq<char>,
    i: int,
)
    requires
        0 <= i <= s.len(),
        pat.len() > 0,
        marker.len() > 0,
        inert(to, marker),
        marker == pat || !occurs(s, marker),
    ensures
        !occurs(replace_from(s, pat, to, i), marker),
    decreases s.len() - i,
{
    let r = replace_from(s, pat, to, i);
    lemma_replace_gap(s, pat, to, i);
    lemma_find_from(s, pat, i);
    assert forall|q: int| !#[trigger] occurs_at(r, marker, q) by {
        if occurs_at(r, marker, q) {
            match find_from(s, pat, i) {
                None => {
                    assert(s.subrange(i + q, i + q + marker.len()) =~= r.subrange(
                        q,
                        q + marker.len(),
                    ));
                    assert(occurs_at(s, marker, i + q));
                },
                Some(k) => {
                    let g = k - i;
                    let tail = replace_from(s, pat, to, k + pat.len());
                    assert(r == s.subrange(i, k) + (to + tail));
                    if q + marker.len() <= g {
                        assert(s.subrange(i + q, i + q + marker.len()) =~= r.subrange(
                            q,
                            q + marker.len(),
                        ));
                        assert(occurs_at(s, marker, i + q));
                    } else if q >= g + to.len() {
                        lemma_replace_from_cleans(s, pat, to, marker, k + pat.len());
                        let q2 = q - g - to.len();
                        assert(tail.subrange(q2, q2 + marker.len()) =~= r.subrange(
                            q,
                            q + marker.len(),
                        ));
                        assert(occurs_at(tail, marker, q2));
                    } else {
                        let d = q - g;
                        assert(differs_at_shift(to, marker, d));
                        let p = choose|p: int|
                            0 <= p < to.len() && d <= p < d + marker.len() && marker[p - d]
                                != #[trigger] to[p];
                        assert(r[g + p] == to[p]);
                        assert(r.subrange(q, q + marker.len())[p - d] == r[q + (p - d)]);
                    }
                },
            }
        }
    }
}

/// Replacing a marker by an inert text leaves no occurrence of it, and brings
/// in no occurrence of a marker that was absent.
pub proof fn lemma_replace_cleans(
    s: Seq<char>,
    pat: Seq<char>,
    to: Seq<char>,
    marker: Seq<char>,
)
    requires
        pat.len() > 0,
        marker.len() > 0,
        inert(to, marker),
        marker == pat || !occurs(s, marker),
    ensures
        !occurs(replace(s, pat, to), marker),
{
    lemma_replace_from_cleans(s, pat, to, marker, 0);
}

/// A text without the first character of a marker does not hold the marker.
pub proof fn lemma_lacks_clean(s: Seq<char>, marker: Seq<char>)
    requires
        marker.len() > 0,
        lacks(s, marker[0]),
    ensures
        !occurs(s, marker),
{
    assert forall|q: int| !#[trigger] occurs_at(s, marker, q) by {
        if occurs_at(s, marker, q) {
            assert(s.subrange(q, q + marker.len())[0] == s[q]);
        }
    }
}

/// An occurrence of a marker does not cross a character that the marker lacks.
pub proof fn lemma_occurs_across(a: Seq<char>, c: char, b: Seq<char>, marker: Seq<char>, i: int)
    requires
        lacks(marker, c),
        marker.len() > 0,
        occurs_at(a + seq![c] + b, marker, i),
    ensures
        occurs_at(a, marker, i) || occurs_at(b, marker, i - a.len() - 1),
{
    let s = a + seq![c] + b;
    if i <= a.len() < i + marker.len() {
        assert(s.subrange(i, i + marker.len())[a.len() - i] == s[a.len() as int]);
    } else if i + marker.len() <= a.len() {
        assert(a.subrange(i, i + marker.len()) =~= s.subrange(i, i + marker.len()));
    } else {
        let j = i - a.len() - 1;
        assert(b.subrange(j, j + marker.len()) =~= s.subrange(i, i + marker.len()));
    }
}

/// Two texts without a marker, set apart by a character that the marker lacks,
/// make a text without it.
pub proof fn lemma_clean_across(a: Seq<char>, c: char, b: Seq<char>, marker: Seq<char>)
    requires
        lacks(marker, c),
        marker.len() > 0,
        !occurs(a, marker),
        !occurs(b, marker),
    ensures
        !occurs(a + seq![c] + b, marker),
{
    assert forall|i: int| !#[trigger] occurs_at(a + seq![c] + b, marker, i) by {
        if occurs_at(a + seq![c] + b, marker, i) {
            lemma_occurs_across(a, c, b, marker, i);
        }
    }
}

/// A prefix of a text without a marker has none either.
pub proof fn lemma_clean_take(s: Seq<char>, n: int, marker: Seq<char>)
    requires
        !occurs(s, marker),
        0 <= n <= s.len(),
    ensures
        !occurs(s.take(n), marker),
{
    assert forall|i: int| !#[trigger] occurs_at(s.take(n), marker, i) by {
        if occurs_at(s.take(n), marker, i) {
            assert(s.subrange(i, i + marker.len()) =~= s.take(n).subrange(i, i + marker.len()));
            assert(occurs_at(s, marker, i));
        }
    }
}

/// A marker that begins with `<` and runs over neither a space nor a line feed.
pub open spec fn is_tag(marker: Seq<char>) -> bool {
    &&& marker.len() > 0
    &&& marker[0] == '<'
    &&& lacks(marker, ' ')
    &&& lacks(marker, '\n')
}

/// A text without `<` holds no tag.
pub proof fn lemma_plain_clean(s: Seq<char>, marker: Seq<char>)
    requires
        is_tag(marker),
        lacks_from(s, '<', 0),
    ensures
        !occurs(s, marker),
{
    lemma_lacks_from(s, '<', 0);
    lemma_lacks_clean(s, marker);
}

/// Two texts without a tag make a text without it where the first ends with a
/// space or a line feed.
pub proof fn lemma_append_clean(a: Seq<char>, b: Seq<char>, marker: Seq<char>)
    requires
        is_tag(marker),
        a.len() == 0 || a.last() == '\n' || a.last() == ' ',
        !occurs(a, marker),
        !occurs(b, marker),
    ensures
        !occurs(a + b, marker),
{
    if a.len() == 0 {
        assert(a + b =~= b);
    } else {
        let head = a.drop_last();
        lemma_clean_take(a, a.len() - 1, marker);
        assert(a.take(a.len() - 1) =~= head);
        lemma_clean_across(head, a.last(), b, marker);
        assert(head + seq![a.last()] + b =~= a + b);
    }
}

/// `body` on lines of its own between two tags.
pub open spec fn enclosed(start: Seq<char>, body: Seq<char>, end: Seq<char>) -> Seq<char> {
    start + "\n"@ + body + "\n"@ + end
}

/// Whether two tags can be told apart wherever they stand.
pub open spec fn are_apart(start: Seq<char>, end: Seq<char>) -> bool {
    &&& is_tag(start)
    &&& is_tag(end)
    &&& lacks_from(start, '<', 1)
    &&& lacks_from(end, '<', 1)
    &&& start.len() > 1
    &&& end.len() > 1
    &&& start[1] != end[1]
}

proof fn lemma_apart(a: Seq<char>, b: Seq<char>)
    requires
        is_tag(a),
        is_tag(b),
        lacks_from(b, '<', 1),
        a.len() > 1,
        b.len() > 1,
        a[1] != b[1],
    ensures
        !occurs(b, a),
{
    lemma_lacks_from(b, '<', 1);
    assert forall|k: int| !#[trigger] occurs_at(b, a, k) by {
        if occurs_at(b, a, k) {
            assert(b.subrange(k, k + a.len())[0] == b[k]);
            assert(b.subrange(k, k + a.len())[1] == b[k + 1]);
        }
    }
}

/// Of a text that holds neither of the tags around it, the start tag occurs at
/// the start alone and the end tag at the end alone.
pub proof fn lemma_enclosed(start: Seq<char>, body: Seq<char>, end: Seq<char>)
    requires
        are_apart(start, end),
        !occurs(body, start),
        !occurs(body, end),
    ensures
        forall|i: int| #[trigger] occurs_at(enclosed(start, body, end), start, i) <==> i == 0,
        forall|i: int| #[trigger]
            occurs_at(enclosed(start, body, end), end, i) <==> i == enclosed(
                start,
                body,
                end,
            ).len() - end.len(),
{
    reveal_strlit("\n");
    lemma_apart(start, end);
    lemma_apart(end, start);
    lemma_lacks_from(start, '<', 1);
    lemma_lacks_from(end, '<', 1);
    let s = enclosed(start, body, end);
    let rest = body + seq!['\n'] + end;
    assert(s =~= start + seq!['\n'] + rest);
    let last = s.len() - end.len();
    assert(s.subrange(0, start.len() as int) =~= start);
    assert(s.subrange(last, s.len() as int) =~= end);
    assert forall|i: int| #[trigger] occurs_at(s, start, i) implies i == 0 by {
        lemma_occurs_across(start, '\n', rest, start, i);
        let j = i - start.len() - 1;
        if occurs_at(rest, start, j) {
            lemma_occurs_across(body, '\n', end, start, j);
        }
    }
    assert forall|i: int| #[trigger] occurs_at(s, end, i) implies i == last by {
        lemma_occurs_across(start, '\n', rest, end, i);
        let j = i - start.len() - 1;
        if occurs_at(rest, end, j) {
            lemma_occurs_across(body, '\n', end, end, j);
        }
    }
}

} // verus!
