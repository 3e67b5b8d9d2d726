//! The order of texts by their characters, and lists sorted by it.

use vstd::prelude::*;

use crate::text::{str_eq, texts, to_chars};

verus! {

/// Whether `a` comes before `b`, by the first character in which they differ;
/// a prefix comes first.
pub open spec fn less(a: Seq<char>, b: Seq<char>) -> bool
    decreases a.len(),
{
    if b.len() == 0 {
        false
    } else if a.len() == 0 {
        true
    } else if a[0] == b[0] {
        less(a.skip(1), b.skip(1))
    } else {
        a[0] < b[0]
    }
}

/// Whether each text of a list comes before all that follow it.
pub open spec fn ascending(values: Seq<Seq<char>>) -> bool {
    forall|i: int, j: int|
        0 <= i < j < values.len() ==> less(#[trigger] values[i], #[trigger] values[j])
}

/// A sorted list with `value` in its place, unless it is there already.
pub open spec fn insert_sorted(values: Seq<Seq<char>>, value: Seq<char>) -> Seq<Seq<char>>
    decreases values.len(),
{
    if values.len() == 0 {
        seq![value]
    } else if values[0] == value {
        values
    } else if less(value, values[0]) {
        seq![value] + values
    } else {
        seq![values[0]] + insert_sorted(values.skip(1), value)
    }
}

/// The texts of a list, sorted and each once.
pub open spec fn sorted_unique(values: Seq<Seq<char>>) -> Seq<Seq<char>>
    decreases values.len(),
{
    if values.len() == 0 {
        Seq::empty()
    } else {
        insert_sorted(sorted_unique(values.drop_last()), values.last())
    }
}

/// Tests whether one text comes before another.
pub fn text_less(a: &str, b: &str) -> (r: bool)
    ensures
        r == less(a@, b@),
{
    let a_chars = to_chars(a);
    let b_chars = to_chars(b);
    let mut i: usize = 0;
    assert(a@.skip(0) =~= a@);
    assert(b@.skip(0) =~= b@);
    while i < a_chars.len() && i < b_chars.len()
        invariant
            i <= a_chars.len(),
            i <= b_chars.len(),
            a_chars@ == a@,
            b_chars@ == b@,
            less(a@, b@) == less(a@.skip(i as int), b@.skip(i as int)),
        decreases a_chars.len() - i,
    {
        assert(a@.skip(i as int).skip(1) =~= a@.skip(i + 1));
        assert(b@.skip(i as int).skip(1) =~= b@.skip(i + 1));
        if a_chars[i] != b_chars[i] {
            return a_chars[i] < b_chars[i];
        }
        i += 1;
    }
    i < b_chars.len()
}

/// Puts a text in its place in a sorted list, unless it is there already.
pub fn add_sorted(values: &mut Vec<String>, value: String)
    ensures
        texts(final(values)@) == insert_sorted(texts(old(values)@), value@),
{
    let ghost all = texts(values@);
    let mut i: usize = 0;
    assert(all.take(0) + insert_sorted(all.skip(0), value@) =~= insert_sorted(all, value@)) by {
        assert(all.skip(0) =~= all);
    }
    while i < values.len()
        invariant
            i <= values.len(),
            all == texts(values@),
            *old(values) == *values,
            all == texts(old(values)@),
            insert_sorted(all, value@) == all.take(i as int) + insert_sorted(
                all.skip(i as int),
                value@,
            ),
        decreases values.len() - i,
    {
        assert(all.skip(i as int)[0] == values@[i as int]@);
        if str_eq(values[i].as_str(), value.as_str()) {
            assert(all.take(i as int) + all.skip(i as int) =~= all);
            return;
        }
        if text_less(value.as_str(), values[i].as_str()) {
            values.insert(i, value);
            assert(texts(values@) =~= all.take(i as int) + (seq![value@] + all.skip(i as int)));
            return;
        }
        assert(all.skip(i as int).skip(1) =~= all.skip(i + 1));
        assert(all.take(i as int) + (seq![all[i as int]] + insert_sorted(all.skip(i + 1), value@))
            =~= all.take(i + 1) + insert_sorted(all.skip(i + 1), value@));
        i += 1;
    }
    assert(all.skip(i as int) =~= Seq::empty());
    values.push(value);
    assert(texts(values@) =~= all.take(i as int) + seq![value@]);
}

/// No text comes before itself, of two others one comes first.
pub proof fn lemma_less_total(a: Seq<char>, b: Seq<char>)
    ensures
        less(a, b) ==> !less(b, a) && a != b,
        a == b || less(a, b) || less(b, a),
    decreases a.len(),
{
    if a.len() > 0 && b.len() > 0 && a[0] == b[0] {
        lemma_less_total(a.skip(1), b.skip(1));
        if a.skip(1) == b.skip(1) {
            assert(a =~= seq![a[0]] + a.skip(1));
            assert(b =~= seq![b[0]] + b.skip(1));
        }
    } else if a.len() == 0 && b.len() == 0 {
        assert(a =~= b);
    }
}

/// The order is transitive.
pub proof fn lemma_less_transitive(a: Seq<char>, b: Seq<char>, c: Seq<char>)
    requires
        less(a, b),
        less(b, c),
    ensures
        less(a, c),
    decreases a.len(),
{
    if a.len() > 0 && a[0] == b[0] && b[0] == c[0] {
        lemma_less_transitive(a.skip(1), b.skip(1), c.skip(1));
    }
}

proof fn lemma_insert_sorted(values: Seq<Seq<char>>, value: Seq<char>)
    requires
        ascending(values),
    ensures
        ascending(insert_sorted(values, value)),
        forall|text: Seq<char>| #[trigger]
            insert_sorted(values, value).contains(text) <==> values.contains(text) || text == value,
    decreases values.len(),
{
    let r = insert_sorted(values, value);
    if values.len() == 0 {
        assert(r[0] == value);
    } else if values[0] == value {
    } else if less(value, values[0]) {
        assert forall|i: int, j: int| 0 <= i < j < r.len() implies less(
            #[trigger] r[i],
            #[trigger] r[j],
        ) by {
            if i == 0 {
                if j > 1 {
                    lemma_less_transitive(value, values[0], values[j - 1]);
                }
            } else {
                assert(r[i] == values[i - 1] && r[j] == values[j - 1]);
            }
        }
        assert forall|text: Seq<char>| #[trigger] r.contains(text) <==> values.contains(text)
            || text == value by {
            if values.contains(text) {
                let k = choose|k: int| 0 <= k < values.len() && values[k] == text;
                assert(r[k + 1] == text);
            }
            if text == value {
                assert(r[0] == text);
            }
            if r.contains(text) {
                let k = choose|k: int| 0 <= k < r.len() && r[k] == text;
                if k > 0 {
                    assert(values[k - 1] == text);
                }
            }
        }
    } else {
        let rest = values.skip(1);
        let tail = insert_sorted(rest, value);
        assert forall|i: int, j: int| 0 <= i < j < rest.len() implies less(
            #[trigger] rest[i],
            #[trigger] rest[j],
        ) by {
            assert(rest[i] == values[i + 1] && rest[j] == values[j + 1]);
        }
        lemma_insert_sorted(rest, value);
        lemma_less_total(values[0], value);
        assert(r =~= seq![values[0]] + tail);
        assert forall|i: int, j: int| 0 <= i < j < r.len() implies less(
            #[trigger] r[i],
            #[trigger] r[j],
        ) by {
            assert(r[j] == tail[j - 1]);
            if i == 0 {
                assert(tail.contains(tail[j - 1]));
                if tail[j - 1] != value {
                    let k = choose|k: int| 0 <= k < rest.len() && rest[k] == tail[j - 1];
                    assert(values[k + 1] == rest[k]);
                }
            } else {
                assert(r[i] == tail[i - 1]);
            }
        }
        assert forall|text: Seq<char>| #[trigger] r.contains(text) <==> values.contains(text)
            || text == value by {
            if values.contains(text) {
                let k = choose|k: int| 0 <= k < values.len() && values[k] == text;
                if k == 0 {
                    assert(r[0] == text);
                } else {
                    assert(rest[k - 1] == text);
                    assert(tail.contains(text));
                }
            }
            if tail.contains(text) {
                let k = choose|k: int| 0 <= k < tail.len() && tail[k] == text;
                assert(r[k + 1] == text);
            }
            if r.contains(text) {
                let k = choose|k: int| 0 <= k < r.len() && r[k] == text;
                if k == 0 {
                    assert(values[0] == text);
                } else {
                    assert(tail[k - 1] == text);
                    assert(tail.contains(text));
                    if rest.contains(text) {
                        let m = choose|m: int| 0 <= m < rest.len() && rest[m] == text;
                        assert(values[m + 1] == text);
                    }
                }
            }
            assert(tail.contains(value));
        }
    }
}

/// Sorting gives an ascending list of the same texts.
pub proof fn lemma_sorted_unique(values: Seq<Seq<char>>)
    ensures
        ascending(sorted_unique(values)),
        forall|text: Seq<char>| #[trigger]
            sorted_unique(values).contains(text) <==> values.contains(text),
    decreases values.len(),
{
    if values.len() > 0 {
        let rest = values.drop_last();
        lemma_sorted_unique(rest);
        lemma_insert_sorted(sorted_unique(rest), values.last());
        assert forall|text: Seq<char>| #[trigger] sorted_unique(values).contains(
            text,
        ) <==> values.contains(text) by {
            if values.contains(text) {
                let k = choose|k: int| 0 <= k < values.len() && values[k] == text;
                if k < rest.len() {
                    assert(rest[k] == text);
                }
            }
            if rest.contains(text) {
                let k = choose|k: int| 0 <= k < rest.len() && rest[k] == text;
                assert(values[k] == text);
            }
            if text == values.last() {
                assert(values[values.len() - 1] == text);
            }
            assert(sorted_unique(values).contains(text) <==> sorted_unique(rest).contains(text)
                || text == values.last());
        }
    }
}

/// There is one ascending list of given texts.
pub proof fn lemma_ascending_unique(a: Seq<Seq<char>>, b: Seq<Seq<char>>)
    requires
        ascending(a),
        ascending(b),
        forall|text: Seq<char>| #[trigger] a.contains(text) <==> b.contains(text),
    ensures
        a == b,
    decreases a.len(),
{
    if a.len() == 0 {
        if b.len() > 0 {
            assert(b.contains(b[0]));
            assert(a.contains(b[0]));
        }
        assert(a =~= b);
    } else {
        assert(a.contains(a[0]));
        assert(b.contains(a[0]));
        assert(b.len() > 0);
        assert(b.contains(b[0]));
        assert(a.contains(b[0]));
        let i = choose|i: int| 0 <= i < b.len() && b[i] == a[0];
        let j = choose|j: int| 0 <= j < a.len() && a[j] == b[0];
        lemma_less_total(a[0], b[0]);
        assert(a[0] == b[0]);
        let x = a.skip(1);
        let y = b.skip(1);
        assert forall|m: int, n: int| 0 <= m < n < x.len() implies less(
            #[trigger] x[m],
            #[trigger] x[n],
        ) by {
            assert(x[m] == a[m + 1] && x[n] == a[n + 1]);
        }
        assert forall|m: int, n: int| 0 <= m < n < y.len() implies less(
            #[trigger] y[m],
            #[trigger] y[n],
        ) by {
            assert(y[m] == b[m + 1] && y[n] == b[n + 1]);
        }
        assert forall|text: Seq<char>| #[trigger] x.contains(text) <==> y.contains(text) by {
            lemma_rest_contains(a, text);
            lemma_rest_contains(b, text);
        }
        lemma_ascending_unique(x, y);
        assert(a =~= seq![a[0]] + x);
        assert(b =~= seq![b[0]] + y);
    }
}

proof fn lemma_rest_contains(a: Seq<Seq<char>>, text: Seq<char>)
    requires
        ascending(a),
        a.len() > 0,
    ensures
        a.skip(1).contains(text) <==> a.contains(text) && text != a[0],
{
    let x = a.skip(1);
    if x.contains(text) {
        let k = choose|k: int| 0 <= k < x.len() && x[k] == text;
        assert(a[k + 1] == text);
        lemma_less_total(a[0], a[k + 1]);
    }
    if a.contains(text) && text != a[0] {
        let k = choose|k: int| 0 <= k < a.len() && a[k] == text;
        assert(x[k - 1] == text);
    }
}

} // verus!
