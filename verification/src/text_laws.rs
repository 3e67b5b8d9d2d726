//! What holds of trimming, of the lines and fields of a text, and of joining.

use vstd::prelude::*;

use crate::sanitize::{normalized, truncated};
use crate::search::{occurs_at, replace, replace_from};
use crate::split::{fields, find_char, join, lemma_find_char, lemma_words, lines, strip_cr, words};
use crate::text::{
    ascii_lowercase, eq_ignore_case, is_blank, is_white_space, lemma_trim_blank,
    lemma_trim_end_prefix, lemma_trim_start_suffix, trim, trim_end, trim_start,
};

verus! {

/// A text is what trimming leaves of it between white space, and what is left
/// neither begins nor ends with white space.
pub proof fn lemma_trim(s: Seq<char>)
    ensures
        exists|a: Seq<char>, b: Seq<char>|
            is_blank(a) && is_blank(b) && s == #[trigger] (a + trim(s) + b),
        trim(s).len() > 0 ==> !is_white_space(trim(s)[0]) && !is_white_space(trim(s).last()),
        trim_start(s).len() > 0 ==> !is_white_space(trim_start(s)[0]),
        exists|a: Seq<char>| is_blank(a) && s == #[trigger] (a + trim_start(s)),
{
    let front = trim_start(s);
    lemma_trim_start_suffix(s);
    lemma_trim_start_cuts(s);
    lemma_trim_end_prefix(front);
    lemma_trim_end_cuts(front);
    let a = s.take(s.len() - front.len());
    let b = front.skip(trim(s).len() as int);
    assert(s =~= a + front);
    assert(front =~= trim(s) + b);
    assert(s =~= a + trim(s) + b);
    if trim(s).len() > 0 {
        assert(trim(s)[0] == front[0]);
    }
}

proof fn lemma_trim_start_cuts(s: Seq<char>)
    ensures
        is_blank(s.take(s.len() - trim_start(s).len())),
        trim_start(s).len() > 0 ==> !is_white_space(trim_start(s)[0]),
    decreases s.len(),
{
    if s.len() > 0 && is_white_space(s[0]) {
        lemma_trim_start_cuts(s.skip(1));
        lemma_trim_start_suffix(s.skip(1));
        let n = s.len() - trim_start(s).len();
        let cut = s.take(n);
        assert forall|i: int| 0 <= i < cut.len() implies is_white_space(#[trigger] cut[i]) by {
            if i > 0 {
                assert(s.skip(1).take(n - 1)[i - 1] == cut[i]);
            }
        }
    }
}

proof fn lemma_trim_end_cuts(s: Seq<char>)
    ensures
        is_blank(s.skip(trim_end(s).len() as int)),
        trim_end(s).len() > 0 ==> !is_white_space(trim_end(s).last()),
    decreases s.len(),
{
    if s.len() > 0 && is_white_space(s.last()) {
        lemma_trim_end_cuts(s.drop_last());
        lemma_trim_end_prefix(s.drop_last());
        let n = trim_end(s).len() as int;
        let cut = s.skip(n);
        assert forall|i: int| 0 <= i < cut.len() implies is_white_space(#[trigger] cut[i]) by {
            if i < cut.len() - 1 {
                assert(s.drop_last().skip(n)[i] == cut[i]);
            }
        }
    }
}

/// White space around a text makes no difference to what trimming leaves.
pub proof fn lemma_trim_around(a: Seq<char>, s: Seq<char>, b: Seq<char>)
    requires
        is_blank(a),
        is_blank(b),
    ensures
        trim(a + s + b) == trim(s),
{
    lemma_trim_start_around(a, s + b);
    assert(a + (s + b) =~= a + s + b);
    lemma_trim_blank(s);
    if is_blank(s) {
        assert(is_blank(s + b));
        lemma_trim_blank(s + b);
        assert(trim(a + s + b) =~= trim(s));
    } else {
        lemma_trim_start_before(s, b);
        lemma_trim_end_around(trim_start(s), b);
    }
}

proof fn lemma_trim_start_around(a: Seq<char>, s: Seq<char>)
    requires
        is_blank(a),
    ensures
        trim_start(a + s) == trim_start(s),
    decreases a.len(),
{
    if a.len() > 0 {
        let rest = a.skip(1);
        assert forall|i: int| 0 <= i < rest.len() implies is_white_space(#[trigger] rest[i]) by {
            assert(rest[i] == a[i + 1]);
        }
        lemma_trim_start_around(rest, s);
        assert(is_white_space(a[0]));
        assert((a + s).skip(1) =~= rest + s);
    } else {
        assert(a + s =~= s);
    }
}

proof fn lemma_trim_start_before(s: Seq<char>, b: Seq<char>)
    requires
        !is_blank(s),
    ensures
        trim_start(s + b) == trim_start(s) + b,
    decreases s.len(),
{
    if is_white_space(s[0]) {
        let rest = s.skip(1);
        assert(!is_blank(rest)) by {
            if is_blank(rest) {
                assert forall|i: int| 0 <= i < s.len() implies is_white_space(#[trigger] s[i]) by {
                    if i > 0 {
                        assert(rest[i - 1] == s[i]);
                    }
                }
            }
        }
        lemma_trim_start_before(rest, b);
        assert((s + b).skip(1) =~= rest + b);
    }
}

proof fn lemma_trim_end_around(s: Seq<char>, b: Seq<char>)
    requires
        is_blank(b),
    ensures
        trim_end(s + b) == trim_end(s),
    decreases b.len(),
{
    if b.len() > 0 {
        let rest = b.drop_last();
        assert forall|i: int| 0 <= i < rest.len() implies is_white_space(#[trigger] rest[i]) by {
            assert(rest[i] == b[i]);
        }
        lemma_trim_end_around(s, rest);
        assert(is_white_space(b[b.len() - 1]));
        assert((s + b).drop_last() =~= s + rest);
    } else {
        assert(s + b =~= s);
    }
}

proof fn lemma_find_char_before(a: Seq<char>, b: Seq<char>, c: char, from: int)
    requires
        0 <= from <= a.len(),
        forall|i: int| from <= i < a.len() ==> #[trigger] a[i] != c,
    ensures
        find_char(a + seq![c] + b, c, from) == a.len(),
    decreases a.len() - from,
{
    let all = a + seq![c] + b;
    if from < a.len() {
        assert(all[from] == a[from]);
        lemma_find_char_before(a, b, c, from + 1);
    } else {
        assert(all[from] == c);
    }
}

/// The first line ends at the first line feed, and a carriage return before
/// that belongs to the line ending.
pub proof fn lemma_first_line(a: Seq<char>, b: Seq<char>)
    requires
        forall|i: int| 0 <= i < a.len() ==> #[trigger] a[i] != '\n',
    ensures
        a.len() == 0 || a.last() != '\r' ==> lines(a + seq!['\n'] + b) == seq![a] + lines(b),
        lines(a + seq!['\r', '\n'] + b) == seq![a] + lines(b),
{
    let s = a + seq!['\n'] + b;
    lemma_find_char_before(a, b, '\n', 0);
    assert(s.take(a.len() as int) =~= a);
    assert(s.skip(a.len() as int + 1) =~= b);
    let longer = a.push('\r');
    let t = a + seq!['\r', '\n'] + b;
    assert forall|i: int| 0 <= i < longer.len() implies #[trigger] longer[i] != '\n' by {
        if i < a.len() {
            assert(longer[i] == a[i]);
        }
    }
    lemma_find_char_before(longer, b, '\n', 0);
    assert(t =~= longer + seq!['\n'] + b);
    assert(t.take(longer.len() as int) =~= longer);
    assert(t.skip(longer.len() as int + 1) =~= b);
    assert(longer.drop_last() =~= a);
}

/// A text without a line feed is one line, and an empty one has none.
pub proof fn lemma_last_line(a: Seq<char>)
    requires
        forall|i: int| 0 <= i < a.len() ==> #[trigger] a[i] != '\n',
    ensures
        a.len() > 0 ==> lines(a) == seq![a],
        a.len() == 0 ==> lines(a).len() == 0,
{
    lemma_find_char(a, '\n', 0);
}

/// The lines of a text that ends with a line ending, and of what follows it,
/// are the lines of both.
pub proof fn lemma_lines_of_both(x: Seq<char>, y: Seq<char>)
    requires
        x.len() > 0,
        x.last() == '\n',
    ensures
        lines(x + y) == lines(x) + lines(y),
    decreases x.len(),
{
    lemma_find_char(x, '\n', 0);
    let k = find_char(x, '\n', 0);
    assert(x[x.len() - 1] == '\n');
    assert(k < x.len());
    let a = x.take(k);
    let b = x.skip(k + 1);
    assert(x =~= a + seq!['\n'] + b);
    assert(x + y =~= a + seq!['\n'] + (b + y));
    assert forall|i: int| 0 <= i < a.len() implies #[trigger] a[i] != '\n' by {
        assert(a[i] == x[i]);
    }
    lemma_find_char_before(a, b, '\n', 0);
    lemma_find_char_before(a, b + y, '\n', 0);
    assert((x + y).take(k) =~= a);
    assert((x + y).skip(k + 1) =~= b + y);
    if b.len() > 0 {
        lemma_lines_of_both(b, y);
        assert(seq![strip_cr(a)] + lines(b) + lines(y) =~= seq![strip_cr(a)] + (lines(b) + lines(
            y,
        )));
    } else {
        assert(b + y =~= y);
        assert(lines(x) =~= seq![strip_cr(a)]);
        assert(lines(x + y) =~= lines(x) + lines(y));
    }
}

/// Whether no line of a text ends with a carriage return.
pub open spec fn has_plain_endings(s: Seq<char>) -> bool {
    forall|i: int| 0 < i < s.len() && #[trigger] s[i] == '\n' ==> s[i - 1] != '\r'
}

/// A text is its lines with line feeds between them, and one more where it ends
/// with one.
pub proof fn lemma_lines_hold_all(s: Seq<char>)
    requires
        has_plain_endings(s),
    ensures
        s.len() > 0 && s.last() == '\n' ==> s == join(lines(s), seq!['\n']) + seq!['\n'],
        s.len() == 0 || s.last() != '\n' ==> s == join(lines(s), seq!['\n']),
    decreases s.len(),
{
    let sep = seq!['\n'];
    lemma_find_char(s, '\n', 0);
    let k = find_char(s, '\n', 0);
    if s.len() == 0 {
        assert(join(lines(s), sep) =~= s);
    } else if k >= s.len() {
        assert(join(lines(s), sep) =~= s);
        assert(s[s.len() - 1] != '\n');
    } else {
        let a = s.take(k);
        let b = s.skip(k + 1);
        assert(s =~= a + sep + b);
        if k > 0 {
            assert(s[k] == '\n');
            assert(a.last() == s[k - 1]);
        }
        assert(strip_cr(a) == a);
        assert forall|i: int| 0 < i < b.len() && #[trigger] b[i] == '\n' implies b[i - 1]
            != '\r' by {
            assert(s[i + k + 1] == '\n');
        }
        lemma_lines_hold_all(b);
        lemma_join_first(a, lines(b), sep);
        assert(lines(s) == seq![a] + lines(b));
        if b.len() == 0 {
            assert(lines(b).len() == 0);
        } else {
            lemma_find_char(b, '\n', 0);
            assert(lines(b).len() > 0);
            assert(b[b.len() - 1] == s[s.len() - 1]);
            let tail = join(lines(b), sep);
            assert(join(lines(s), sep) == a + sep + tail);
            assert(a + sep + (tail + sep) =~= a + sep + tail + sep);
        }
    }
}

/// The first part comes first.
pub proof fn lemma_join_first(first: Seq<char>, rest: Seq<Seq<char>>, sep: Seq<char>)
    ensures
        rest.len() == 0 ==> join(seq![first] + rest, sep) == first,
        rest.len() > 0 ==> join(seq![first] + rest, sep) == first + sep + join(rest, sep),
    decreases rest.len(),
{
    let all = seq![first] + rest;
    if rest.len() == 1 {
        assert(all.drop_last() =~= seq![first]);
        assert(join(seq![first], sep) == first);
        assert(join(rest, sep) == rest[0]);
    } else if rest.len() > 1 {
        assert(all.drop_last() =~= seq![first] + rest.drop_last());
        lemma_join_first(first, rest.drop_last(), sep);
        assert(join(all, sep) =~= first + sep + (join(rest.drop_last(), sep) + sep + rest.last()));
    }
}

/// Fields stand between the occurrences of their separator.
pub proof fn lemma_first_field(a: Seq<char>, b: Seq<char>, c: char)
    requires
        forall|i: int| 0 <= i < a.len() ==> #[trigger] a[i] != c,
    ensures
        fields(a, c) == seq![a],
        fields(a + seq![c] + b, c) == seq![a] + fields(b, c),
{
    lemma_find_char(a, c, 0);
    let s = a + seq![c] + b;
    lemma_find_char_before(a, b, c, 0);
    assert(s.take(a.len() as int) =~= a);
    assert(s.skip(a.len() as int + 1) =~= b);
}

/// Parts that do not hold the separator are the fields of what joins them.
pub proof fn lemma_fields_of_joined(parts: Seq<Seq<char>>, c: char)
    requires
        parts.len() > 0,
        forall|i: int, j: int|
            0 <= i < parts.len() && 0 <= j < parts[i].len() ==> #[trigger] parts[i][j] != c,
    ensures
        fields(join(parts, seq![c]), c) == parts,
    decreases parts.len(),
{
    let first = parts[0];
    let rest = parts.skip(1);
    lemma_join_first(first, rest, seq![c]);
    assert(seq![first] + rest =~= parts);
    assert forall|j: int| 0 <= j < first.len() implies #[trigger] first[j] != c by {
        assert(parts[0][j] != c);
    }
    if rest.len() > 0 {
        assert forall|i: int, j: int| 0 <= i < rest.len() && 0 <= j < rest[i].len() implies
            #[trigger] rest[i][j] != c by {
            assert(parts[i + 1][j] != c);
        }
        lemma_fields_of_joined(rest, c);
        lemma_first_field(first, join(rest, seq![c]), c);
    } else {
        lemma_first_field(first, Seq::empty(), c);
        assert(parts =~= seq![first]);
    }
}

/// A text within its bound is kept; of a longer one the beginning is, with a
/// note, so that both together fill the bound where it has room for the note.
pub proof fn lemma_truncated(s: Seq<char>, max_chars: nat)
    ensures
        s.len() <= max_chars ==> truncated(s, max_chars) == s,
        s.len() > max_chars ==> exists|n: int|
            0 < n <= s.len() && truncated(s, max_chars) == #[trigger] s.take(n)
                + " ... [truncated]"@,
        s.len() > max_chars >= 17 ==> truncated(s, max_chars).len() == max_chars,
{
    reveal_strlit(" ... [truncated]");
    if s.len() > max_chars {
        let n = if max_chars > 17 { max_chars - 16 } else { 1int };
        assert(truncated(s, max_chars) == s.take(n) + " ... [truncated]"@);
    }
}

/// Two lists of parts are joined with one separator between them.
pub proof fn lemma_join_both(a: Seq<Seq<char>>, b: Seq<Seq<char>>, sep: Seq<char>)
    requires
        a.len() > 0,
        b.len() > 0,
    ensures
        join(a + b, sep) == join(a, sep) + sep + join(b, sep),
    decreases b.len(),
{
    let all = a + b;
    if b.len() == 1 {
        assert(all.drop_last() =~= a);
        assert(join(b, sep) == b[0]);
    } else {
        assert(all.drop_last() =~= a + b.drop_last());
        lemma_join_both(a, b.drop_last(), sep);
        assert(join(all, sep) =~= join(a, sep) + sep + join(b, sep));
    }
}

/// White space parts words.
pub proof fn lemma_words_of_both(a: Seq<char>, c: char, b: Seq<char>)
    requires
        is_white_space(c),
    ensures
        words(a + seq![c] + b) == words(a) + words(b),
    decreases b.len(),
{
    let s = a + seq![c] + b;
    if b.len() == 0 {
        assert(s.drop_last() =~= a);
        assert(s.last() == c);
        assert(words(b).len() == 0);
        assert(words(s) =~= words(a) + words(b));
    } else {
        let rest = b.drop_last();
        assert(s.drop_last() =~= a + seq![c] + rest);
        lemma_words_of_both(a, c, rest);
        assert(s.last() == b.last());
        if b.len() > 1 {
            assert(s[s.len() - 2] == b[b.len() - 2]);
        } else {
            assert(s[s.len() - 2] == c);
        }
        if is_white_space(b.last()) {
        } else if b.len() == 1 || is_white_space(b[b.len() - 2]) {
            assert(words(s) =~= words(a) + words(b));
        } else {
            lemma_words(rest);
            assert(rest.last() == b[b.len() - 2]);
            assert(words(rest).len() > 0);
            let both = words(a) + words(rest);
            assert(both.last() == words(rest).last());
            assert(both.drop_last() =~= words(a) + words(rest).drop_last());
            assert(words(s) =~= words(a) + words(b));
        }
    }
}

/// A text without white space is one word.
pub proof fn lemma_one_word(w: Seq<char>)
    requires
        w.len() > 0,
        forall|i: int| 0 <= i < w.len() ==> !is_white_space(#[trigger] w[i]),
    ensures
        words(w) == seq![w],
    decreases w.len(),
{
    assert(!is_white_space(w[w.len() - 1]));
    if w.len() == 1 {
        assert(words(w.drop_last()).len() == 0);
        assert(seq![w.last()] =~= w);
        assert(words(w) =~= seq![w]);
    } else {
        let rest = w.drop_last();
        assert forall|i: int| 0 <= i < rest.len() implies !is_white_space(#[trigger] rest[i]) by {
            assert(rest[i] == w[i]);
        }
        lemma_one_word(rest);
        assert(!is_white_space(w[w.len() - 2]));
        assert(rest.push(w.last()) =~= w);
        assert(words(rest).last() == rest);
        assert(words(w) == words(rest).drop_last().push(rest.push(w.last())));
        assert(words(w) =~= seq![w]);
    }
}

/// A text without white space at its ends or two in a row, and with nothing but
/// spaces, is on one line as it is.
pub proof fn lemma_tidy_text_is_kept(parts: Seq<Seq<char>>)
    requires
        forall|i: int| 0 <= i < parts.len() ==> (#[trigger] parts[i]).len() > 0,
        forall|i: int, j: int|
            0 <= i < parts.len() && 0 <= j < parts[i].len() ==> !is_white_space(
                #[trigger] parts[i][j],
            ),
    ensures
        words(join(parts, " "@)) == parts,
        normalized(join(parts, " "@)) == join(parts, " "@),
    decreases parts.len(),
{
    reveal_strlit(" ");
    let sep = " "@;
    assert(sep =~= seq![' ']);
    if parts.len() == 0 {
        assert(words(join(parts, sep)) =~= parts);
    } else if parts.len() == 1 {
        assert forall|j: int| 0 <= j < parts[0].len() implies !is_white_space(
            #[trigger] parts[0][j],
        ) by {}
        lemma_one_word(parts[0]);
        assert(words(join(parts, sep)) =~= parts);
    } else {
        let rest = parts.drop_last();
        let last = parts.last();
        assert forall|i: int| 0 <= i < rest.len() implies (#[trigger] rest[i]).len() > 0 by {
            assert(rest[i] == parts[i]);
        }
        assert forall|i: int, j: int| 0 <= i < rest.len() && 0 <= j < rest[i].len() implies
            !is_white_space(#[trigger] rest[i][j]) by {
            assert(rest[i][j] == parts[i][j]);
        }
        lemma_tidy_text_is_kept(rest);
        assert forall|j: int| 0 <= j < last.len() implies !is_white_space(#[trigger] last[j]) by {
            assert(last[j] == parts[parts.len() - 1][j]);
        }
        assert(parts[parts.len() - 1].len() > 0);
        lemma_one_word(last);
        lemma_words_of_both(join(rest, sep), ' ', last);
        assert(rest + seq![last] =~= parts);
    }
}

/// Replacing goes from left to right: what stands before the first occurrence is
/// kept, and so is a text without one.
pub proof fn lemma_replace_first(s: Seq<char>, pat: Seq<char>, to: Seq<char>, k: int)
    requires
        pat.len() > 0,
        occurs_at(s, pat, k),
        forall|i: int| 0 <= i < k ==> !#[trigger] occurs_at(s, pat, i),
    ensures
        replace(s, pat, to) == s.take(k) + to + replace(s.skip(k + pat.len()), pat, to),
{
    lemma_replace_before(s, pat, to, 0, k);
    lemma_replace_shift(s, pat, to, k + pat.len(), k + pat.len());
    assert(s.subrange(0, k) =~= s.take(k));
    assert(replace(s, pat, to) =~= s.take(k) + to + replace(s.skip(k + pat.len()), pat, to));
}

proof fn lemma_replace_before(s: Seq<char>, pat: Seq<char>, to: Seq<char>, i: int, k: int)
    requires
        pat.len() > 0,
        0 <= i <= k,
        occurs_at(s, pat, k),
        forall|j: int| i <= j < k ==> !#[trigger] occurs_at(s, pat, j),
    ensures
        replace_from(s, pat, to, i) == s.subrange(i, k) + (to + replace_from(
            s,
            pat,
            to,
            k + pat.len(),
        )),
    decreases k - i,
{
    let rest = to + replace_from(s, pat, to, k + pat.len());
    if i < k {
        assert(!occurs_at(s, pat, i));
        lemma_replace_before(s, pat, to, i + 1, k);
        assert(seq![s[i]] + (s.subrange(i + 1, k) + rest) =~= s.subrange(i, k) + rest);
    } else {
        assert(s.subrange(i, k) + rest =~= rest);
    }
}

proof fn lemma_replace_shift(s: Seq<char>, pat: Seq<char>, to: Seq<char>, d: int, i: int)
    requires
        0 <= d <= i <= s.len() || d <= s.len() < i,
        0 <= d,
    ensures
        replace_from(s, pat, to, i) == replace_from(s.skip(d), pat, to, i - d),
    decreases s.len() - i,
{
    let t = s.skip(d);
    if i < s.len() {
        assert(t[i - d] == s[i]);
        assert(occurs_at(s, pat, i) == occurs_at(t, pat, i - d)) by {
            if i + pat.len() <= s.len() {
                assert(s.subrange(i, i + pat.len()) =~= t.subrange(i - d, i - d + pat.len()));
            }
        }
        if pat.len() > 0 && occurs_at(s, pat, i) {
            lemma_replace_shift(s, pat, to, d, i + pat.len());
        } else {
            lemma_replace_shift(s, pat, to, d, i + 1);
        }
    }
}

/// A text without an occurrence stays as it is.
pub proof fn lemma_replace_none(s: Seq<char>, pat: Seq<char>, to: Seq<char>)
    requires
        forall|i: int| !#[trigger] occurs_at(s, pat, i),
    ensures
        replace(s, pat, to) == s,
{
    lemma_replace_none_from(s, pat, to, 0);
    assert(s.skip(0) =~= s);
}

proof fn lemma_replace_none_from(s: Seq<char>, pat: Seq<char>, to: Seq<char>, i: int)
    requires
        forall|j: int| !#[trigger] occurs_at(s, pat, j),
        0 <= i <= s.len(),
    ensures
        replace_from(s, pat, to, i) == s.skip(i),
    decreases s.len() - i,
{
    if i < s.len() {
        assert(!occurs_at(s, pat, i));
        lemma_replace_none_from(s, pat, to, i + 1);
        assert(seq![s[i]] + s.skip(i + 1) =~= s.skip(i));
    } else {
        assert(s.skip(i) =~= Seq::empty());
    }
}

/// Texts are equal whatever their case where they have the same length and at
/// each position the same character, or an ASCII letter and its counterpart.
pub proof fn lemma_equal_whatever_case(a: Seq<char>, b: Seq<char>)
    ensures
        eq_ignore_case(a, b) <==> a.len() == b.len() && forall|i: int|
            0 <= i < a.len() ==> #[trigger] a[i] == b[i] || is_counterpart(a[i], b[i])
                || is_counterpart(b[i], a[i]),
{
    let x = ascii_lowercase(a);
    let y = ascii_lowercase(b);
    if eq_ignore_case(a, b) {
        assert(x.len() == y.len());
        assert forall|i: int| 0 <= i < a.len() implies #[trigger] a[i] == b[i] || is_counterpart(
            a[i],
            b[i],
        ) || is_counterpart(b[i], a[i]) by {
            assert(x[i] == y[i]);
        }
    }
    if a.len() == b.len() && forall|i: int|
        0 <= i < a.len() ==> #[trigger] a[i] == b[i] || is_counterpart(a[i], b[i])
            || is_counterpart(b[i], a[i]) {
        assert forall|i: int| 0 <= i < x.len() implies x[i] == y[i] by {
            assert(a[i] == b[i] || is_counterpart(a[i], b[i]) || is_counterpart(b[i], a[i]));
        }
        assert(x =~= y);
    }
}

/// Whether a capital ASCII letter and a small one are the same letter.
pub open spec fn is_counterpart(capital: char, small: char) -> bool {
    'A' <= capital <= 'Z' && 'a' <= small <= 'z' && small as int - 'a' as int == capital as int
        - 'A' as int
}

} // verus!
