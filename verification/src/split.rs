//! Splitting of texts into words, lines and fields, and joining of parts.

use vstd::prelude::*;

use crate::text::{char_texts, is_white_space, sub_chars, texts, to_chars, white_space};

verus! {

/// The maximal runs of characters other than white space, in order.
pub open spec fn words(s: Seq<char>) -> Seq<Seq<char>>
    decreases s.len(),
{
    if s.len() == 0 {
        Seq::empty()
    } else {
        let before = words(s.drop_last());
        if is_white_space(s.last()) {
            before
        } else if s.len() == 1 || is_white_space(s[s.len() - 2]) {
            before.push(seq![s.last()])
        } else {
            before.drop_last().push(before.last().push(s.last()))
        }
    }
}

/// `parts` one after the other, with `sep` between neighbours.
pub open spec fn join(parts: Seq<Seq<char>>, sep: Seq<char>) -> Seq<char>
    decreases parts.len(),
{
    if parts.len() == 0 {
        Seq::empty()
    } else if parts.len() == 1 {
        parts[0]
    } else {
        join(parts.drop_last(), sep) + sep + parts.last()
    }
}

/// The first position from `from` on at which `c` stands; the length of `s`
/// where there is none.
pub open spec fn find_char(s: Seq<char>, c: char, from: int) -> int
    decreases s.len() - from,
{
    if from >= s.len() {
        s.len() as int
    } else if s[from] == c {
        from
    } else {
        find_char(s, c, from + 1)
    }
}

/// `s` without a carriage return at its end.
pub open spec fn strip_cr(s: Seq<char>) -> Seq<char> {
    if s.len() > 0 && s.last() == '\r' {
        s.drop_last()
    } else {
        s
    }
}

/// The lines of `s`: a line ends with a line feed, before which one carriage
/// return belongs to the line ending; the ending of the last line is optional.
pub open spec fn lines(s: Seq<char>) -> Seq<Seq<char>>
    decreases s.len(),
{
    let k = find_char(s, '\n', 0);
    if s.len() == 0 {
        Seq::empty()
    } else if k >= s.len() || k < 0 {
        seq![s]
    } else {
        seq![strip_cr(s.take(k))] + lines(s.skip(k + 1))
    }
}

/// The parts of `s` between the occurrences of `c`.
pub open spec fn fields(s: Seq<char>, c: char) -> Seq<Seq<char>>
    decreases s.len(),
{
    let k = find_char(s, c, 0);
    if k >= s.len() || k < 0 {
        seq![s]
    } else {
        seq![s.take(k)] + fields(s.skip(k + 1), c)
    }
}

/// Where `find_char` stops.
pub proof fn lemma_find_char(s: Seq<char>, c: char, from: int)
    requires
        0 <= from <= s.len(),
    ensures
        from <= find_char(s, c, from) <= s.len(),
        find_char(s, c, from) < s.len() ==> s[find_char(s, c, from)] == c,
        forall|i: int| from <= i < find_char(s, c, from) ==> s[i] != c,
    decreases s.len() - from,
{
    if from < s.len() && s[from] != c {
        lemma_find_char(s, c, from + 1);
    }
}

/// There are words exactly in a text that is not blank, and none is empty.
pub proof fn lemma_words(s: Seq<char>)
    ensures
        s.len() > 0 && !is_white_space(s.last()) ==> words(s).len() > 0,
        words(s).len() == 0 <==> crate::text::is_blank(s),
        forall|i: int|
            0 <= i < words(s).len() ==> (#[trigger] words(s)[i]).len() > 0,
        forall|i: int, j: int|
            0 <= i < words(s).len() && 0 <= j < words(s)[i].len() ==> !is_white_space(
                #[trigger] words(s)[i][j],
            ),
    decreases s.len(),
{
    if s.len() > 0 {
        let rest = s.drop_last();
        lemma_words(rest);
        if is_white_space(s.last()) {
            assert(crate::text::is_blank(rest) ==> crate::text::is_blank(s)) by {
                if crate::text::is_blank(rest) {
                    assert forall|i: int| 0 <= i < s.len() implies is_white_space(
                        #[trigger] s[i],
                    ) by {
                        if i < s.len() - 1 {
                            assert(s[i] == rest[i]);
                        }
                    }
                }
            }
            assert(crate::text::is_blank(s) ==> crate::text::is_blank(rest));
        } else {
            assert(!crate::text::is_blank(s)) by {
                assert(!is_white_space(s[s.len() - 1]));
            }
            if !(s.len() == 1 || is_white_space(s[s.len() - 2])) {
                assert(rest.last() == s[s.len() - 2]);
            }
            assert forall|i: int, j: int|
                0 <= i < words(s).len() && 0 <= j < words(s)[i].len() implies !is_white_space(
                #[trigger] words(s)[i][j],
            ) by {
                if i < words(s).len() - 1 {
                    assert(words(s)[i] == words(rest)[i]);
                } else if s.len() == 1 || is_white_space(s[s.len() - 2]) {
                } else if j < words(s)[i].len() - 1 {
                    assert(words(s)[i][j] == words(rest)[i][j]);
                }
            }
        }
    }
}

/// Splits at white space.
pub fn split_white_space(chars: &[char]) -> (parts: Vec<Vec<char>>)
    ensures
        char_texts(parts@) == words(chars@),
{
    let mut parts: Vec<Vec<char>> = Vec::new();
    let mut current: Vec<char> = Vec::new();
    let mut i: usize = 0;
    assert(char_texts(parts@) =~= words(chars@.take(0)));
    while i < chars.len()
        invariant
            i <= chars.len(),
            current@.len() > 0 <==> (i > 0 && !is_white_space(chars@[i - 1])),
            words(chars@.take(i as int)) == if current@.len() > 0 {
                char_texts(parts@).push(current@)
            } else {
                char_texts(parts@)
            },
        decreases chars.len() - i,
    {
        let c: char = chars[i];
        let ghost head = chars@.take(i as int);
        let ghost next = chars@.take(i + 1);
        assert(next.drop_last() =~= head);
        assert(next.last() == c);
        assert(i > 0 ==> next[next.len() - 2] == chars@[i - 1]);
        if white_space(c) {
            if current.len() > 0 {
                let ghost before = parts@;
                let ghost word = current@;
                parts.push(current);
                current = Vec::new();
                assert(char_texts(parts@) =~= char_texts(before).push(word));
            }
        } else {
            let ghost before = current@;
            current.push(c);
            proof {
                if before.len() > 0 {
                    assert(words(head).drop_last() =~= char_texts(parts@));
                } else {
                    assert(current@ =~= seq![c]);
                }
            }
        }
        i += 1;
    }
    assert(chars@.take(i as int) =~= chars@);
    if current.len() > 0 {
        let ghost before = parts@;
        let ghost word = current@;
        parts.push(current);
        assert(char_texts(parts@) =~= char_texts(before).push(word));
    }
    parts
}

/// Joins character sequences.
pub fn join_chars(parts: &Vec<Vec<char>>, sep: &[char]) -> (r: Vec<char>)
    ensures
        r@ == join(char_texts(parts@), sep@),
{
    let mut r: Vec<char> = Vec::new();
    let mut i: usize = 0;
    assert(join(char_texts(parts@).take(0), sep@) =~= Seq::empty());
    while i < parts.len()
        invariant
            i <= parts.len(),
            r@ == join(char_texts(parts@).take(i as int), sep@),
        decreases parts.len() - i,
    {
        let ghost before = r@;
        let ghost all = char_texts(parts@);
        if i > 0 {
            r.extend_from_slice(sep);
            assert(r@ =~= before + sep@);
        }
        let ghost mid = r@;
        r.extend_from_slice(parts[i].as_slice());
        assert(r@ =~= mid + parts@[i as int]@);
        assert(all.take(i + 1).drop_last() =~= all.take(i as int));
        assert(all.take(i + 1).last() == parts@[i as int]@);
        if i == 0 {
            assert(r@ =~= parts@[i as int]@);
        }
        i += 1;
    }
    assert(char_texts(parts@).take(i as int) =~= char_texts(parts@));
    r
}

/// Joins strings.
pub fn join_strings(parts: &Vec<String>, sep: &str) -> (r: String)
    ensures
        r@ == join(texts(parts@), sep@),
{
    let mut r = String::new();
    let mut i: usize = 0;
    assert(join(texts(parts@).take(0), sep@) =~= Seq::empty());
    while i < parts.len()
        invariant
            i <= parts.len(),
            r@ == join(texts(parts@).take(i as int), sep@),
        decreases parts.len() - i,
    {
        let ghost before = r@;
        let ghost all = texts(parts@);
        if i > 0 {
            r.append(sep);
        }
        r.append(parts[i].as_str());
        assert(all.take(i + 1).drop_last() =~= all.take(i as int));
        assert(all.take(i + 1).last() == parts@[i as int]@);
        if i == 0 {
            assert(r@ =~= parts@[i as int]@);
        }
        i += 1;
    }
    assert(texts(parts@).take(i as int) =~= texts(parts@));
    r
}

/// Finds a character.
pub fn find_char_from(chars: &[char], c: char, from: usize) -> (k: usize)
    requires
        from <= chars@.len(),
    ensures
        k == find_char(chars@, c, from as int),
        from <= k <= chars@.len(),
{
    let mut k: usize = from;
    while k < chars.len() && chars[k] != c
        invariant
            from <= k <= chars.len(),
            find_char(chars@, c, from as int) == find_char(chars@, c, k as int),
        decreases chars.len() - k,
    {
        k += 1;
    }
    k
}

/// Finding in a suffix.
proof fn lemma_find_char_skip(s: Seq<char>, c: char, start: int, from: int)
    requires
        0 <= start <= from <= s.len(),
    ensures
        find_char(s, c, from) == start + find_char(s.skip(start), c, from - start),
    decreases s.len() - from,
{
    if from < s.len() {
        assert(s.skip(start)[from - start] == s[from]);
        if s[from] != c {
            lemma_find_char_skip(s, c, start, from + 1);
        }
    }
}

/// Splits into lines.
pub fn split_lines(chars: &[char]) -> (parts: Vec<Vec<char>>)
    ensures
        char_texts(parts@) == lines(chars@),
{
    let mut parts: Vec<Vec<char>> = Vec::new();
    let mut start: usize = 0;
    assert(chars@.skip(0) =~= chars@);
    assert(char_texts(parts@) + lines(chars@) =~= lines(chars@));
    while start < chars.len()
        invariant
            start <= chars.len(),
            lines(chars@) == char_texts(parts@) + lines(chars@.skip(start as int)),
        decreases chars.len() - start,
    {
        let ghost before = parts@;
        let ghost rest = chars@.skip(start as int);
        let k = find_char_from(chars, '\n', start);
        proof {
            lemma_find_char_skip(chars@, '\n', start as int, start as int);
        }
        if k == chars.len() {
            let line = sub_chars(chars, start, k);
            assert(line@ =~= rest);
            parts.push(line);
            start = k;
            assert(char_texts(parts@) =~= char_texts(before).push(rest));
            assert(lines(chars@.skip(start as int)) =~= Seq::empty());
            assert(char_texts(parts@) + lines(chars@.skip(start as int)) =~= char_texts(before)
                + lines(rest));
        } else {
            let end: usize = if k > start && chars[k - 1] == '\r' {
                k - 1
            } else {
                k
            };
            let line = sub_chars(chars, start, end);
            let ghost j = k - start;
            assert(rest.take(j) =~= chars@.subrange(start as int, k as int));
            assert(line@ =~= strip_cr(rest.take(j)));
            let ghost text = line@;
            parts.push(line);
            assert(char_texts(parts@) =~= char_texts(before).push(text));
            assert(rest.skip(j + 1) =~= chars@.skip(k + 1));
            start = k + 1;
            assert(char_texts(parts@) + lines(chars@.skip(start as int)) =~= char_texts(before)
                + lines(rest));
        }
    }
    assert(lines(chars@.skip(start as int)) =~= Seq::empty());
    assert(char_texts(parts@) + lines(chars@.skip(start as int)) =~= char_texts(parts@));
    parts
}

/// Splits at every occurrence of a character.
pub fn split_fields(chars: &[char], c: char) -> (parts: Vec<Vec<char>>)
    ensures
        char_texts(parts@) == fields(chars@, c),
{
    let mut parts: Vec<Vec<char>> = Vec::new();
    let mut start: usize = 0;
    let mut k: usize = find_char_from(chars, c, 0);
    assert(chars@.skip(0) =~= chars@);
    assert(char_texts(parts@) + fields(chars@, c) =~= fields(chars@, c));
    while k < chars.len()
        invariant
            start <= k <= chars.len(),
            k == find_char(chars@, c, start as int),
            fields(chars@, c) == char_texts(parts@) + fields(chars@.skip(start as int), c),
        decreases chars.len() - start,
    {
        let ghost before = parts@;
        let ghost rest = chars@.skip(start as int);
        proof {
            lemma_find_char_skip(chars@, c, start as int, start as int);
        }
        let part = sub_chars(chars, start, k);
        let ghost j = k - start;
        assert(rest.take(j) =~= part@);
        let ghost text = part@;
        parts.push(part);
        assert(char_texts(parts@) =~= char_texts(before).push(text));
        assert(rest.skip(j + 1) =~= chars@.skip(k + 1));
        start = k + 1;
        k = find_char_from(chars, c, start);
        assert(char_texts(parts@) + fields(chars@.skip(start as int), c) =~= char_texts(before)
            + fields(rest, c));
    }
    proof {
        lemma_find_char_skip(chars@, c, start as int, start as int);
    }
    let ghost before = parts@;
    let part = sub_chars(chars, start, chars.len());
    assert(part@ =~= chars@.skip(start as int));
    let ghost text = part@;
    parts.push(part);
    assert(char_texts(parts@) =~= char_texts(before) + seq![text]);
    parts
}

/// The lines of a string.
pub fn str_lines(s: &str) -> (parts: Vec<Vec<char>>)
    ensures
        char_texts(parts@) == lines(s@),
{
    let chars = to_chars(s);
    split_lines(chars.as_slice())
}

} // verus!
