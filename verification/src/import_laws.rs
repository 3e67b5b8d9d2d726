//! What holds of the imports in AGENTS.md files: which mentions are imports, and
//! what path each stands for.

use vstd::prelude::*;

use crate::markers::occurrences;
use crate::md_imports::{
    imports_in, imports_of, line_imports, listed, mention_at, normalized_import, path_end,
    without_sentence_end,
};
use crate::search::has_prefix;
use crate::split::lines;
use crate::text::{is_white_space, trim_start};

verus! {

/// Whether a character ends the path of a mention.
pub open spec fn stops(c: char) -> bool {
    is_white_space(c) || c == '`' || c == '<' || c == '>' || c == '"' || c == '\'' || c == '(' || c
        == ')' || c == '[' || c == ']' || c == '{' || c == '}' || c == '#'
}

/// Whether a character may stand before a mention.
pub open spec fn leads(c: char) -> bool {
    is_white_space(c) || c == '(' || c == '[' || c == '<' || c == '"' || c == '\''
}

/// Whether a character at the end of a mention belongs to the sentence.
pub open spec fn punctuates(c: char) -> bool {
    c == '.' || c == ',' || c == ';' || c == ':'
}

/// Whether a mention begins at `p`: an at sign at the start of the line or
/// behind a character that may stand before one, outside inline code.
pub open spec fn is_mention(line: Seq<char>, p: int) -> bool {
    &&& 0 <= p < line.len()
    &&& line[p] == '@'
    &&& p == 0 || leads(line[p - 1])
    &&& occurrences(line.take(p), '`') % 2 == 0
}

/// Whether a mention that begins at `p` reaches up to `e`: no character before
/// `e` ends its path, and that at `e` does, or the line ends there.
pub open spec fn reaches(line: Seq<char>, p: int, e: int) -> bool {
    &&& p < e <= line.len()
    &&& forall|j: int| p < j < e ==> !stops(#[trigger] line[j])
    &&& e == line.len() || stops(line[e])
}

/// Whether a mention at `p` imports the path up to `f`: what it reaches, without
/// the punctuation at its end, names no scheme and has a separator or a dot in
/// it.
pub open spec fn is_import_at(line: Seq<char>, p: int, f: int) -> bool {
    &&& is_mention(line, p)
    &&& p + 1 < f <= line.len()
    &&& !punctuates(line[f - 1])
    &&& exists|e: int| #[trigger]
        reaches(line, p, e) && f <= e && forall|j: int| f <= j < e ==> punctuates(#[trigger] line[j])
    &&& !line.subrange(p + 1, f).contains(':')
    &&& line.subrange(p + 1, f).contains('/') || line.subrange(p + 1, f).contains('\\')
        || line.subrange(p + 1, f).contains('.')
}

/// Whether imports are those of the mentions of a line from `from` on, in order.
pub open spec fn are_imports_from(
    line: Seq<char>,
    from: int,
    imports: Seq<Seq<char>>,
    at: Seq<int>,
    to: Seq<int>,
) -> bool {
    &&& at.len() == imports.len()
    &&& to.len() == imports.len()
    &&& forall|j: int, k: int| 0 <= j < k < at.len() ==> #[trigger] at[j] < #[trigger] at[k]
    &&& forall|k: int|
        0 <= k < at.len() ==> from <= #[trigger] at[k] && is_import_at(line, at[k], to[k])
            && imports[k] == line.subrange(at[k] + 1, to[k])
    &&& forall|p: int, f: int|
        from <= p && #[trigger] is_import_at(line, p, f) ==> exists|k: int|
            0 <= k < at.len() && #[trigger] at[k] == p && to[k] == f
}

proof fn lemma_path_reaches(line: Seq<char>, p: int, from: int)
    requires
        0 <= p < from <= line.len(),
        forall|j: int| p < j < from ==> !stops(#[trigger] line[j]),
    ensures
        reaches(line, p, path_end(line, from)),
        from <= path_end(line, from),
    decreases line.len() - from,
{
    if from < line.len() && !stops(line[from]) {
        lemma_path_reaches(line, p, from + 1);
    }
}

proof fn lemma_ticks(line: Seq<char>, i: int, j: int)
    requires
        0 <= i <= j <= line.len(),
        forall|k: int| i <= k < j ==> #[trigger] line[k] != '`',
    ensures
        occurrences(line.take(j), '`') == occurrences(line.take(i), '`'),
    decreases j - i,
{
    if i < j {
        lemma_ticks(line, i, j - 1);
        assert(line.take(j).drop_last() =~= line.take(j - 1));
        assert(line.take(j).last() == line[j - 1]);
    }
}

proof fn lemma_sentence_end(s: Seq<char>)
    ensures
        without_sentence_end(s).len() <= s.len(),
        without_sentence_end(s) == s.take(without_sentence_end(s).len() as int),
        forall|i: int| without_sentence_end(s).len() <= i < s.len() ==> punctuates(#[trigger] s[i]),
        without_sentence_end(s).len() > 0 ==> !punctuates(without_sentence_end(s).last()),
    decreases s.len(),
{
    if s.len() > 0 && punctuates(s.last()) {
        let rest = s.drop_last();
        lemma_sentence_end(rest);
        let n = without_sentence_end(s).len() as int;
        assert(rest.take(n) =~= s.take(n));
        assert forall|i: int| n <= i < s.len() implies punctuates(#[trigger] s[i]) by {
            if i < rest.len() {
                assert(rest[i] == s[i]);
            }
        }
    } else {
        assert(s.take(s.len() as int) =~= s);
    }
}

/// A mention reaches up to one place, and stands for one path.
proof fn lemma_one_path(line: Seq<char>, p: int, e: int, f: int)
    requires
        reaches(line, p, e),
        is_import_at(line, p, f),
    ensures
        f <= e,
        forall|j: int| f <= j < e ==> punctuates(#[trigger] line[j]),
{
    let x = choose|x: int| #[trigger]
        reaches(line, p, x) && f <= x && forall|j: int|
            f <= j < x ==> punctuates(#[trigger] line[j]);
    if x < e {
        assert(stops(line[x]));
    }
    if e < x {
        assert(stops(line[e]));
    }
}

proof fn lemma_line_imports(line: Seq<char>, i: int, in_code: bool) -> (r: (Seq<int>, Seq<int>))
    requires
        0 <= i <= line.len(),
        in_code <==> occurrences(line.take(i), '`') % 2 == 1,
    ensures
        are_imports_from(line, i, line_imports(line, i, in_code), r.0, r.1),
    decreases line.len() - i,
{
    let imports = line_imports(line, i, in_code);
    if i >= line.len() {
        (Seq::empty(), Seq::empty())
    } else {
        assert(line.take(i + 1).drop_last() =~= line.take(i));
        assert(line.take(i + 1).last() == line[i]);
        if line[i] == '`' {
            let r = lemma_line_imports(line, i + 1, !in_code);
            assert(are_imports_from(line, i, imports, r.0, r.1));
            r
        } else if in_code || !mention_at(line, i) {
            assert(!is_mention(line, i));
            let r = lemma_line_imports(line, i + 1, in_code);
            assert forall|p: int, f: int|
                i <= p && #[trigger] is_import_at(line, p, f) implies exists|k: int|
                0 <= k < r.0.len() && #[trigger] r.0[k] == p && r.1[k] == f by {
                assert(p != i);
            }
            assert(are_imports_from(line, i, imports, r.0, r.1));
            r
        } else {
            assert(is_mention(line, i));
            lemma_path_reaches(line, i, i + 1);
            let e = path_end(line, i + 1);
            assert forall|k: int| i <= k < e implies #[trigger] line[k] != '`' by {
                if k > i {
                    assert(!stops(line[k]));
                }
            }
            lemma_ticks(line, i, e);
            let (at, to) = lemma_line_imports(line, e, in_code);
            let candidate = line.subrange(i + 1, e);
            let path = without_sentence_end(candidate);
            lemma_sentence_end(candidate);
            let f = i + 1 + path.len();
            assert(path =~= line.subrange(i + 1, f));
            assert forall|j: int| f <= j < e implies punctuates(#[trigger] line[j]) by {
                assert(candidate[j - i - 1] == line[j]);
            }
            assert forall|g: int| #[trigger] is_import_at(line, i, g) implies g == f by {
                lemma_one_path(line, i, e, g);
                if g < f {
                    assert(path.last() == line[f - 1]);
                    assert(punctuates(line[f - 1]));
                }
                if f < g {
                    assert(punctuates(line[g - 1]));
                }
            }
            assert forall|p: int, g: int| i < p < e implies !#[trigger] is_import_at(
                line,
                p,
                g,
            ) by {
                if is_mention(line, p) {
                    if p - 1 == i {
                        assert(line[i] == '@');
                    } else {
                        assert(!stops(line[p - 1]));
                    }
                }
            }
            let first = listed(normalized_import(candidate));
            let rest = line_imports(line, e, in_code);
            assert(imports == first + rest);
            if normalized_import(candidate) is Some {
                assert(path.last() == line[f - 1]);
                assert(reaches(line, i, e) && f <= e);
                assert(is_import_at(line, i, f));
                let starts = seq![i] + at;
                let ends = seq![f] + to;
                assert forall|k: int| 0 <= k < starts.len() implies i <= #[trigger] starts[k]
                    && is_import_at(line, starts[k], ends[k]) && imports[k] == line.subrange(
                    starts[k] + 1,
                    ends[k],
                ) by {
                    if k > 0 {
                        assert(starts[k] == at[k - 1]);
                        assert(ends[k] == to[k - 1]);
                        assert(imports[k] == rest[k - 1]);
                    }
                }
                assert forall|j: int, k: int| 0 <= j < k < starts.len() implies #[trigger] starts[j]
                    < #[trigger] starts[k] by {
                    assert(starts[k] == at[k - 1]);
                    if j > 0 {
                        assert(starts[j] == at[j - 1]);
                    }
                }
                assert forall|p: int, g: int|
                    i <= p && #[trigger] is_import_at(line, p, g) implies exists|k: int|
                    0 <= k < starts.len() && #[trigger] starts[k] == p && ends[k] == g by {
                    if p == i {
                        assert(starts[0] == p && ends[0] == g);
                    } else {
                        assert(p >= e);
                        let k = choose|k: int|
                            0 <= k < at.len() && #[trigger] at[k] == p && to[k] == g;
                        assert(starts[k + 1] == p && ends[k + 1] == g);
                    }
                }
                (starts, ends)
            } else {
                assert(!is_import_at(line, i, f));
                assert(imports =~= rest);
                assert forall|p: int, g: int|
                    i <= p && #[trigger] is_import_at(line, p, g) implies exists|k: int|
                    0 <= k < at.len() && #[trigger] at[k] == p && to[k] == g by {
                    assert(p >= e);
                }
                (at, to)
            }
        }
    }
}

/// The imports of a line are the paths of its mentions outside code, each taken
/// whole, and in the order of the mentions.
pub proof fn lemma_mentions_are_taken_whole(line: Seq<char>)
    ensures
        exists|at: Seq<int>, to: Seq<int>| #[trigger]
            are_imports_from(line, 0, line_imports(line, 0, false), at, to),
{
    assert(line.take(0) =~= Seq::empty());
    let (at, to) = lemma_line_imports(line, 0, false);
}

/// A path behind an at sign is imported as it is written, whatever is in it.
pub proof fn lemma_path_is_imported(path: Seq<char>)
    requires
        path.len() > 0,
        forall|i: int| 0 <= i < path.len() ==> !stops(#[trigger] path[i]),
        !punctuates(path.last()),
        !path.contains(':'),
        path.contains('/') || path.contains('\\') || path.contains('.'),
    ensures
        line_imports(seq!['@'] + path, 0, false) == seq![path],
{
    let line = seq!['@'] + path;
    assert(line.take(0) =~= Seq::empty());
    let (at, to) = lemma_line_imports(line, 0, false);
    let n = line.len() as int;
    assert(line.subrange(1, n) =~= path);
    assert forall|j: int| 0 < j < n implies !stops(#[trigger] line[j]) by {
        assert(line[j] == path[j - 1]);
    }
    assert(reaches(line, 0, n));
    assert(line[n - 1] == path.last());
    assert(is_import_at(line, 0, n));
    let k = choose|k: int| 0 <= k < at.len() && #[trigger] at[k] == 0 && to[k] == n;
    assert forall|j: int| 0 <= j < at.len() implies #[trigger] at[j] == 0 by {
        assert(is_import_at(line, at[j], to[j]));
        if at[j] > 1 {
            assert(!stops(line[at[j] - 1]));
        }
    }
    if at.len() > 1 {
        assert(at[0] < at[1]);
    }
    assert(line_imports(line, 0, false) =~= seq![path]);
}

/// Whether a line opens or closes a fenced block.
pub open spec fn fences(line: Seq<char>) -> bool {
    has_prefix(trim_start(line), "```"@) || has_prefix(trim_start(line), "~~~"@)
}

/// How many of the first `n` lines open or close a fenced block.
pub open spec fn fences_before(parts: Seq<Seq<char>>, n: int) -> nat {
    parts.take(n).filter(|line: Seq<char>| fences(line)).len()
}

/// The imports of each line: none of a fence, and none of a line that an odd
/// number of fences stands before.
pub open spec fn imports_by_line(parts: Seq<Seq<char>>) -> Seq<Seq<Seq<char>>> {
    Seq::new(
        parts.len(),
        |i: int|
            if fences(parts[i]) || fences_before(parts, i) % 2 == 1 {
                Seq::empty()
            } else {
                line_imports(parts[i], 0, false)
            },
    )
}

proof fn lemma_imports_by_line(parts: Seq<Seq<char>>, i: int, in_block: bool)
    requires
        0 <= i <= parts.len(),
        in_block <==> fences_before(parts, i) % 2 == 1,
    ensures
        imports_in(parts.skip(i), in_block) == imports_by_line(parts).skip(i).flatten(),
    decreases parts.len() - i,
{
    let all = imports_by_line(parts);
    let rest = parts.skip(i);
    if i >= parts.len() {
        assert(all.skip(i) =~= Seq::empty());
        assert(rest.len() == 0);
    } else {
        assert(parts.take(i + 1).drop_last() =~= parts.take(i));
        assert(parts.take(i + 1).last() == parts[i]);
        reveal(Seq::filter);
        assert(rest[0] == parts[i]);
        assert(rest.skip(1) =~= parts.skip(i + 1));
        let block = if fences(parts[i]) { !in_block } else { in_block };
        lemma_imports_by_line(parts, i + 1, block);
        assert(all.skip(i).drop_first() =~= all.skip(i + 1));
        assert(all.skip(i).first() == all[i]);
        assert(imports_in(rest, in_block) =~= all[i] + all.skip(i + 1).flatten());
    }
}

/// The imports of a file are those of its lines outside fenced blocks, line by
/// line.
pub proof fn lemma_imports_of_lines(contents: Seq<char>)
    ensures
        imports_of(contents) == imports_by_line(lines(contents)).flatten(),
{
    let parts = lines(contents);
    assert(parts.take(0) =~= Seq::empty());
    assert(fences_before(parts, 0) == 0) by {
        reveal(Seq::filter);
    }
    assert(parts.skip(0) =~= parts);
    assert(imports_by_line(parts).skip(0) =~= imports_by_line(parts));
    lemma_imports_by_line(parts, 0, false);
}

} // verus!
