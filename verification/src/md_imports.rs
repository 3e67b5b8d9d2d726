//! Imports in AGENTS.md files: `@path` mentions outside code.

use vstd::prelude::*;

use crate::search::{has_prefix, matches_at};
use crate::split::{lines, str_lines};
use crate::text::{
    char_texts, from_chars, is_white_space, lemma_texts_push, sub_chars, texts, to_chars,
    trim_start, trim_start_chars, white_space,
};

verus! {

/// Whether an import may follow a character.
pub open spec fn is_import_prefix(c: char) -> bool {
    is_white_space(c) || c == '(' || c == '[' || c == '<' || c == '"' || c == '\''
}

/// Whether a character may stand in the path of an import.
pub open spec fn is_import_path_char(c: char) -> bool {
    !is_white_space(c) && c != '`' && c != '<' && c != '>' && c != '"' && c != '\'' && c != '('
        && c != ')' && c != '[' && c != ']' && c != '{' && c != '}' && c != '#'
}

/// Whether a character at the end of a mention belongs to the sentence.
pub open spec fn is_sentence_end(c: char) -> bool {
    c == '.' || c == ',' || c == ';' || c == ':'
}

/// `s` without the punctuation at its end.
pub open spec fn without_sentence_end(s: Seq<char>) -> Seq<char>
    decreases s.len(),
{
    if s.len() > 0 && is_sentence_end(s.last()) {
        without_sentence_end(s.drop_last())
    } else {
        s
    }
}

/// Whether a text reads as a path: it is not empty, names no scheme, and has a
/// separator or a dot in it.
pub open spec fn is_path_like(s: Seq<char>) -> bool {
    s.len() > 0 && !s.contains(':') && (s.contains('/') || s.contains('\\') || s.contains('.'))
}

/// The path that a mention stands for, if any.
pub open spec fn normalized_import(candidate: Seq<char>) -> Option<Seq<char>> {
    let path = without_sentence_end(candidate);
    if is_path_like(path) {
        Some(path)
    } else {
        None
    }
}

/// Where the path that begins at `from` ends.
pub open spec fn path_end(line: Seq<char>, from: int) -> int
    decreases line.len() - from,
{
    if from < line.len() && is_import_path_char(line[from]) {
        path_end(line, from + 1)
    } else {
        from
    }
}

/// Whether a mention begins at `i`, outside code.
pub open spec fn mention_at(line: Seq<char>, i: int) -> bool {
    line[i] == '@' && (i == 0 || is_import_prefix(line[i - 1]))
}

/// A list of at most one text.
pub open spec fn listed(value: Option<Seq<char>>) -> Seq<Seq<char>> {
    match value {
        Some(value) => seq![value],
        None => Seq::empty(),
    }
}

/// The imports in the rest of a line, inside inline code or not.
pub open spec fn line_imports(line: Seq<char>, i: int, in_code: bool) -> Seq<Seq<char>>
    decreases line.len() - i,
{
    if i < 0 || i >= line.len() {
        Seq::empty()
    } else if line[i] == '`' {
        line_imports(line, i + 1, !in_code)
    } else if in_code || !mention_at(line, i) {
        line_imports(line, i + 1, in_code)
    } else {
        let end = path_end(line, i + 1);
        if end <= i || end > line.len() {
            Seq::empty()
        } else {
            listed(normalized_import(line.subrange(i + 1, end))) + line_imports(line, end, in_code)
        }
    }
}

/// Whether a line opens or closes a fenced block.
pub open spec fn is_fence(line: Seq<char>) -> bool {
    has_prefix(trim_start(line), "```"@) || has_prefix(trim_start(line), "~~~"@)
}

/// The imports in lines, of which the first is in a fenced block or not.
pub open spec fn imports_in(parts: Seq<Seq<char>>, in_block: bool) -> Seq<Seq<char>>
    decreases parts.len(),
{
    if parts.len() == 0 {
        Seq::empty()
    } else if is_fence(parts[0]) {
        imports_in(parts.skip(1), !in_block)
    } else if in_block {
        imports_in(parts.skip(1), in_block)
    } else {
        line_imports(parts[0], 0, false) + imports_in(parts.skip(1), in_block)
    }
}

/// The imports in a file.
pub open spec fn imports_of(contents: Seq<char>) -> Seq<Seq<char>> {
    imports_in(lines(contents), false)
}

/// Whether an import may follow a character; `None` is the start of the line.
pub fn is_agents_md_import_prefix(previous: Option<char>) -> (r: bool)
    ensures
        r == match previous {
            Some(c) => is_import_prefix(c),
            None => true,
        },
{
    match previous {
        Some(c) => white_space(c) || c == '(' || c == '[' || c == '<' || c == '"' || c == '\'',
        None => true,
    }
}

/// Whether a character may stand in the path of an import.
pub fn is_agents_md_import_path_char(c: char) -> (r: bool)
    ensures
        r == is_import_path_char(c),
{
    !white_space(c) && c != '`' && c != '<' && c != '>' && c != '"' && c != '\'' && c != '(' && c
        != ')' && c != '[' && c != ']' && c != '{' && c != '}' && c != '#'
}

fn contains_char(chars: &[char], c: char) -> (r: bool)
    ensures
        r == chars@.contains(c),
{
    let mut i: usize = 0;
    while i < chars.len()
        invariant
            i <= chars@.len(),
            forall|j: int| 0 <= j < i ==> chars@[j] != c,
        decreases chars.len() - i,
    {
        if chars[i] == c {
            assert(chars@[i as int] == c);
            return true;
        }
        i += 1;
    }
    false
}

/// The path that a mention stands for, if any.
pub fn normalize_agents_md_import_candidate(candidate: &[char]) -> (r: Option<String>)
    ensures
        match r {
            Some(path) => normalized_import(candidate@) == Some(path@),
            None => normalized_import(candidate@) is None,
        },
{
    let mut end: usize = candidate.len();
    assert(candidate@.take(end as int) =~= candidate@);
    while end > 0 && (candidate[end - 1] == '.' || candidate[end - 1] == ',' || candidate[end - 1]
        == ';' || candidate[end - 1] == ':')
        invariant
            end <= candidate@.len(),
            without_sentence_end(candidate@.take(end as int)) == without_sentence_end(candidate@),
        decreases end,
    {
        assert(candidate@.take(end as int).drop_last() =~= candidate@.take(end - 1));
        end -= 1;
    }
    let path = sub_chars(candidate, 0, end);
    assert(path@ =~= candidate@.take(end as int));
    if path.len() == 0 || contains_char(path.as_slice(), ':') {
        return None;
    }
    if contains_char(path.as_slice(), '/') || contains_char(path.as_slice(), '\\')
        || contains_char(path.as_slice(), '.') {
        Some(from_chars(path.as_slice()))
    } else {
        None
    }
}

proof fn lemma_path_end(line: Seq<char>, from: int)
    requires
        0 <= from <= line.len(),
    ensures
        from <= path_end(line, from) <= line.len(),
        forall|j: int| from <= j < path_end(line, from) ==> is_import_path_char(#[trigger] line[j]),
    decreases line.len() - from,
{
    if from < line.len() && is_import_path_char(line[from]) {
        lemma_path_end(line, from + 1);
    }
}

/// Adds the imports of a line.
pub fn extract_agents_md_imports_from_line(line: &[char], imports: &mut Vec<String>)
    ensures
        texts(final(imports)@) == texts(old(imports)@) + line_imports(line@, 0, false),
{
    let ghost start = texts(imports@);
    let ghost goal = line_imports(line@, 0, false);
    let mut in_code = false;
    let mut i: usize = 0;
    while i < line.len()
        invariant
            i <= line@.len(),
            start + goal == texts(imports@) + line_imports(line@, i as int, in_code),
        decreases line.len() - i,
    {
        let c = line[i];
        if c == '`' {
            in_code = !in_code;
            i += 1;
        } else {
            let previous = if i == 0 {
                None
            } else {
                Some(line[i - 1])
            };
            if c != '@' || in_code || !is_agents_md_import_prefix(previous) {
                i += 1;
            } else {
                let mut end: usize = i + 1;
                while end < line.len() && is_agents_md_import_path_char(line[end])
                    invariant
                        i < end <= line@.len(),
                        path_end(line@, end as int) == path_end(line@, i + 1),
                    decreases line.len() - end,
                {
                    end += 1;
                }
                let candidate = sub_chars(line, i + 1, end);
                let ghost before = texts(imports@);
                let ghost rest = line_imports(line@, end as int, in_code);
                let import = normalize_agents_md_import_candidate(candidate.as_slice());
                assert(candidate@ =~= line@.subrange(i + 1, end as int));
                match import {
                    Some(import) => {
                        proof {
                            lemma_texts_push(imports@, import);
                        }
                        imports.push(import);
                        assert(texts(imports@) + rest =~= before + (listed(
                            normalized_import(candidate@),
                        ) + rest));
                    },
                    None => {
                        assert(texts(imports@) + rest =~= before + (listed(
                            normalized_import(candidate@),
                        ) + rest));
                    },
                }
                i = end;
            }
        }
    }
    assert(texts(imports@) + line_imports(line@, i as int, in_code) =~= texts(imports@));
}

/// The imports in a file, in order.
pub fn extract_agents_md_imports(contents: &str) -> (r: Vec<String>)
    ensures
        texts(r@) == imports_of(contents@),
{
    let parts = str_lines(contents);
    let ghost all = char_texts(parts@);
    let backticks = to_chars("```");
    let tildes = to_chars("~~~");
    let mut imports: Vec<String> = Vec::new();
    let mut in_block = false;
    let mut i: usize = 0;
    assert(all.skip(0) =~= all);
    assert(texts(imports@) + imports_in(all, false) =~= imports_in(all, false));
    while i < parts.len()
        invariant
            i <= parts@.len(),
            all == char_texts(parts@),
            backticks@ == "```"@,
            tildes@ == "~~~"@,
            texts(imports@) + imports_in(all.skip(i as int), in_block) == imports_in(all, false),
        decreases parts.len() - i,
    {
        let ghost rest = all.skip(i as int);
        assert(rest[0] == parts@[i as int]@);
        assert(rest.skip(1) =~= all.skip(i + 1));
        let trimmed = trim_start_chars(parts[i].as_slice());
        if matches_at(trimmed.as_slice(), backticks.as_slice(), 0) || matches_at(
            trimmed.as_slice(),
            tildes.as_slice(),
            0,
        ) {
            assert(is_fence(rest[0]));
            in_block = !in_block;
        } else {
            assert(!is_fence(rest[0]));
            if !in_block {
                let ghost before = texts(imports@);
                extract_agents_md_imports_from_line(parts[i].as_slice(), &mut imports);
                assert(texts(imports@) + imports_in(all.skip(i + 1), false) =~= before + (
                line_imports(rest[0], 0, false) + imports_in(all.skip(i + 1), false)));
            }
        }
        i += 1;
    }
    assert(all.skip(i as int).len() == 0);
    assert(texts(imports@) + Seq::<Seq<char>>::empty() =~= texts(imports@));
    imports
}

proof fn lemma_without_sentence_end(s: Seq<char>)
    ensures
        without_sentence_end(s).len() <= s.len(),
        without_sentence_end(s) == s.take(without_sentence_end(s).len() as int),
    decreases s.len(),
{
    if s.len() > 0 && is_sentence_end(s.last()) {
        lemma_without_sentence_end(s.drop_last());
        let k = without_sentence_end(s).len() as int;
        assert(s.drop_last().take(k) =~= s.take(k));
    } else {
        assert(s.take(s.len() as int) =~= s);
    }
}

/// Whether a text reads as a path, in characters that may stand in one.
pub open spec fn is_import_path(s: Seq<char>) -> bool {
    is_path_like(s) && forall|j: int| 0 <= j < s.len() ==> is_import_path_char(#[trigger] s[j])
}

/// Every import of a line reads as a path, in characters that may stand in one.
pub proof fn lemma_imports_are_paths(line: Seq<char>, i: int, in_code: bool)
    requires
        0 <= i <= line.len(),
    ensures
        forall|k: int|
            0 <= k < line_imports(line, i, in_code).len() ==> is_import_path(
                #[trigger] line_imports(line, i, in_code)[k],
            ),
    decreases line.len() - i,
{
    let all = line_imports(line, i, in_code);
    if i < line.len() {
        if line[i] == '`' {
            lemma_imports_are_paths(line, i + 1, !in_code);
            assert(all == line_imports(line, i + 1, !in_code));
        } else if in_code || !mention_at(line, i) {
            lemma_imports_are_paths(line, i + 1, in_code);
            assert(all == line_imports(line, i + 1, in_code));
        } else {
            lemma_path_end(line, i + 1);
            let end = path_end(line, i + 1);
            let candidate = line.subrange(i + 1, end);
            lemma_imports_are_paths(line, end, in_code);
            lemma_without_sentence_end(candidate);
            assert forall|j: int| 0 <= j < candidate.len() implies is_import_path_char(
                #[trigger] candidate[j],
            ) by {
                assert(candidate[j] == line[i + 1 + j]);
            }
            let first = listed(normalized_import(candidate));
            let rest = line_imports(line, end, in_code);
            assert(all == first + rest);
            assert forall|k: int| 0 <= k < all.len() implies is_import_path(#[trigger] all[k]) by {
                if k >= first.len() {
                    assert(all[k] == rest[k - first.len()]);
                } else {
                    let path = without_sentence_end(candidate);
                    assert(all[k] == path);
                    assert forall|j: int| 0 <= j < path.len() implies is_import_path_char(
                        #[trigger] path[j],
                    ) by {
                        assert(path[j] == candidate[j]);
                    }
                }
            }
        }
    }
}

/// Nothing in inline code is imported: from a backtick on, only what follows
/// the next backtick counts.
pub proof fn lemma_inline_code_is_not_imported(line: Seq<char>, i: int, j: int)
    requires
        0 <= i < j < line.len(),
        line[i] == '`',
        line[j] == '`',
        forall|k: int| i < k < j ==> line[k] != '`',
    ensures
        line_imports(line, i, false) == line_imports(line, j + 1, false),
{
    lemma_code_is_skipped(line, i + 1, j);
}

proof fn lemma_code_is_skipped(line: Seq<char>, i: int, j: int)
    requires
        0 <= i <= j < line.len(),
        line[j] == '`',
        forall|k: int| i <= k < j ==> line[k] != '`',
    ensures
        line_imports(line, i, true) == line_imports(line, j + 1, false),
    decreases j - i,
{
    if i < j {
        assert(line[i] != '`');
        lemma_code_is_skipped(line, i + 1, j);
    }
}

/// Nothing in a fenced block is imported: from a fence on, only what follows
/// the next fence counts.
pub proof fn lemma_fenced_block_is_not_imported(parts: Seq<Seq<char>>, j: int)
    requires
        0 < j < parts.len(),
        is_fence(parts[0]),
        is_fence(parts[j]),
        forall|k: int| 0 < k < j ==> !is_fence(#[trigger] parts[k]),
    ensures
        imports_in(parts, false) == imports_in(parts.skip(j + 1), false),
{
    let rest = parts.skip(1);
    assert forall|k: int| 0 <= k < j - 1 implies !is_fence(#[trigger] rest[k]) by {
        assert(rest[k] == parts[k + 1]);
    }
    lemma_block_is_skipped(rest, j - 1);
    assert(rest.skip(j) =~= parts.skip(j + 1));
}

proof fn lemma_block_is_skipped(parts: Seq<Seq<char>>, j: int)
    requires
        0 <= j < parts.len(),
        is_fence(parts[j]),
        forall|k: int| 0 <= k < j ==> !is_fence(#[trigger] parts[k]),
    ensures
        imports_in(parts, true) == imports_in(parts.skip(j + 1), false),
    decreases j,
{
    if j > 0 {
        let rest = parts.skip(1);
        assert forall|k: int| 0 <= k < j - 1 implies !is_fence(#[trigger] rest[k]) by {
            assert(rest[k] == parts[k + 1]);
        }
        lemma_block_is_skipped(rest, j - 1);
        assert(rest.skip(j) =~= parts.skip(j + 1));
    }
}

} // verus!
