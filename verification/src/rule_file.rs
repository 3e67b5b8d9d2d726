//! Rule files: markdown with a small frontmatter header.
//!
//! The frontmatter decides the rule's context class instead of dumping every
//! rule into the prompt:
//!
//! - `always_apply: true`: the body is injected every turn.
//! - `globs: src/**/*.rs, tests/**`: the body is injected once a file touched
//!   this session matches; until then only the index line is visible.
//! - `description: ...` only: listed in a bounded index so the model can read
//!   the file when the description becomes relevant.
//! - bare file: index line with path only (manual reference).

use vstd::prelude::*;

use crate::order::{add_sorted, sorted_unique};
use crate::paths::{path_stem, tells_name, title};
use crate::search::{occurs_at, split_once, split_once_chars};
use crate::split::{fields, join, join_chars, lines, split_fields, str_lines};
use crate::text::{
    char_texts, chars_eq, clone_opt, clone_strings, eq_ignore_case, from_chars, lemma_texts_push,
    opt_text, owned, str_eq, str_eq_ignore_case, texts, to_chars, trim, trim_chars,
};

verus! {

/// Most rules that one directory contributes.
pub const MAX_RULES_PER_SOURCE_DIR: usize = 64;

/// A rule.
#[derive(Debug, PartialEq, Eq)]
pub struct LinkRule {
    pub name: String,
    /// The path of its file, as the host shows it.
    pub path: String,
    pub description: Option<String>,
    pub globs: Vec<String>,
    pub always_apply: bool,
    pub body: String,
}

/// The texts of a [`LinkRule`].
pub struct RuleView {
    pub name: Seq<char>,
    pub path: Seq<char>,
    pub description: Option<Seq<char>>,
    pub globs: Seq<Seq<char>>,
    pub always_apply: bool,
    pub body: Seq<char>,
}

impl View for LinkRule {
    type V = RuleView;

    open spec fn view(&self) -> RuleView {
        RuleView {
            name: self.name@,
            path: self.path@,
            description: opt_text(self.description),
            globs: texts(self.globs@),
            always_apply: self.always_apply,
            body: self.body@,
        }
    }
}

/// Whether a line opens or closes the header.
pub open spec fn is_fence(line: Seq<char>) -> bool {
    trim(line) == "---"@
}

/// The patterns of a comma-separated list: trimmed, without empty ones.
pub open spec fn trimmed_parts(parts: Seq<Seq<char>>) -> Seq<Seq<char>>
    decreases parts.len(),
{
    if parts.len() == 0 {
        Seq::empty()
    } else {
        let before = trimmed_parts(parts.drop_last());
        if trim(parts.last()).len() == 0 {
            before
        } else {
            before.push(trim(parts.last()))
        }
    }
}

/// A rule after one line of its header.
pub open spec fn with_header_line(rule: RuleView, line: Seq<char>) -> RuleView {
    match split_once(line, ":"@) {
        None => rule,
        Some((before, after)) => {
            let key = trim(before);
            let value = trim(after);
            if key == "description"@ {
                if value.len() == 0 {
                    rule
                } else {
                    RuleView { description: Some(value), ..rule }
                }
            } else if key == "globs"@ {
                RuleView { globs: trimmed_parts(fields(value, ',')), ..rule }
            } else if key == "always_apply"@ || key == "alwaysApply"@ {
                RuleView { always_apply: eq_ignore_case(value, "true"@), ..rule }
            } else {
                rule
            }
        },
    }
}

/// A rule after the lines of its header.
pub open spec fn with_header(rule: RuleView, header: Seq<Seq<char>>) -> RuleView
    decreases header.len(),
{
    if header.len() == 0 {
        rule
    } else {
        with_header_line(with_header(rule, header.drop_last()), header.last())
    }
}

/// A rule without any properties.
pub open spec fn bare_rule(name: Seq<char>, path: Seq<char>, body: Seq<char>) -> RuleView {
    RuleView {
        name,
        path,
        description: None,
        globs: Seq::empty(),
        always_apply: false,
        body,
    }
}

/// The position of the first fence from `from` on; the number of lines where
/// there is none.
pub open spec fn fence_position(all: Seq<Seq<char>>, from: int) -> int
    decreases all.len() - from,
{
    if from >= all.len() {
        all.len() as int
    } else if is_fence(all[from]) {
        from
    } else {
        fence_position(all, from + 1)
    }
}

/// The rule that a file holds. A file that does not begin with a header, or
/// whose header is never closed, is all body, so that no rule is silently
/// dropped.
pub open spec fn parsed_rule(name: Seq<char>, path: Seq<char>, contents: Seq<char>) -> RuleView {
    let all = lines(contents);
    let close = fence_position(all, 1);
    if all.len() == 0 || !is_fence(all[0]) || close >= all.len() {
        bare_rule(name, path, contents)
    } else {
        RuleView {
            body: trim(join(all.skip(close + 1), "\n"@)),
            ..with_header(bare_rule(name, path, Seq::empty()), all.subrange(1, close))
        }
    }
}

/// Whether a file name has the extension of rule files.
pub open spec fn is_rule_file(name: Seq<char>) -> bool {
    name.len() > 3 && occurs_at(name, ".md"@, name.len() - 3)
}

/// The file names that have the extension of rule files.
pub open spec fn rule_names(names: Seq<Seq<char>>) -> Seq<Seq<char>>
    decreases names.len(),
{
    if names.len() == 0 {
        Seq::empty()
    } else if is_rule_file(names.last()) {
        rule_names(names.drop_last()).push(names.last())
    } else {
        rule_names(names.drop_last())
    }
}

/// The first values of a list.
pub open spec fn first_of_list(values: Seq<Seq<char>>, n: int) -> Seq<Seq<char>> {
    if values.len() > n {
        values.take(n)
    } else {
        values
    }
}

impl Clone for LinkRule {
    fn clone(&self) -> (r: Self)
        ensures
            r@ == self@,
    {
        LinkRule {
            name: self.name.clone(),
            path: self.path.clone(),
            description: clone_opt(&self.description),
            globs: clone_strings(&self.globs),
            always_apply: self.always_apply,
            body: self.body.clone(),
        }
    }
}

fn bare(name: String, path: String, body: String) -> (r: LinkRule)
    ensures
        r@ == bare_rule(name@, path@, body@),
{
    let r = LinkRule {
        name,
        path,
        description: None,
        globs: Vec::new(),
        always_apply: false,
        body,
    };
    assert(texts(r.globs@) =~= Seq::empty());
    r
}

fn fence(line: &[char]) -> (r: bool)
    ensures
        r == is_fence(line@),
{
    let mark = to_chars("---");
    chars_eq(trim_chars(line).as_slice(), mark.as_slice())
}

fn split_patterns(value: &[char]) -> (r: Vec<String>)
    ensures
        texts(r@) == trimmed_parts(fields(value@, ',')),
{
    let parts = split_fields(value, ',');
    let ghost all = char_texts(parts@);
    let mut r: Vec<String> = Vec::new();
    let mut i: usize = 0;
    assert(all.take(0) =~= Seq::empty());
    assert(texts(r@) =~= Seq::empty());
    while i < parts.len()
        invariant
            i <= parts.len(),
            all == char_texts(parts@),
            texts(r@) == trimmed_parts(all.take(i as int)),
        decreases parts.len() - i,
    {
        assert(all.take(i + 1).drop_last() =~= all.take(i as int));
        assert(all.take(i + 1).last() == parts@[i as int]@);
        let part = trim_chars(parts[i].as_slice());
        if part.len() > 0 {
            let text = from_chars(part.as_slice());
            proof {
                lemma_texts_push(r@, text);
            }
            r.push(text);
        }
        i += 1;
    }
    assert(all.take(i as int) =~= all);
    r
}

fn apply_header_line(rule: &mut LinkRule, line: &[char])
    ensures
        final(rule)@ == with_header_line(old(rule)@, line@),
{
    let colon = to_chars(":");
    match split_once_chars(line, colon.as_slice()) {
        None => {},
        Some((before, after)) => {
            let key = from_chars(trim_chars(before.as_slice()).as_slice());
            let value = trim_chars(after.as_slice());
            let key = key.as_str();
            if str_eq(key, "description") {
                if value.len() > 0 {
                    rule.description = Some(from_chars(value.as_slice()));
                }
            } else if str_eq(key, "globs") {
                rule.globs = split_patterns(value.as_slice());
            } else if str_eq(key, "always_apply") || str_eq(key, "alwaysApply") {
                let value = from_chars(value.as_slice());
                rule.always_apply = str_eq_ignore_case(value.as_str(), "true");
            }
        },
    }
}

fn find_fence(all: &Vec<Vec<char>>, from: usize) -> (r: usize)
    requires
        from <= all.len(),
    ensures
        r == fence_position(char_texts(all@), from as int),
        from <= r <= all.len(),
{
    let ghost views = char_texts(all@);
    let mut i: usize = from;
    while i < all.len()
        invariant
            from <= i <= all.len(),
            views == char_texts(all@),
            fence_position(views, from as int) == fence_position(views, i as int),
        decreases all.len() - i,
    {
        if fence(all[i].as_slice()) {
            return i;
        }
        i += 1;
    }
    i
}

/// Parses the contents of a rule file: optional `---`-delimited frontmatter
/// with `description`, `globs` (comma-separated), and `always_apply` keys,
/// followed by the markdown body.
pub fn parse_rule_text(name: &str, path: &str, contents: &str) -> (r: LinkRule)
    ensures
        r@ == parsed_rule(name@, path@, contents@),
{
    let all = str_lines(contents);
    let ghost views = char_texts(all@);
    if all.len() == 0 || !fence(all[0].as_slice()) {
        return bare(owned(name), owned(path), owned(contents));
    }
    let close = find_fence(&all, 1);
    if close >= all.len() {
        // The header is never closed: the whole file is body, so that the rule
        // is never silently dropped.
        return bare(owned(name), owned(path), owned(contents));
    }
    let empty = String::new();
    assert(empty@ =~= Seq::empty());
    let mut rule = bare(owned(name), owned(path), empty);
    let ghost start = rule@;
    let ghost header = views.subrange(1, close as int);
    let mut i: usize = 1;
    assert(header.take(0) =~= Seq::empty());
    while i < close
        invariant
            1 <= i <= close,
            close < all.len(),
            views == char_texts(all@),
            header == views.subrange(1, close as int),
            rule@ == with_header(start, header.take(i - 1)),
        decreases close - i,
    {
        assert(header.take(i as int).drop_last() =~= header.take(i - 1));
        assert(header.take(i as int).last() == all@[i as int]@);
        apply_header_line(&mut rule, all[i].as_slice());
        i += 1;
    }
    assert(header.take(i - 1) =~= header);
    let mut rest: Vec<Vec<char>> = Vec::new();
    let mut j: usize = close + 1;
    assert(char_texts(rest@) =~= views.subrange(close + 1, j as int));
    while j < all.len()
        invariant
            close < j <= all.len(),
            views == char_texts(all@),
            char_texts(rest@) == views.subrange(close + 1, j as int),
        decreases all.len() - j,
    {
        let ghost before = rest@;
        let line: Vec<char> = all[j].clone();
        assert(line@ =~= all@[j as int]@);
        rest.push(line);
        assert(char_texts(rest@) =~= char_texts(before).push(line@));
        assert(views.subrange(close + 1, j + 1) =~= views.subrange(close + 1, j as int).push(
            views[j as int],
        ));
        j += 1;
    }
    assert(char_texts(rest@) =~= views.skip(close + 1));
    let line_feed = to_chars("\n");
    let body = join_chars(&rest, line_feed.as_slice());
    rule.body = from_chars(trim_chars(body.as_slice()).as_slice());
    rule
}

/// The name of the rule of a file: the file's own without its extension, or
/// `rule` where the path ends with none.
pub open spec fn rule_name(path: Seq<char>) -> Seq<char> {
    match title(path) {
        Some(name) => name,
        None => "rule"@,
    }
}

/// Parses a rule file. The rule's name is the stem of the file's name, or
/// `rule` where it has none; which that is rests with the platform where the
/// path does not read alike on every one.
pub fn parse_rule_file(path: &str, contents: &str) -> (r: LinkRule)
    ensures
        r@ == parsed_rule(r@.name, path@, contents@),
        tells_name(path@) ==> r@ == parsed_rule(rule_name(path@), path@, contents@),
{
    let name = match path_stem(path) {
        Some(stem) => stem,
        None => owned("rule"),
    };
    let r = parse_rule_text(name.as_str(), path, contents);
    proof {
        lemma_parsed_name(name@, path@, contents@);
    }
    r
}

/// Chooses the rule files of a directory from the names of its entries: sorted,
/// and at most [`MAX_RULES_PER_SOURCE_DIR`].
pub fn select_rule_files(names: &Vec<String>) -> (r: Vec<String>)
    ensures
        texts(r@) == first_of_list(
            sorted_unique(rule_names(texts(names@))),
            MAX_RULES_PER_SOURCE_DIR as int,
        ),
{
    let ghost all = texts(names@);
    let mut r: Vec<String> = Vec::new();
    let mut i: usize = 0;
    assert(all.take(0) =~= Seq::empty());
    assert(texts(r@) =~= Seq::empty());
    while i < names.len()
        invariant
            i <= names.len(),
            all == texts(names@),
            texts(r@) == sorted_unique(rule_names(all.take(i as int))),
        decreases names.len() - i,
    {
        assert(all.take(i + 1).drop_last() =~= all.take(i as int));
        assert(all.take(i + 1).last() == names@[i as int]@);
        if rule_file(names[i].as_str()) {
            let ghost before = rule_names(all.take(i as int));
            assert(before.push(all[i as int]).drop_last() =~= before);
            add_sorted(&mut r, names[i].clone());
        }
        i += 1;
    }
    assert(all.take(i as int) =~= all);
    let ghost sorted = r@;
    r.truncate(MAX_RULES_PER_SOURCE_DIR);
    assert(texts(r@) =~= first_of_list(texts(sorted), MAX_RULES_PER_SOURCE_DIR as int));
    r
}

fn rule_file(name: &str) -> (r: bool)
    ensures
        r == is_rule_file(name@),
{
    let chars = to_chars(name);
    let ending = to_chars(".md");
    chars.len() > 3 && crate::search::matches_at(
        chars.as_slice(),
        ending.as_slice(),
        chars.len() - 3,
    )
}

proof fn lemma_header_keeps(rule: RuleView, header: Seq<Seq<char>>)
    ensures
        with_header(rule, header).name == rule.name,
        with_header(rule, header).path == rule.path,
        with_header(rule, header).body == rule.body,
    decreases header.len(),
{
    if header.len() > 0 {
        lemma_header_keeps(rule, header.drop_last());
    }
}

proof fn lemma_parsed_name(name: Seq<char>, path: Seq<char>, contents: Seq<char>)
    ensures
        parsed_rule(name, path, contents).name == name,
        parsed_rule(name, path, contents).path == path,
{
    let all = lines(contents);
    let close = fence_position(all, 1);
    lemma_header_keeps(bare_rule(name, path, Seq::empty()), all.subrange(1, close));
}

/// A file that does not begin with a header, or whose header is never closed,
/// loses none of its text.
pub proof fn lemma_body_is_never_dropped(name: Seq<char>, path: Seq<char>, contents: Seq<char>)
    requires
        lines(contents).len() == 0 || !is_fence(lines(contents)[0]) || forall|i: int|
            1 <= i < lines(contents).len() ==> !is_fence(#[trigger] lines(contents)[i]),
    ensures
        parsed_rule(name, path, contents) == bare_rule(name, path, contents),
{
    let all = lines(contents);
    if all.len() > 0 && is_fence(all[0]) {
        lemma_no_fence(all, 1);
    }
}

proof fn lemma_no_fence(all: Seq<Seq<char>>, from: int)
    requires
        0 <= from,
        forall|i: int| from <= i < all.len() ==> !is_fence(#[trigger] all[i]),
    ensures
        fence_position(all, from) == all.len(),
    decreases all.len() - from,
{
    if from < all.len() {
        lemma_no_fence(all, from + 1);
    }
}

} // verus!
