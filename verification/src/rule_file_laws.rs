//! What holds of a parsed rule file: its body is what follows the header, and
//! each property is the last one that the header sets.

use vstd::prelude::*;

use crate::choices::{is_choice, lemma_choice_step, lemma_no_choice};
use crate::rule_file::{
    bare_rule, fence_position, is_fence, parsed_rule, trimmed_parts, with_header, with_header_line,
    RuleView,
};
use crate::search::{find_from, lemma_find_from, occurs_at, split_once};
use crate::split::{fields, join, lines};
use crate::text::{eq_ignore_case, is_blank, lemma_trim_blank, trim};
use crate::text_laws::{
    has_plain_endings, lemma_lines_hold_all, lemma_lines_of_both, lemma_trim_around,
};

verus! {

/// Whether lines are a header: the first and the last are fences, and no other
/// is.
pub open spec fn is_header(all: Seq<Seq<char>>) -> bool {
    &&& all.len() >= 2
    &&& trim(all[0]) == "---"@
    &&& trim(all.last()) == "---"@
    &&& forall|i: int| 0 < i < all.len() - 1 ==> trim(#[trigger] all[i]) != "---"@
}

proof fn lemma_fence_found(all: Seq<Seq<char>>, from: int, k: int)
    requires
        0 <= from <= k < all.len(),
        is_fence(all[k]),
        forall|i: int| from <= i < k ==> !is_fence(#[trigger] all[i]),
    ensures
        fence_position(all, from) == k,
    decreases k - from,
{
    if from < k {
        assert(!is_fence(all[from]));
        lemma_fence_found(all, from + 1, k);
    }
}

/// Where a header is closed, the body is the text that follows it, as it is
/// written, but for the white space around.
pub proof fn lemma_body_follows_header(
    name: Seq<char>,
    path: Seq<char>,
    header: Seq<char>,
    rest: Seq<char>,
)
    requires
        header.len() > 0,
        header.last() == '\n',
        is_header(lines(header)),
        has_plain_endings(rest),
    ensures
        parsed_rule(name, path, header + rest).body == trim(rest),
        parsed_rule(name, path, header + rest) == (RuleView {
            body: trim(rest),
            ..parsed_rule(name, path, header)
        }),
        parsed_rule(name, path, header + rest).name == name,
        parsed_rule(name, path, header + rest).path == path,
{
    lemma_lines_of_both(header, rest);
    let head = lines(header);
    let all = lines(header + rest);
    let close = head.len() - 1;
    assert forall|i: int| 1 <= i < close implies !is_fence(#[trigger] all[i]) by {
        assert(all[i] == head[i]);
    }
    assert forall|i: int| 1 <= i < close implies !is_fence(#[trigger] head[i]) by {}
    assert(all[0] == head[0]);
    assert(all[close] == head[close]);
    assert(head[close] == head.last());
    lemma_fence_found(all, 1, close);
    lemma_fence_found(head, 1, close);
    assert(all.skip(close + 1) =~= lines(rest));
    assert(all.subrange(1, close) =~= head.subrange(1, close));
    reveal_strlit("\n");
    assert("\n"@ =~= seq!['\n']);
    lemma_lines_hold_all(rest);
    let text = join(lines(rest), "\n"@);
    if rest.len() > 0 && rest.last() == '\n' {
        let none: Seq<char> = Seq::empty();
        lemma_trim_around(none, text, seq!['\n']);
        assert(none + text + seq!['\n'] =~= rest);
    }
    lemma_header_keeps_name(bare_rule(name, path, Seq::empty()), head.subrange(1, close));
}

proof fn lemma_header_keeps_name(rule: RuleView, header: Seq<Seq<char>>)
    ensures
        with_header(rule, header).name == rule.name,
        with_header(rule, header).path == rule.path,
    decreases header.len(),
{
    if header.len() > 0 {
        lemma_header_keeps_name(rule, header.drop_last());
    }
}

/// Whether a line of a header sets a key to a value: it is the key, a colon and
/// the value, with white space around either.
pub open spec fn sets(line: Seq<char>, key: Seq<char>, value: Seq<char>) -> bool {
    exists|before: Seq<char>, after: Seq<char>|
        {
            &&& line == #[trigger] (before + seq![':'] + after)
            &&& !before.contains(':')
            &&& trim(before) == key
            &&& trim(after) == value
        }
}

/// Whether a line of a header sets the description to something.
pub open spec fn describes(line: Seq<char>, value: Seq<char>) -> bool {
    sets(line, "description"@, value) && value.len() > 0
}

/// Whether a line of a header says whether the rule always applies.
pub open spec fn says_always(line: Seq<char>, value: Seq<char>) -> bool {
    sets(line, "always_apply"@, value) || sets(line, "alwaysApply"@, value)
}

/// Whether the chosen positions are those of the parts that are not blank.
pub open spec fn chooses_filled(at: Seq<int>, parts: Seq<Seq<char>>) -> bool {
    is_choice(at, parts.len() as int, |i: int| !is_blank(parts[i]))
}

/// Whether globs are the patterns between the commas of a value, trimmed, and
/// without those of which nothing is left then.
pub open spec fn lists_globs(value: Seq<char>, globs: Seq<Seq<char>>) -> bool {
    exists|at: Seq<int>| #[trigger]
        chooses_filled(at, fields(value, ',')) && at.len() == globs.len() && forall|j: int|
            0 <= j < globs.len() ==> #[trigger] globs[j] == trim(fields(value, ',')[at[j]])
}

proof fn lemma_line_is_split(line: Seq<char>)
    ensures
        match split_once(line, ":"@) {
            Some((before, after)) => line == before + seq![':'] + after && !before.contains(':'),
            None => !line.contains(':'),
        },
        forall|key: Seq<char>, value: Seq<char>| #[trigger]
            sets(line, key, value) <==> (split_once(line, ":"@) matches Some((before, after))
                && trim(before) == key && trim(after) == value),
{
    reveal_strlit(":");
    let colon = ":"@;
    assert(colon =~= seq![':']);
    lemma_find_from(line, colon, 0);
    assert forall|i: int| 0 <= i < line.len() && line[i] == ':' implies #[trigger] occurs_at(
        line,
        colon,
        i,
    ) by {
        assert(line.subrange(i, i + 1) =~= colon);
    }
    match find_from(line, colon, 0) {
        Some(k) => {
            let before = line.take(k);
            let after = line.skip(k + 1);
            assert(line[k] == ':') by {
                assert(line.subrange(k, k + 1)[0] == ':');
            }
            assert(line =~= before + seq![':'] + after);
            assert(!before.contains(':')) by {
                if before.contains(':') {
                    let i = choose|i: int| 0 <= i < before.len() && before[i] == ':';
                    assert(line[i] == ':');
                    assert(occurs_at(line, colon, i));
                }
            }
            assert forall|key: Seq<char>, value: Seq<char>| #[trigger]
                sets(line, key, value) implies trim(before) == key && trim(after) == value by {
                let (b, a) = choose|b: Seq<char>, a: Seq<char>|
                    line == #[trigger] (b + seq![':'] + a) && !b.contains(':') && trim(b) == key
                        && trim(a) == value;
                let n = b.len() as int;
                assert(line[n] == ':');
                assert(occurs_at(line, colon, n));
                assert(k <= n);
                if k < n {
                    assert(b[k] == ':');
                    assert(b.contains(':'));
                }
                assert(b =~= before);
                assert(a =~= after);
            }
        },
        None => {
            if line.contains(':') {
                let i = choose|i: int| 0 <= i < line.len() && line[i] == ':';
                assert(occurs_at(line, colon, i));
            }
            assert forall|key: Seq<char>, value: Seq<char>| !#[trigger] sets(line, key, value) by {
                if sets(line, key, value) {
                    let (b, a) = choose|b: Seq<char>, a: Seq<char>|
                        line == #[trigger] (b + seq![':'] + a) && !b.contains(':') && trim(b)
                            == key && trim(a) == value;
                    assert(line[b.len() as int] == ':');
                }
            }
        },
    }
}

proof fn lemma_trimmed_parts(parts: Seq<Seq<char>>) -> (at: Seq<int>)
    ensures
        chooses_filled(at, parts),
        trimmed_parts(parts).len() == at.len(),
        forall|j: int|
            0 <= j < at.len() ==> #[trigger] trimmed_parts(parts)[j] == trim(parts[at[j]]),
    decreases parts.len(),
{
    let chosen = |i: int| !is_blank(parts[i]);
    if parts.len() == 0 {
        lemma_no_choice(chosen);
        Seq::empty()
    } else {
        let rest = parts.drop_last();
        let n = rest.len() as int;
        let at = lemma_trimmed_parts(rest);
        crate::choices::lemma_same_choice(at, n, |i: int| !is_blank(rest[i]), chosen);
        lemma_choice_step(at, n, chosen);
        lemma_trim_blank(parts.last());
        if chosen(n) {
            let more = at.push(n);
            assert forall|j: int| 0 <= j < more.len() implies #[trigger] trimmed_parts(parts)[j]
                == trim(parts[more[j]]) by {
                if j < at.len() {
                    assert(trimmed_parts(rest)[j] == trim(rest[at[j]]));
                }
            }
            more
        } else {
            assert forall|j: int| 0 <= j < at.len() implies #[trigger] trimmed_parts(parts)[j]
                == trim(parts[at[j]]) by {
                assert(trimmed_parts(rest)[j] == trim(rest[at[j]]));
            }
            at
        }
    }
}

/// The description of a rule is the last one, not empty, that its header sets.
pub proof fn lemma_last_description(rule: RuleView, header: Seq<Seq<char>>)
    ensures
        forall|i: int, value: Seq<char>|
            0 <= i < header.len() && #[trigger] describes(header[i], value) && (forall|
                j: int,
                later: Seq<char>,
            |
                i < j < header.len() ==> !#[trigger] describes(header[j], later)) ==> with_header(
                rule,
                header,
            ).description == Some(value),
        (forall|i: int, value: Seq<char>|
            0 <= i < header.len() ==> !#[trigger] describes(header[i], value)) ==> with_header(
            rule,
            header,
        ).description == rule.description,
    decreases header.len(),
{
    if header.len() > 0 {
        let rest = header.drop_last();
        let n = rest.len() as int;
        lemma_last_description(rule, rest);
        lemma_line_is_split(header.last());
        lemma_keys_differ();
        assert forall|i: int, value: Seq<char>|
            0 <= i < header.len() && #[trigger] describes(header[i], value) && (forall|
                j: int,
                later: Seq<char>,
            |
                i < j < header.len() ==> !#[trigger] describes(header[j], later)) implies with_header(
            rule,
            header,
        ).description == Some(value) by {
            if i < n {
                assert(rest[i] == header[i]);
                assert forall|j: int, later: Seq<char>| i < j < rest.len() implies
                    !#[trigger] describes(rest[j], later) by {
                    assert(rest[j] == header[j]);
                    assert(!describes(header[j], later));
                }
                assert(describes(rest[i], value));
                assert forall|later: Seq<char>| !#[trigger] describes(header[n], later) by {}
                lemma_no_description(with_header(rule, rest), header.last());
            }
        }
        if forall|i: int, value: Seq<char>|
            0 <= i < header.len() ==> !#[trigger] describes(header[i], value) {
            assert forall|j: int, later: Seq<char>| 0 <= j < rest.len() implies
                !#[trigger] describes(rest[j], later) by {
                assert(rest[j] == header[j]);
                assert(!describes(header[j], later));
            }
            assert forall|later: Seq<char>| !#[trigger] describes(header[n], later) by {}
            lemma_no_description(with_header(rule, rest), header.last());
        }
    }
}

proof fn lemma_no_description(rule: RuleView, line: Seq<char>)
    requires
        forall|value: Seq<char>| !#[trigger] describes(line, value),
    ensures
        with_header_line(rule, line).description == rule.description,
{
    lemma_line_is_split(line);
    match split_once(line, ":"@) {
        Some((before, after)) => {
            assert(sets(line, trim(before), trim(after)));
            assert(!describes(line, trim(after)));
        },
        None => {},
    }
}

proof fn lemma_keys_differ()
    ensures
        "description"@ != "globs"@,
        "description"@ != "always_apply"@,
        "description"@ != "alwaysApply"@,
        "globs"@ != "always_apply"@,
        "globs"@ != "alwaysApply"@,
{
    reveal_strlit("description");
    reveal_strlit("globs");
    reveal_strlit("always_apply");
    reveal_strlit("alwaysApply");
    assert("description"@[0] != "always_apply"@[0]);
    assert("description"@[0] != "alwaysApply"@[0]);
    assert("globs"@[0] != "always_apply"@[0]);
    assert("globs"@[0] != "alwaysApply"@[0]);
    assert("description"@[0] != "globs"@[0]);
}

/// A rule always applies where the last line that says so says `true`, in
/// whatever case.
pub proof fn lemma_last_always(rule: RuleView, header: Seq<Seq<char>>)
    ensures
        forall|i: int, value: Seq<char>|
            0 <= i < header.len() && #[trigger] says_always(header[i], value) && (forall|
                j: int,
                later: Seq<char>,
            |
                i < j < header.len() ==> !#[trigger] says_always(header[j], later)) ==> with_header(
                rule,
                header,
            ).always_apply == eq_ignore_case(value, "true"@),
        (forall|i: int, value: Seq<char>|
            0 <= i < header.len() ==> !#[trigger] says_always(header[i], value)) ==> with_header(
            rule,
            header,
        ).always_apply == rule.always_apply,
    decreases header.len(),
{
    if header.len() > 0 {
        let rest = header.drop_last();
        let n = rest.len() as int;
        lemma_last_always(rule, rest);
        lemma_line_is_split(header.last());
        lemma_keys_differ();
        assert forall|i: int, value: Seq<char>|
            0 <= i < header.len() && #[trigger] says_always(header[i], value) && (forall|
                j: int,
                later: Seq<char>,
            |
                i < j < header.len() ==> !#[trigger] says_always(
                    header[j],
                    later,
                )) implies with_header(rule, header).always_apply == eq_ignore_case(
            value,
            "true"@,
        ) by {
            if i < n {
                assert(rest[i] == header[i]);
                assert forall|j: int, later: Seq<char>| i < j < rest.len() implies
                    !#[trigger] says_always(rest[j], later) by {
                    assert(rest[j] == header[j]);
                    assert(!says_always(header[j], later));
                }
                assert(says_always(rest[i], value));
                assert forall|later: Seq<char>| !#[trigger] says_always(header[n], later) by {}
                lemma_no_always(with_header(rule, rest), header.last());
            }
        }
        if forall|i: int, value: Seq<char>|
            0 <= i < header.len() ==> !#[trigger] says_always(header[i], value) {
            assert forall|j: int, later: Seq<char>| 0 <= j < rest.len() implies
                !#[trigger] says_always(rest[j], later) by {
                assert(rest[j] == header[j]);
                assert(!says_always(header[j], later));
            }
            assert forall|later: Seq<char>| !#[trigger] says_always(header[n], later) by {}
            lemma_no_always(with_header(rule, rest), header.last());
        }
    }
}

proof fn lemma_no_always(rule: RuleView, line: Seq<char>)
    requires
        forall|value: Seq<char>| !#[trigger] says_always(line, value),
    ensures
        with_header_line(rule, line).always_apply == rule.always_apply,
{
    lemma_line_is_split(line);
    match split_once(line, ":"@) {
        Some((before, after)) => {
            assert(sets(line, trim(before), trim(after)));
            assert(!says_always(line, trim(after)));
        },
        None => {},
    }
}

/// The globs of a rule are those of the last line that lists any.
pub proof fn lemma_last_globs(rule: RuleView, header: Seq<Seq<char>>)
    ensures
        forall|i: int, value: Seq<char>|
            0 <= i < header.len() && #[trigger] sets(header[i], "globs"@, value) && (forall|
                j: int,
                later: Seq<char>,
            |
                i < j < header.len() ==> !#[trigger] sets(header[j], "globs"@, later))
                ==> lists_globs(value, with_header(rule, header).globs),
        (forall|i: int, value: Seq<char>|
            0 <= i < header.len() ==> !#[trigger] sets(header[i], "globs"@, value)) ==> with_header(
            rule,
            header,
        ).globs == rule.globs,
    decreases header.len(),
{
    if header.len() > 0 {
        let rest = header.drop_last();
        let n = rest.len() as int;
        lemma_last_globs(rule, rest);
        lemma_line_is_split(header.last());
        lemma_keys_differ();
        assert forall|i: int, value: Seq<char>|
            0 <= i < header.len() && #[trigger] sets(header[i], "globs"@, value) && (forall|
                j: int,
                later: Seq<char>,
            |
                i < j < header.len() ==> !#[trigger] sets(
                    header[j],
                    "globs"@,
                    later,
                )) implies lists_globs(value, with_header(rule, header).globs) by {
            if i < n {
                assert(rest[i] == header[i]);
                assert forall|j: int, later: Seq<char>| i < j < rest.len() implies
                    !#[trigger] sets(rest[j], "globs"@, later) by {
                    assert(rest[j] == header[j]);
                    assert(!sets(header[j], "globs"@, later));
                }
                assert(sets(rest[i], "globs"@, value));
                assert forall|later: Seq<char>| !#[trigger] sets(header[n], "globs"@, later) by {}
                lemma_no_globs(with_header(rule, rest), header.last());
            } else {
                let at = lemma_trimmed_parts(fields(value, ','));
                assert(with_header(rule, header).globs == trimmed_parts(fields(value, ',')));
            }
        }
        if forall|i: int, value: Seq<char>|
            0 <= i < header.len() ==> !#[trigger] sets(header[i], "globs"@, value) {
            assert forall|j: int, later: Seq<char>| 0 <= j < rest.len() implies
                !#[trigger] sets(rest[j], "globs"@, later) by {
                assert(rest[j] == header[j]);
                assert(!sets(header[j], "globs"@, later));
            }
            assert forall|later: Seq<char>| !#[trigger] sets(header[n], "globs"@, later) by {}
            lemma_no_globs(with_header(rule, rest), header.last());
        }
    }
}

proof fn lemma_no_globs(rule: RuleView, line: Seq<char>)
    requires
        forall|value: Seq<char>| !#[trigger] sets(line, "globs"@, value),
    ensures
        with_header_line(rule, line).globs == rule.globs,
{
    lemma_line_is_split(line);
    match split_once(line, ":"@) {
        Some((before, after)) => {
            assert(sets(line, trim(before), trim(after)));
            assert(!sets(line, "globs"@, trim(after)));
        },
        None => {},
    }
}

/// The properties of a rule are those that the lines between the fences of its
/// header set, and none where they set none.
pub proof fn lemma_header_sets_properties(
    name: Seq<char>,
    path: Seq<char>,
    header: Seq<char>,
    rest: Seq<char>,
)
    requires
        header.len() > 0,
        header.last() == '\n',
        is_header(lines(header)),
        has_plain_endings(rest),
    ensures
        ({
            let rule = parsed_rule(name, path, header + rest);
            let inner = lines(header).subrange(1, lines(header).len() - 1);
            let n = inner.len();
            &&& forall|i: int, value: Seq<char>|
                0 <= i < n && #[trigger] describes(inner[i], value) && (forall|
                    j: int,
                    later: Seq<char>,
                |
                    i < j < n ==> !#[trigger] describes(inner[j], later)) ==> rule.description
                    == Some(value)
            &&& (forall|i: int, value: Seq<char>|
                0 <= i < n ==> !#[trigger] describes(inner[i], value)) ==> rule.description is None
            &&& forall|i: int, value: Seq<char>|
                0 <= i < n && #[trigger] says_always(inner[i], value) && (forall|
                    j: int,
                    later: Seq<char>,
                |
                    i < j < n ==> !#[trigger] says_always(inner[j], later)) ==> rule.always_apply
                    == eq_ignore_case(value, "true"@)
            &&& (forall|i: int, value: Seq<char>|
                0 <= i < n ==> !#[trigger] says_always(inner[i], value)) ==> !rule.always_apply
            &&& forall|i: int, value: Seq<char>|
                0 <= i < n && #[trigger] sets(inner[i], "globs"@, value) && (forall|
                    j: int,
                    later: Seq<char>,
                |
                    i < j < n ==> !#[trigger] sets(inner[j], "globs"@, later)) ==> lists_globs(
                    value,
                    rule.globs,
                )
            &&& (forall|i: int, value: Seq<char>|
                0 <= i < n ==> !#[trigger] sets(inner[i], "globs"@, value)) ==> rule.globs.len()
                == 0
        }),
{
    lemma_body_follows_header(name, path, header, rest);
    let head = lines(header);
    let close = head.len() - 1;
    assert forall|i: int| 1 <= i < close implies !is_fence(#[trigger] head[i]) by {}
    assert(head[close] == head.last());
    lemma_fence_found(head, 1, close);
    let inner = head.subrange(1, close);
    let bare = bare_rule(name, path, Seq::empty());
    lemma_last_description(bare, inner);
    lemma_last_always(bare, inner);
    lemma_last_globs(bare, inner);
}

/// A file without a header, or with one that is never closed, is all body, and
/// sets nothing.
pub proof fn lemma_without_header_all_is_body(
    name: Seq<char>,
    path: Seq<char>,
    contents: Seq<char>,
)
    requires
        lines(contents).len() == 0 || trim(lines(contents)[0]) != "---"@ || forall|i: int|
            0 < i < lines(contents).len() ==> trim(#[trigger] lines(contents)[i]) != "---"@,
    ensures
        ({
            let rule = parsed_rule(name, path, contents);
            &&& rule.name == name
            &&& rule.path == path
            &&& rule.body == contents
            &&& rule.description is None
            &&& rule.globs.len() == 0
            &&& !rule.always_apply
        }),
{
    let all = lines(contents);
    if all.len() > 0 && is_fence(all[0]) {
        assert forall|i: int| 1 <= i < all.len() implies !is_fence(#[trigger] all[i]) by {}
        lemma_no_fence_found(all, 1);
    }
}

proof fn lemma_no_fence_found(all: Seq<Seq<char>>, from: int)
    requires
        0 <= from,
        forall|i: int| from <= i < all.len() ==> !is_fence(#[trigger] all[i]),
    ensures
        fence_position(all, from) == all.len(),
    decreases all.len() - from,
{
    if from < all.len() {
        lemma_no_fence_found(all, from + 1);
    }
}

} // verus!
