//! What holds of the rendered rules: no rule can fake the fragment's boundary,
//! and a rule is either shown or listed.

use vstd::prelude::*;

use crate::globs::{all_plain, all_portable, any_matches, is_buildable};
use crate::markers::{
    are_apart, enclosed, is_tag, lacks, lacks_from, lemma_append_clean, lemma_clean_across,
    lemma_enclosed, lemma_inert, lemma_lacks_from, lemma_plain_clean, lemma_replace_cleans,
};
use crate::rule_file::RuleView;
use crate::rules::{
    active_sections, cut_body, first_matching, fragment_sections, fragment_text, index_lines,
    index_text, is_active, may_match, reason_text, rule_text, section_text, valid_globs,
    RULES_END, RULES_INTRO, RULES_START,
};
use crate::search::{occurs, occurs_at, replace};
use crate::split::join;

verus! {

/// A marker of the fragment.
pub open spec fn is_rules_marker(marker: Seq<char>) -> bool {
    marker == RULES_START@ || marker == RULES_END@
}

/// Whether a text holds no marker of the fragment.
pub open spec fn is_harmless(text: Seq<char>) -> bool {
    !occurs(text, RULES_START@) && !occurs(text, RULES_END@)
}

proof fn lemma_rules_tags()
    ensures
        are_apart(RULES_START@, RULES_END@),
        lacks_from(RULES_START@, '(', 0),
        lacks_from(RULES_END@, '(', 0),
        lacks_from(RULES_START@, ')', 0),
        lacks_from(RULES_END@, ')', 0),
        lacks_from(RULES_START@, ']', 0),
        lacks_from(RULES_END@, ']', 0),
{
    reveal_strlit("<codex_link_rules>");
    reveal_strlit("</codex_link_rules>");
    reveal_with_fuel(lacks_from, 20);
    assert(lacks_from(RULES_START@, ' ', 0));
    assert(lacks_from(RULES_START@, '\n', 0));
    assert(lacks_from(RULES_END@, ' ', 0));
    assert(lacks_from(RULES_END@, '\n', 0));
    lemma_lacks_from(RULES_START@, ' ', 0);
    lemma_lacks_from(RULES_START@, '\n', 0);
    lemma_lacks_from(RULES_END@, ' ', 0);
    lemma_lacks_from(RULES_END@, '\n', 0);
}

proof fn lemma_marker_lacks(marker: Seq<char>, c: char)
    requires
        is_rules_marker(marker),
        c == '(' || c == ')' || c == ']' || c == ' ' || c == '\n',
    ensures
        lacks(marker, c),
        is_tag(marker),
{
    lemma_rules_tags();
    if c != ' ' && c != '\n' {
        lemma_lacks_from(marker, c, 0);
    }
}

/// A text in which the markers were made harmless holds none of them: a rule's
/// body cannot fake the fragment's boundary.
pub proof fn lemma_rule_text_is_harmless(text: Seq<char>)
    ensures
        is_harmless(rule_text(text)),
{
    lemma_rules_tags();
    reveal_strlit("<codex_link_rules>");
    reveal_strlit("</codex_link_rules>");
    reveal_strlit("<rules>");
    reveal_strlit("</rules>");
    reveal_with_fuel(lacks_from, 20);
    let once = replace(text, RULES_START@, "<rules>"@);
    lemma_inert("<rules>"@, RULES_START@, 1);
    lemma_inert("</rules>"@, RULES_START@, 1);
    lemma_inert("</rules>"@, RULES_END@, 2);
    lemma_replace_cleans(text, RULES_START@, "<rules>"@, RULES_START@);
    lemma_replace_cleans(once, RULES_END@, "</rules>"@, RULES_START@);
    lemma_replace_cleans(once, RULES_END@, "</rules>"@, RULES_END@);
}

/// A cut body holds no marker either, whatever the cutting left and wherever
/// its file stands.
pub proof fn lemma_cut_body_is_harmless(cut: Seq<char>, path: Seq<char>)
    ensures
        is_harmless(cut_body(cut, path)),
{
    lemma_rule_text_is_harmless(cut + "\n(rule truncated; read "@ + path + " for the full text)"@);
}

/// Two texts without a marker, with a separator of one character between.
proof fn lemma_harmless_across(a: Seq<char>, c: char, b: Seq<char>)
    requires
        is_harmless(a),
        is_harmless(b),
        c == '(' || c == ')' || c == ']' || c == ' ' || c == '\n',
    ensures
        is_harmless(a + seq![c] + b),
{
    lemma_marker_lacks(RULES_START@, c);
    lemma_marker_lacks(RULES_END@, c);
    lemma_clean_across(a, c, b, RULES_START@);
    lemma_clean_across(a, c, b, RULES_END@);
}

proof fn lemma_harmless_plain(text: Seq<char>)
    requires
        lacks_from(text, '<', 0),
    ensures
        is_harmless(text),
{
    lemma_rules_tags();
    lemma_plain_clean(text, RULES_START@);
    lemma_plain_clean(text, RULES_END@);
}

proof fn lemma_harmless_append(a: Seq<char>, b: Seq<char>)
    requires
        is_harmless(a),
        is_harmless(b),
        a.len() == 0 || a.last() == ' ' || a.last() == '\n',
    ensures
        is_harmless(a + b),
{
    lemma_rules_tags();
    lemma_append_clean(a, b, RULES_START@);
    lemma_append_clean(a, b, RULES_END@);
}

/// Whether no part of a rule that is shown as it is holds a marker. The body
/// is not among them: it is made harmless.
pub open spec fn has_harmless_labels(rule: RuleView, matched: Option<Seq<char>>) -> bool {
    &&& is_harmless(rule.name)
    &&& is_harmless(rule.path)
    &&& rule.description matches Some(description) ==> is_harmless(description)
    &&& matched matches Some(file) ==> is_harmless(file)
}

proof fn lemma_section_harmless(
    rule: RuleView,
    matched: Option<Seq<char>>,
    body: Seq<char>,
)
    requires
        has_harmless_labels(rule, matched),
        is_harmless(body),
    ensures
        is_harmless(section_text(rule, matched, body)),
{
    reveal_strlit("[");
    reveal_strlit("] ");
    reveal_strlit(" (");
    reveal_strlit("):\n");
    reveal_strlit("always");
    reveal_strlit("path-scoped, matched ");
    reveal_strlit("[path-scoped, matched ");
    reveal_with_fuel(lacks_from, 24);
    let none: Seq<char> = Seq::empty();
    lemma_harmless_plain(none);
    let reason = "["@ + reason_text(matched);
    match matched {
        Some(file) => {
            let start = "[path-scoped, matched "@;
            lemma_harmless_plain(start);
            lemma_harmless_append(start, file);
            assert(reason =~= start + file);
        },
        None => {
            lemma_harmless_plain(reason);
        },
    }
    let a = reason + seq![']'] + none;
    lemma_harmless_across(reason, ']', none);
    let b = a + seq![' '] + rule.name;
    lemma_harmless_across(a, ' ', rule.name);
    let c = b + seq![' '] + none;
    lemma_harmless_across(b, ' ', none);
    let d = c + seq!['('] + rule.path;
    lemma_harmless_across(c, '(', rule.path);
    let colon = seq![':'];
    lemma_harmless_plain(colon);
    let e = d + seq![')'] + colon;
    lemma_harmless_across(d, ')', colon);
    let f = e + seq!['\n'] + body;
    lemma_harmless_across(e, '\n', body);
    assert(f =~= section_text(rule, matched, body));
}

proof fn lemma_index_harmless(rule: RuleView, matched: Option<Seq<char>>)
    requires
        has_harmless_labels(rule, matched),
    ensures
        is_harmless(index_text(rule)),
{
    reveal_strlit("- ");
    reveal_strlit(" — ");
    reveal_strlit("—");
    reveal_strlit(" (");
    reveal_strlit(")");
    reveal_with_fuel(lacks_from, 4);
    let none: Seq<char> = Seq::empty();
    lemma_harmless_plain(none);
    lemma_harmless_plain("- "@);
    let a = "- "@ + rule.name;
    lemma_harmless_append("- "@, rule.name);
    let b = match rule.description {
        Some(description) => {
            let dash = "—"@;
            lemma_harmless_plain(dash);
            let b1 = a + seq![' '] + dash;
            lemma_harmless_across(a, ' ', dash);
            lemma_harmless_across(b1, ' ', description);
            b1 + seq![' '] + description
        },
        None => a,
    };
    let c = b + seq![' '] + none;
    lemma_harmless_across(b, ' ', none);
    let d = c + seq!['('] + rule.path;
    lemma_harmless_across(c, '(', rule.path);
    let e = d + seq![')'] + none;
    lemma_harmless_across(d, ')', none);
    assert(e =~= index_text(rule));
}

proof fn lemma_join_harmless(parts: Seq<Seq<char>>, sep: Seq<char>)
    requires
        forall|i: int| 0 <= i < parts.len() ==> is_harmless(#[trigger] parts[i]),
        sep == "\n"@ || sep == "\n\n"@,
    ensures
        is_harmless(join(parts, sep)),
    decreases parts.len(),
{
    reveal_strlit("\n");
    reveal_strlit("\n\n");
    reveal_with_fuel(lacks_from, 2);
    let none: Seq<char> = Seq::empty();
    lemma_harmless_plain(none);
    if parts.len() == 0 {
    } else if parts.len() == 1 {
        assert(is_harmless(parts[0]));
    } else {
        let rest = parts.drop_last();
        assert forall|i: int| 0 <= i < rest.len() implies is_harmless(#[trigger] rest[i]) by {
            assert(rest[i] == parts[i]);
        }
        lemma_join_harmless(rest, sep);
        let head = join(rest, sep);
        let last = parts.last();
        assert(is_harmless(parts[parts.len() - 1]));
        if sep == "\n"@ {
            lemma_harmless_across(head, '\n', last);
            assert(head + seq!['\n'] + last =~= head + sep + last);
        } else {
            lemma_harmless_across(head, '\n', none);
            lemma_harmless_across(head + seq!['\n'] + none, '\n', last);
            assert(head + seq!['\n'] + none + seq!['\n'] + last =~= head + sep + last);
        }
    }
}

proof fn lemma_sections_harmless(
    rules: Seq<RuleView>,
    matched: Seq<Option<Seq<char>>>,
    bodies: Seq<Seq<char>>,
    n: int,
)
    requires
        n <= rules.len(),
        forall|i: int|
            0 <= i < rules.len() ==> has_harmless_labels(#[trigger] rules[i], matched[i]),
        forall|i: int|
            0 <= i < rules.len() && is_active(rules[i], matched[i]) ==> is_harmless(
                #[trigger] bodies[i],
            ),
    ensures
        forall|k: int|
            0 <= k < active_sections(rules, matched, bodies, n).len() ==> is_harmless(
                #[trigger] active_sections(rules, matched, bodies, n)[k],
            ),
        forall|k: int|
            0 <= k < index_lines(rules, matched, n).len() ==> is_harmless(
                #[trigger] index_lines(rules, matched, n)[k],
            ),
    decreases n,
{
    if n > 0 {
        lemma_sections_harmless(rules, matched, bodies, n - 1);
        let rule = rules[n - 1];
        if is_active(rule, matched[n - 1]) {
            assert(is_harmless(bodies[n - 1]));
            lemma_section_harmless(rule, matched[n - 1], bodies[n - 1]);
        } else {
            lemma_index_harmless(rule, matched[n - 1]);
        }
        let active = active_sections(rules, matched, bodies, n);
        let index = index_lines(rules, matched, n);
        assert forall|k: int| 0 <= k < active.len() implies is_harmless(#[trigger] active[k]) by {
            let before = active_sections(rules, matched, bodies, n - 1);
            if k < before.len() {
                assert(active[k] == before[k]);
            }
        }
        assert forall|k: int| 0 <= k < index.len() implies is_harmless(#[trigger] index[k]) by {
            let before = index_lines(rules, matched, n - 1);
            if k < before.len() {
                assert(index[k] == before[k]);
            }
        }
    }
}

proof fn lemma_join_first(a: Seq<char>, b: Seq<char>, rest: Seq<Seq<char>>, sep: Seq<char>)
    ensures
        join(seq![a + b] + rest, sep) == a + join(seq![b] + rest, sep),
    decreases rest.len(),
{
    let x = seq![a + b] + rest;
    let y = seq![b] + rest;
    if rest.len() == 0 {
        assert(x[0] == a + b && y[0] == b);
    } else {
        lemma_join_first(a, b, rest.drop_last(), sep);
        assert(x.drop_last() =~= seq![a + b] + rest.drop_last());
        assert(y.drop_last() =~= seq![b] + rest.drop_last());
        assert(x.last() == y.last());
        assert(join(x, sep) =~= a + join(y, sep));
    }
}

/// Where the names, paths and descriptions of the rules hold no marker, the
/// fragment's start marker stands at its start alone and the end marker at its
/// end alone, whatever the bodies hold.
pub proof fn lemma_fragment_markers(
    rules: Seq<RuleView>,
    matched: Seq<Option<Seq<char>>>,
    bodies: Seq<Seq<char>>,
)
    requires
        forall|i: int|
            0 <= i < rules.len() ==> has_harmless_labels(#[trigger] rules[i], matched[i]),
        forall|i: int|
            0 <= i < rules.len() && is_active(rules[i], matched[i]) ==> is_harmless(
                #[trigger] bodies[i],
            ),
    ensures
        forall|i: int| #[trigger]
            occurs_at(fragment_text(rules, matched, bodies), RULES_START@, i) <==> i == 0,
        forall|i: int| #[trigger]
            occurs_at(fragment_text(rules, matched, bodies), RULES_END@, i) <==> i
                == fragment_text(rules, matched, bodies).len() - RULES_END@.len(),
{
    let n = rules.len() as int;
    let active = active_sections(rules, matched, bodies, n);
    let index = index_lines(rules, matched, n);
    lemma_sections_harmless(rules, matched, bodies, n);
    lemma_intro_harmless();
    let sep = "\n\n"@;
    let listed_text = "Available rules:\n"@ + join(index, "\n"@);
    let listed: Seq<Seq<char>> = if index.len() == 0 {
        Seq::empty()
    } else {
        seq![listed_text]
    };
    if index.len() > 0 {
        lemma_join_harmless(index, "\n"@);
        reveal_strlit("Available rules:\n");
        reveal_with_fuel(lacks_from, 18);
        lemma_harmless_plain("Available rules:\n"@);
        lemma_harmless_append("Available rules:\n"@, join(index, "\n"@));
    }
    let middle = active + listed;
    let parts = seq![RULES_INTRO@] + middle;
    assert forall|i: int| 0 <= i < parts.len() implies is_harmless(#[trigger] parts[i]) by {
        if i == 0 {
            assert(parts[0] == RULES_INTRO@);
        } else if i - 1 < active.len() {
            assert(parts[i] == active[i - 1]);
        } else {
            assert(parts[i] == listed_text);
        }
    }
    lemma_join_harmless(parts, sep);
    reveal_strlit("\n");
    reveal_strlit("\n\n");
    let start = RULES_START@;
    let end = RULES_END@;
    let head = start + "\n"@;
    let sections = fragment_sections(active, index);
    let front = seq![head + RULES_INTRO@] + middle;
    assert(sections =~= front + seq![end]);
    assert(sections.drop_last() =~= front);
    assert(sections.last() == end);
    lemma_join_first(head, RULES_INTRO@, middle, sep);
    let inner = join(parts, sep);
    let none: Seq<char> = Seq::empty();
    lemma_harmless_plain(none);
    lemma_harmless_across(inner, '\n', none);
    let body = inner + seq!['\n'] + none;
    lemma_rules_tags();
    lemma_enclosed(start, body, end);
    assert(join(sections, sep) == join(front, sep) + sep + end);
    assert(fragment_text(rules, matched, bodies) =~= enclosed(start, body, end));
}

proof fn lemma_intro_harmless()
    ensures
        is_harmless(RULES_INTRO@),
{
    reveal_strlit(
        "Project and user rules. Active rules below are binding for this turn; indexed rules list what else exists — read the file when its description matches your task.",
    );
    reveal_with_fuel(lacks_from, 60);
    assert(lacks_from(RULES_INTRO@, '<', 110));
    assert(lacks_from(RULES_INTRO@, '<', 55));
    assert(lacks_from(RULES_INTRO@, '<', 0));
    lemma_harmless_plain(RULES_INTRO@);
}

/// Every rule is either shown or listed, and none both ways.
pub proof fn lemma_rules_are_kept(
    rules: Seq<RuleView>,
    matched: Seq<Option<Seq<char>>>,
    bodies: Seq<Seq<char>>,
    n: int,
)
    requires
        0 <= n <= rules.len(),
    ensures
        active_sections(rules, matched, bodies, n).len() + index_lines(rules, matched, n).len()
            == n,
        forall|i: int|
            0 <= i < n && is_active(rules[i], matched[i]) ==> active_sections(
                rules,
                matched,
                bodies,
                n,
            ).contains(#[trigger] section_text(rules[i], matched[i], bodies[i])),
        forall|i: int|
            0 <= i < n && !is_active(rules[i], matched[i]) ==> index_lines(
                rules,
                matched,
                n,
            ).contains(#[trigger] index_text(rules[i])),
    decreases n,
{
    if n > 0 {
        lemma_rules_are_kept(rules, matched, bodies, n - 1);
        let active = active_sections(rules, matched, bodies, n);
        let index = index_lines(rules, matched, n);
        let before = active_sections(rules, matched, bodies, n - 1);
        let listed = index_lines(rules, matched, n - 1);
        assert forall|i: int| 0 <= i < n && is_active(rules[i], matched[i]) implies active.contains(
            #[trigger] section_text(rules[i], matched[i], bodies[i]),
        ) by {
            let text = section_text(rules[i], matched[i], bodies[i]);
            if i < n - 1 {
                let k = choose|k: int| 0 <= k < before.len() && before[k] == text;
                assert(active[k] == text);
            } else {
                assert(active[active.len() - 1] == text);
            }
        }
        assert forall|i: int| 0 <= i < n && !is_active(rules[i], matched[i]) implies index.contains(
            #[trigger] index_text(rules[i]),
        ) by {
            let text = index_text(rules[i]);
            if i < n - 1 {
                let k = choose|k: int| 0 <= k < listed.len() && listed[k] == text;
                assert(index[k] == text);
            } else {
                assert(index[index.len() - 1] == text);
            }
        }
    }
}

proof fn lemma_first_matching(globs: Seq<Seq<char>>, files: Seq<Seq<char>>, from: int)
    requires
        0 <= from,
    ensures
        first_matching(globs, files, from) is Some <==> exists|k: int|
            from <= k < files.len() && any_matches(globs, #[trigger] files[k]),
    decreases files.len() - from,
{
    if from < files.len() {
        lemma_first_matching(globs, files, from + 1);
        assert(files[from] == files[from]);
    }
}

/// A rule with ordinary globs shows its body exactly where it always applies or
/// one of those of its patterns that are globs matches a touched file; plain
/// patterns all are.
pub proof fn lemma_matching_rule_is_active(
    rule: RuleView,
    files: Seq<Seq<char>>,
    matched: Option<Seq<char>>,
)
    requires
        is_buildable(rule.globs),
        all_portable(files),
        may_match(rule.globs, files, matched),
    ensures
        is_active(rule, matched) <==> rule.always_apply || exists|k: int|
            0 <= k < files.len() && any_matches(valid_globs(rule.globs), #[trigger] files[k]),
        all_plain(rule.globs) ==> (is_active(rule, matched) <==> rule.always_apply || exists|k: int|
            0 <= k < files.len() && any_matches(rule.globs, #[trigger] files[k])),
{
    lemma_first_matching(valid_globs(rule.globs), files, 0);
    lemma_first_matching(rule.globs, files, 0);
}

} // verus!
