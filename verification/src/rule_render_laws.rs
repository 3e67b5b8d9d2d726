//! What holds of the rules that are shown: which of them are, in what order, and
//! what is shown of each.

use vstd::prelude::*;

use crate::choices::{is_choice, lemma_choice_step, lemma_no_choice, lemma_same_choice};
use crate::globs::{any_matches, is_buildable, is_glob, all_portable};
use crate::markers::occurrences;
use crate::order::{ascending, lemma_sorted_unique, less, sorted_unique};
use crate::rule_file::{first_of_list, is_rule_file, rule_names, RuleView, MAX_RULES_PER_SOURCE_DIR};
use crate::rules::{
    active_sections, first_matching, fragment_text, index_lines, index_text, is_valid_glob,
    may_match, may_show, relative_texts, rule_text, section_text, selected, valid_globs,
};
use crate::search::occurs;
use crate::split::join;
use crate::text::trim;
use crate::text_laws::lemma_replace_none;
use crate::truncation::TruncationPolicy;

verus! {

/// Whether the chosen positions are those of the rules that are shown: those
/// that always apply, and those that a file matches.
pub open spec fn chooses_shown(
    at: Seq<int>,
    rules: Seq<RuleView>,
    matched: Seq<Option<Seq<char>>>,
) -> bool {
    is_choice(at, rules.len() as int, |i: int| rules[i].always_apply || matched[i] is Some)
}

/// Whether the chosen positions are those of the rules that are listed only.
pub open spec fn chooses_listed(
    at: Seq<int>,
    rules: Seq<RuleView>,
    matched: Seq<Option<Seq<char>>>,
) -> bool {
    is_choice(at, rules.len() as int, |i: int| !rules[i].always_apply && matched[i] is None)
}

/// What is told of a rule that is shown.
pub open spec fn told(rule: RuleView, matched: Option<Seq<char>>, body: Seq<char>) -> Seq<char> {
    match matched {
        Some(file) => "["@ + ("path-scoped, matched "@ + file) + "] "@ + rule.name + " ("@
            + rule.path + "):\n"@ + body,
        None => "["@ + "always"@ + "] "@ + rule.name + " ("@ + rule.path + "):\n"@ + body,
    }
}

/// The line of a rule that is listed only.
pub open spec fn listed_line(rule: RuleView) -> Seq<char> {
    match rule.description {
        Some(description) => "- "@ + rule.name + " — "@ + description + " ("@ + rule.path + ")"@,
        None => "- "@ + rule.name + " ("@ + rule.path + ")"@,
    }
}

proof fn lemma_shown(
    rules: Seq<RuleView>,
    matched: Seq<Option<Seq<char>>>,
    bodies: Seq<Seq<char>>,
    n: int,
) -> (r: (Seq<int>, Seq<int>))
    requires
        0 <= n <= rules.len(),
    ensures
        is_choice(r.0, n, |i: int| rules[i].always_apply || matched[i] is Some),
        is_choice(r.1, n, |i: int| !rules[i].always_apply && matched[i] is None),
        active_sections(rules, matched, bodies, n).len() == r.0.len(),
        index_lines(rules, matched, n).len() == r.1.len(),
        forall|j: int|
            0 <= j < r.0.len() ==> #[trigger] active_sections(rules, matched, bodies, n)[j]
                == told(rules[r.0[j]], matched[r.0[j]], bodies[r.0[j]]),
        forall|j: int|
            0 <= j < r.1.len() ==> #[trigger] index_lines(rules, matched, n)[j] == listed_line(
                rules[r.1[j]],
            ),
    decreases n,
{
    let shown = |i: int| rules[i].always_apply || matched[i] is Some;
    let listed = |i: int| !rules[i].always_apply && matched[i] is None;
    if n <= 0 {
        lemma_no_choice(shown);
        lemma_no_choice(listed);
        (Seq::empty(), Seq::empty())
    } else {
        let (a, b) = lemma_shown(rules, matched, bodies, n - 1);
        lemma_choice_step(a, n - 1, shown);
        lemma_choice_step(b, n - 1, listed);
        let sections = active_sections(rules, matched, bodies, n);
        let lines = index_lines(rules, matched, n);
        let more = if shown(n - 1) {
            a.push(n - 1)
        } else {
            a
        };
        let rest = if listed(n - 1) {
            b.push(n - 1)
        } else {
            b
        };
        assert(section_text(rules[n - 1], matched[n - 1], bodies[n - 1]) == told(
            rules[n - 1],
            matched[n - 1],
            bodies[n - 1],
        ));
        assert(index_text(rules[n - 1]) == listed_line(rules[n - 1]));
        assert forall|j: int| 0 <= j < more.len() implies #[trigger] sections[j] == told(
            rules[more[j]],
            matched[more[j]],
            bodies[more[j]],
        ) by {
            if j < a.len() {
                assert(sections[j] == active_sections(rules, matched, bodies, n - 1)[j]);
            }
        }
        assert forall|j: int| 0 <= j < rest.len() implies #[trigger] lines[j] == listed_line(
            rules[rest[j]],
        ) by {
            if j < b.len() {
                assert(lines[j] == index_lines(rules, matched, n - 1)[j]);
            }
        }
        (more, rest)
    }
}

/// The fragment shows the body of every rule that always applies or that a
/// touched file matches, in the order of the rules, and lists all others under
/// a heading of their own, in order; nothing else stands between its markers.
pub proof fn lemma_fragment_is_laid_out(
    rules: Seq<RuleView>,
    matched: Seq<Option<Seq<char>>>,
    bodies: Seq<Seq<char>>,
)
    ensures
        exists|
            at: Seq<int>,
            others: Seq<int>,
            shown: Seq<Seq<char>>,
            lines: Seq<Seq<char>>,
        |
            {
                &&& #[trigger] chooses_shown(at, rules, matched)
                &&& #[trigger] chooses_listed(others, rules, matched)
                &&& shown.len() == at.len()
                &&& lines.len() == others.len()
                &&& forall|j: int|
                    0 <= j < at.len() ==> #[trigger] shown[j] == told(
                        rules[at[j]],
                        matched[at[j]],
                        bodies[at[j]],
                    )
                &&& forall|j: int|
                    0 <= j < others.len() ==> #[trigger] lines[j] == listed_line(rules[others[j]])
                &&& fragment_text(rules, matched, bodies) == #[trigger] laid_out(shown, lines)
            },
{
    let n = rules.len() as int;
    let (at, others) = lemma_shown(rules, matched, bodies, n);
    let shown = active_sections(rules, matched, bodies, n);
    let lines = index_lines(rules, matched, n);
    assert(chooses_shown(at, rules, matched));
    assert(chooses_listed(others, rules, matched));
    assert(fragment_text(rules, matched, bodies) == laid_out(shown, lines));
}

/// A fragment with the sections of rules, and with the lines of others under a
/// heading where there are any, a blank line between any two.
pub open spec fn laid_out(shown: Seq<Seq<char>>, lines: Seq<Seq<char>>) -> Seq<char> {
    let front = seq![
        "<codex_link_rules>"@ + "\n"@
            + "Project and user rules. Active rules below are binding for this turn; indexed rules list what else exists — read the file when its description matches your task."@,
    ] + shown;
    let listed: Seq<Seq<char>> = if lines.len() == 0 {
        Seq::empty()
    } else {
        seq!["Available rules:\n"@ + join(lines, "\n"@)]
    };
    join(front + listed + seq!["</codex_link_rules>"@], "\n\n"@)
}

proof fn lemma_first_file(globs: Seq<Seq<char>>, files: Seq<Seq<char>>, from: int, k: int)
    requires
        0 <= from <= k < files.len(),
        any_matches(globs, files[k]),
        forall|j: int| from <= j < k ==> !any_matches(globs, #[trigger] files[j]),
    ensures
        first_matching(globs, files, from) == Some(files[k]),
    decreases k - from,
{
    if from < k {
        assert(!any_matches(globs, files[from]));
        lemma_first_file(globs, files, from + 1, k);
    }
}

proof fn lemma_no_file(globs: Seq<Seq<char>>, files: Seq<Seq<char>>, from: int)
    requires
        0 <= from,
        forall|j: int| from <= j < files.len() ==> !any_matches(globs, #[trigger] files[j]),
    ensures
        first_matching(globs, files, from) is None,
    decreases files.len() - from,
{
    if from < files.len() {
        assert(!any_matches(globs, files[from]));
        lemma_no_file(globs, files, from + 1);
    }
}

/// Of several touched files that a rule's globs match, the first is told, and
/// none where none matches.
pub proof fn lemma_first_match_is_told(
    rule: RuleView,
    files: Seq<Seq<char>>,
    matched: Option<Seq<char>>,
)
    requires
        is_buildable(rule.globs),
        all_portable(files),
        may_match(rule.globs, files, matched),
    ensures
        forall|k: int|
            0 <= k < files.len() && any_matches(valid_globs(rule.globs), #[trigger] files[k]) && (
            forall|j: int|
                0 <= j < k ==> !any_matches(valid_globs(rule.globs), #[trigger] files[j]))
                ==> matched == Some(files[k]),
        (forall|j: int|
            0 <= j < files.len() ==> !any_matches(valid_globs(rule.globs), #[trigger] files[j]))
            ==> matched is None,
{
    let globs = valid_globs(rule.globs);
    assert forall|k: int|
        0 <= k < files.len() && any_matches(globs, #[trigger] files[k]) && (forall|j: int|
            0 <= j < k ==> !any_matches(globs, #[trigger] files[j])) implies matched == Some(
        files[k],
    ) by {
        lemma_first_file(globs, files, 0, k);
    }
    if forall|j: int| 0 <= j < files.len() ==> !any_matches(globs, #[trigger] files[j]) {
        lemma_no_file(globs, files, 0);
    }
}

/// Whether the chosen positions are those of the patterns that are globs with no
/// more than a thousand alternates.
pub open spec fn chooses_globs(at: Seq<int>, globs: Seq<Seq<char>>) -> bool {
    is_choice(
        at,
        globs.len() as int,
        |i: int| is_glob(globs[i]) && occurrences(globs[i], '{') <= 1_000,
    )
}

/// Of the patterns of a rule, those that are globs count, in their order, and no
/// other.
pub proof fn lemma_valid_globs_are_globs(globs: Seq<Seq<char>>) -> (at: Seq<int>)
    ensures
        chooses_globs(at, globs),
        valid_globs(globs).len() == at.len(),
        forall|j: int| 0 <= j < at.len() ==> #[trigger] valid_globs(globs)[j] == globs[at[j]],
{
    let flags = Seq::new(globs.len(), |i: int| is_valid_glob(globs[i]));
    let at = lemma_selected(globs, flags);
    lemma_same_choice(
        at,
        globs.len() as int,
        |i: int| flags[i],
        |i: int| is_glob(globs[i]) && occurrences(globs[i], '{') <= 1_000,
    );
    at
}

proof fn lemma_selected(values: Seq<Seq<char>>, flags: Seq<bool>) -> (at: Seq<int>)
    requires
        values.len() <= flags.len(),
    ensures
        is_choice(at, values.len() as int, |i: int| flags[i]),
        selected(values, flags).len() == at.len(),
        forall|j: int| 0 <= j < at.len() ==> #[trigger] selected(values, flags)[j] == values[at[j]],
    decreases values.len(),
{
    let chosen = |i: int| flags[i];
    if values.len() == 0 {
        lemma_no_choice(chosen);
        Seq::empty()
    } else {
        let rest = values.drop_last();
        let n = rest.len() as int;
        let at = lemma_selected(rest, flags);
        lemma_choice_step(at, n, chosen);
        let after = selected(values, flags);
        let more = if chosen(n) {
            at.push(n)
        } else {
            at
        };
        assert forall|j: int| 0 <= j < more.len() implies #[trigger] after[j] == values[more[j]] by {
            if j < at.len() {
                assert(selected(rest, flags)[j] == rest[at[j]]);
            }
        }
        more
    }
}

/// What is shown of a body of at most two thousand characters is all of it, but
/// for the white space around and the fragment's markers; a longer one is cut,
/// and the file that holds it is told.
pub proof fn lemma_short_body_is_shown<T: Fn(&str, TruncationPolicy) -> String>(
    truncate_text: T,
    rule: RuleView,
    shown: Seq<char>,
)
    requires
        may_show(truncate_text, rule, shown),
    ensures
        trim(rule.body).len() <= 2_000 ==> shown == rule_text(trim(rule.body)),
        trim(rule.body).len() <= 2_000 && !occurs(trim(rule.body), "<codex_link_rules>"@)
            && !occurs(trim(rule.body), "</codex_link_rules>"@) ==> shown == trim(rule.body),
        trim(rule.body).len() > 2_000 ==> exists|text: &str, cut: String|
            text@ == trim(rule.body) && #[trigger] call_ensures(
                truncate_text,
                (text, TruncationPolicy::Bytes(2_000)),
                cut,
            ) && shown == rule_text(
                cut@ + "\n(rule truncated; read "@ + rule.path + " for the full text)"@,
            ),
{
    let body = trim(rule.body);
    if body.len() <= 2_000 && !occurs(body, "<codex_link_rules>"@) && !occurs(
        body,
        "</codex_link_rules>"@,
    ) {
        lemma_replace_none(body, "<codex_link_rules>"@, "<rules>"@);
        lemma_replace_none(body, "</codex_link_rules>"@, "</rules>"@);
    }
}

/// A touched file is told relative to the project where it stands below it, and
/// as it is where it does not.
pub proof fn lemma_relative_texts(files: Seq<Seq<char>>, below: Seq<Option<Seq<char>>>)
    ensures
        relative_texts(files, below).len() == files.len(),
        forall|i: int|
            0 <= i < files.len() ==> (below[i] matches Some(rest) ==> #[trigger] relative_texts(
                files,
                below,
            )[i] == rest),
        forall|i: int|
            0 <= i < files.len() && below[i] is None ==> #[trigger] relative_texts(files, below)[i]
                == files[i],
{
}

/// Whether a text comes before another: where they first differ it has the
/// smaller character, or it ends there.
pub open spec fn comes_before(a: Seq<char>, b: Seq<char>) -> bool {
    exists|k: int|
        0 <= k <= a.len() && k < b.len() && #[trigger] a.take(k) == b.take(k) && (k == a.len()
            || a[k] < b[k])
}

/// Texts are ordered by their first difference.
pub proof fn lemma_order_by_first_difference(a: Seq<char>, b: Seq<char>)
    ensures
        less(a, b) <==> comes_before(a, b),
    decreases a.len(),
{
    if b.len() > 0 {
        assert(a.take(0) =~= b.take(0));
        if a.len() > 0 {
            let x = a.skip(1);
            let y = b.skip(1);
            if a[0] == b[0] {
                lemma_order_by_first_difference(x, y);
                if comes_before(x, y) {
                    let k = choose|k: int|
                        0 <= k <= x.len() && k < y.len() && #[trigger] x.take(k) == y.take(k) && (k
                            == x.len() || x[k] < y[k]);
                    assert forall|i: int| 0 <= i < k + 1 implies a[i] == b[i] by {
                        if i > 0 {
                            assert(x.take(k)[i - 1] == y.take(k)[i - 1]);
                        }
                    }
                    assert(a.take(k + 1) =~= b.take(k + 1));
                }
                if comes_before(a, b) {
                    let k = choose|k: int|
                        0 <= k <= a.len() && k < b.len() && #[trigger] a.take(k) == b.take(k) && (k
                            == a.len() || a[k] < b[k]);
                    assert(k > 0);
                    assert forall|i: int| 0 <= i < k - 1 implies x[i] == y[i] by {
                        assert(a.take(k)[i + 1] == b.take(k)[i + 1]);
                    }
                    assert(x.take(k - 1) =~= y.take(k - 1));
                }
            } else if comes_before(a, b) {
                let k = choose|k: int|
                    0 <= k <= a.len() && k < b.len() && #[trigger] a.take(k) == b.take(k) && (k
                        == a.len() || a[k] < b[k]);
                if k > 0 {
                    assert(a.take(k)[0] == b.take(k)[0]);
                }
            }
        }
    }
}

/// Whether a name is that of a rule file: something before the extension.
pub open spec fn names_rule(name: Seq<char>) -> bool {
    exists|stem: Seq<char>| stem.len() > 0 && name == #[trigger] (stem + ".md"@)
}

proof fn lemma_names_rule(name: Seq<char>)
    ensures
        is_rule_file(name) <==> names_rule(name),
{
    reveal_strlit(".md");
    let n = name.len() - 3;
    if is_rule_file(name) {
        let stem = name.take(n);
        assert(name.subrange(n, n + 3) == ".md"@);
        assert(name =~= stem + name.subrange(n, n + 3));
    }
    if names_rule(name) {
        let stem = choose|stem: Seq<char>| stem.len() > 0 && name == #[trigger] (stem + ".md"@);
        assert(name.subrange(n, n + 3) =~= ".md"@);
    }
}

proof fn lemma_rule_names(names: Seq<Seq<char>>, name: Seq<char>)
    ensures
        rule_names(names).contains(name) <==> names.contains(name) && names_rule(name),
    decreases names.len(),
{
    if names.len() > 0 {
        let rest = names.drop_last();
        let last = names.last();
        let before = rule_names(rest);
        lemma_rule_names(rest, name);
        lemma_names_rule(last);
        assert(names =~= rest.push(last));
        let after = rule_names(names);
        if before.contains(name) {
            let k = choose|k: int| 0 <= k < before.len() && before[k] == name;
            assert(after[k] == name);
            let j = choose|j: int| 0 <= j < rest.len() && rest[j] == name;
            assert(names[j] == name);
        }
        if after.contains(name) {
            let k = choose|k: int| 0 <= k < after.len() && after[k] == name;
            if k < before.len() {
                assert(before[k] == name);
            } else {
                assert(names[rest.len() as int] == name);
            }
        }
        if names.contains(name) && names_rule(name) && !rest.contains(name) {
            let k = choose|k: int| 0 <= k < names.len() && names[k] == name;
            if k < rest.len() {
                assert(rest[k] == name);
            }
            assert(after[before.len() as int] == name);
        }
    }
}

/// The rule files of a directory are those whose names end in the extension,
/// each once and in ascending order, and the first sixty-four of them where
/// there are more.
pub proof fn lemma_rule_files_are_selected(names: Seq<Seq<char>>)
    ensures
        ({
            let all = sorted_unique(rule_names(names));
            let chosen = first_of_list(all, MAX_RULES_PER_SOURCE_DIR as int);
            &&& ascending(all)
            &&& forall|name: Seq<char>| #[trigger]
                all.contains(name) <==> names.contains(name) && names_rule(name)
            &&& all.len() <= 64 ==> chosen == all
            &&& all.len() > 64 ==> chosen == all.take(64)
        }),
{
    let all = sorted_unique(rule_names(names));
    lemma_sorted_unique(rule_names(names));
    assert forall|name: Seq<char>| #[trigger] all.contains(name) <==> names.contains(name)
        && names_rule(name) by {
        lemma_rule_names(names, name);
        assert(all.contains(name) <==> rule_names(names).contains(name));
    }
}

} // verus!
