//! Typed, triggerable rules for Link context injection.
//!
//! The rendered block is bounded: rule bodies are truncated with a pointer to
//! the source file, and the whole fragment has a hard token cap.

use globset::{GlobSet, GlobSetBuilder};
use vstd::prelude::*;

use crate::globs::{
    add_glob, all_plain, all_portable, all_simple, any_matches, any_simple, build_globs,
    builder_globs, globs_match, is_buildable, is_glob, is_ordinary, is_ordinary_glob,
    is_plain_glob, is_portable, is_simple, is_taken, set_globs, total_chars, MAX_GLOB_ALTERNATES,
};
use crate::markers::{lacks, occurrences};
use crate::paths::{follows, is_neutral, path_below};
use crate::rule_file::{LinkRule, RuleView};
use crate::search::{replace, replaced};
use crate::split::{join, join_strings};
use crate::text::{lemma_texts_push, opt_text, owned, texts, to_chars, trim, trimmed};
use crate::truncation::TruncationPolicy;

verus! {

/// Opens the rendered fragment.
pub const RULES_START: &'static str = "<codex_link_rules>";

/// Closes the rendered fragment.
pub const RULES_END: &'static str = "</codex_link_rules>";

/// Per-rule body budget; oversized bodies keep head and tail plus a pointer.
pub const MAX_RULE_BODY_CHARS: usize = 2_000;

/// Hard cap for the whole rendered fragment.
pub const MAX_RULES_FRAGMENT_TOKENS: usize = 1_500;

/// What stands under the start marker.
pub const RULES_INTRO: &'static str = "Project and user rules. Active rules below are binding for this turn; indexed rules list what else exists — read the file when its description matches your task.";

/// Rules loaded for one thread, with the project root used to relativize
/// touched paths for glob matching.
#[derive(Debug, PartialEq, Eq)]
pub struct LinkRules {
    pub project_root: String,
    pub rules: Vec<LinkRule>,
}

/// The texts of a list of rules.
pub open spec fn rule_views(rules: Seq<LinkRule>) -> Seq<RuleView> {
    Seq::new(rules.len(), |i: int| rules[i]@)
}

/// The texts of a list of optional texts.
pub open spec fn opt_texts(values: Seq<Option<String>>) -> Seq<Option<Seq<char>>> {
    Seq::new(values.len(), |i: int| opt_text(values[i]))
}

/// The values whose flag is set.
pub open spec fn selected(values: Seq<Seq<char>>, flags: Seq<bool>) -> Seq<Seq<char>>
    decreases values.len(),
{
    if values.len() == 0 {
        Seq::empty()
    } else if flags[values.len() - 1] {
        selected(values.drop_last(), flags).push(values.last())
    } else {
        selected(values.drop_last(), flags)
    }
}

/// Whether the flags tell which patterns are globs that are taken.
pub open spec fn flags_globs(globs: Seq<Seq<char>>, flags: Seq<bool>) -> bool {
    &&& flags.len() == globs.len()
    &&& forall|i: int| 0 <= i < globs.len() && is_plain_glob(globs[i]) ==> #[trigger] flags[i]
    &&& forall|i: int|
        0 <= i < globs.len() && is_portable(globs[i]) ==> #[trigger] flags[i] == is_valid_glob(
            globs[i],
        )
}

/// Whether a pattern is a glob that is taken.
pub open spec fn is_valid_glob(pattern: Seq<char>) -> bool {
    is_taken(pattern) && is_glob(pattern)
}

/// The patterns that are globs that are taken.
pub open spec fn valid_globs(globs: Seq<Seq<char>>) -> Seq<Seq<char>> {
    selected(globs, Seq::new(globs.len(), |i: int| is_valid_glob(globs[i])))
}

/// The first of `files`, from `from` on, that some glob matches.
pub open spec fn first_matching(
    globs: Seq<Seq<char>>,
    files: Seq<Seq<char>>,
    from: int,
) -> Option<Seq<char>>
    decreases files.len() - from,
{
    if from >= files.len() {
        None
    } else if any_matches(globs, files[from]) {
        Some(files[from])
    } else {
        first_matching(globs, files, from + 1)
    }
}

/// The first of `files`, from `from` on, that some simple glob matches.
pub open spec fn first_simple(
    globs: Seq<Seq<char>>,
    files: Seq<Seq<char>>,
    from: int,
) -> Option<Seq<char>>
    decreases files.len() - from,
{
    if from >= files.len() {
        None
    } else if any_simple(globs, files[from]) {
        Some(files[from])
    } else {
        first_simple(globs, files, from + 1)
    }
}

/// What can be the file that activates a rule: none without globs, one of the
/// touched files, and on portable texts the first that a glob of the rule
/// matches, unless the globs could not be put together, which simple and
/// ordinary ones always can; of plain ones, none is left out.
pub open spec fn may_match(
    globs: Seq<Seq<char>>,
    files: Seq<Seq<char>>,
    matched: Option<Seq<char>>,
) -> bool {
    &&& globs.len() == 0 ==> matched is None
    &&& matched matches Some(file) ==> files.contains(file)
    &&& all_portable(globs) && all_portable(files) ==> matched == first_matching(
        valid_globs(globs),
        files,
        0,
    ) || (matched is None && !is_buildable(valid_globs(globs)))
    &&& is_buildable(globs) && all_portable(files) ==> matched == first_matching(
        valid_globs(globs),
        files,
        0,
    )
    &&& is_buildable(globs) && all_plain(globs) && all_portable(files) ==> matched
        == first_matching(globs, files, 0)
    &&& all_simple(globs) && all_portable(files) ==> matched == first_simple(globs, files, 0)
}

/// Whether a rule's body is shown.
pub open spec fn is_active(rule: RuleView, matched: Option<Seq<char>>) -> bool {
    rule.always_apply || matched is Some
}

/// Each file, or what follows the project root in it.
pub open spec fn relative_texts(
    files: Seq<Seq<char>>,
    below: Seq<Option<Seq<char>>>,
) -> Seq<Seq<char>> {
    Seq::new(
        files.len(),
        |i: int|
            match below[i] {
                Some(relative) => relative,
                None => files[i],
            },
    )
}

/// Why a rule's body is shown.
pub open spec fn reason_text(matched: Option<Seq<char>>) -> Seq<char> {
    match matched {
        Some(file) => "path-scoped, matched "@ + file,
        None => "always"@,
    }
}

/// The section of a rule whose body is shown.
pub open spec fn section_text(
    rule: RuleView,
    matched: Option<Seq<char>>,
    body: Seq<char>,
) -> Seq<char> {
    "["@ + reason_text(matched) + "] "@ + rule.name + " ("@ + rule.path + "):\n"@ + body
}

/// The line of a rule whose body is not shown.
pub open spec fn index_text(rule: RuleView) -> Seq<char> {
    match rule.description {
        Some(description) => "- "@ + rule.name + " — "@ + description + " ("@ + rule.path + ")"@,
        None => "- "@ + rule.name + " ("@ + rule.path + ")"@,
    }
}

/// The sections of the first `n` rules whose bodies are shown.
pub open spec fn active_sections(
    rules: Seq<RuleView>,
    matched: Seq<Option<Seq<char>>>,
    bodies: Seq<Seq<char>>,
    n: int,
) -> Seq<Seq<char>>
    decreases n,
{
    if n <= 0 {
        Seq::empty()
    } else {
        let before = active_sections(rules, matched, bodies, n - 1);
        if is_active(rules[n - 1], matched[n - 1]) {
            before.push(section_text(rules[n - 1], matched[n - 1], bodies[n - 1]))
        } else {
            before
        }
    }
}

/// The lines of the first `n` rules whose bodies are not shown.
pub open spec fn index_lines(
    rules: Seq<RuleView>,
    matched: Seq<Option<Seq<char>>>,
    n: int,
) -> Seq<Seq<char>>
    decreases n,
{
    if n <= 0 {
        Seq::empty()
    } else {
        let before = index_lines(rules, matched, n - 1);
        if is_active(rules[n - 1], matched[n - 1]) {
            before
        } else {
            before.push(index_text(rules[n - 1]))
        }
    }
}

/// The sections of a fragment, from marker to marker.
pub open spec fn fragment_sections(active: Seq<Seq<char>>, index: Seq<Seq<char>>) -> Seq<
    Seq<char>,
> {
    let listed: Seq<Seq<char>> = if index.len() == 0 {
        Seq::empty()
    } else {
        seq!["Available rules:\n"@ + join(index, "\n"@)]
    };
    seq![RULES_START@ + "\n"@ + RULES_INTRO@] + active + listed + seq![RULES_END@]
}

/// The fragment, before it is cut to its cap: the bodies of the rules that
/// apply, then a list of the others.
pub open spec fn fragment_text(
    rules: Seq<RuleView>,
    matched: Seq<Option<Seq<char>>>,
    bodies: Seq<Seq<char>>,
) -> Seq<char> {
    let n = rules.len() as int;
    join(
        fragment_sections(
            active_sections(rules, matched, bodies, n),
            index_lines(rules, matched, n),
        ),
        "\n\n"@,
    )
}

/// A text in which the fragment's markers were made harmless.
pub open spec fn rule_text(text: Seq<char>) -> Seq<char> {
    replace(replace(text, RULES_START@, "<rules>"@), RULES_END@, "</rules>"@)
}

/// Whether a body is shown whole.
pub open spec fn is_short_body(body: Seq<char>) -> bool {
    trim(body).len() <= MAX_RULE_BODY_CHARS
}

/// What is shown of a body that was cut, with a pointer to its file.
pub open spec fn cut_body(cut: Seq<char>, path: Seq<char>) -> Seq<char> {
    rule_text(cut + "\n(rule truncated; read "@ + path + " for the full text)"@)
}

/// What can be shown of a rule's body: all of a short one, and of a longer one
/// what the cutting leaves.
pub open spec fn may_show<T: Fn(&str, TruncationPolicy) -> String>(
    truncate_text: T,
    rule: RuleView,
    shown: Seq<char>,
) -> bool {
    if is_short_body(rule.body) {
        shown == rule_text(trim(rule.body))
    } else {
        exists|text: &str, cut: String|
            text@ == trim(rule.body) && #[trigger] call_ensures(
                truncate_text,
                (text, TruncationPolicy::Bytes(MAX_RULE_BODY_CHARS)),
                cut,
            ) && shown == cut_body(cut@, rule.path)
    }
}

/// Whether a text is a fragment of the rules for touched files that were made
/// relative to the project.
pub open spec fn may_render<T: Fn(&str, TruncationPolicy) -> String>(
    truncate_text: T,
    rules: Seq<RuleView>,
    relative: Seq<Seq<char>>,
    full: Seq<char>,
) -> bool {
    exists|matched: Seq<Option<Seq<char>>>, bodies: Seq<Seq<char>>|
        {
            &&& matched.len() == rules.len()
            &&& bodies.len() == rules.len()
            &&& full == #[trigger] fragment_text(rules, matched, bodies)
            &&& forall|i: int|
                0 <= i < rules.len() ==> may_match(
                    (#[trigger] rules[i]).globs,
                    relative,
                    matched[i],
                )
            &&& forall|i: int|
                0 <= i < rules.len() && is_active(rules[i], matched[i]) ==> may_show(
                    truncate_text,
                    #[trigger] rules[i],
                    bodies[i],
                )
        }
}

/// Makes the fragment's markers harmless: a rule body must not be able to fake
/// the fragment boundary.
pub fn sanitize_rule_text(text: &str) -> (r: String)
    ensures
        r@ == rule_text(text@),
{
    let text = replaced(text, RULES_START, "<rules>");
    replaced(text.as_str(), RULES_END, "</rules>")
}

/// What is shown of a body that was cut.
pub fn render_cut_body(cut: &str, path: &str) -> (r: String)
    ensures
        r@ == cut_body(cut@, path@),
{
    let mut text = owned(cut);
    text.append("\n(rule truncated; read ");
    text.append(path);
    text.append(" for the full text)");
    sanitize_rule_text(text.as_str())
}

/// What is shown of a rule's body.
pub fn truncate_rule_body<T: Fn(&str, TruncationPolicy) -> String>(
    rule: &LinkRule,
    truncate_text: &T,
) -> (r: String)
    requires
        forall|text: &str, policy: TruncationPolicy| call_requires(*truncate_text, (text, policy)),
    ensures
        may_show(*truncate_text, rule@, r@),
{
    let body = trimmed(rule.body.as_str());
    let text: &str = body.as_str();
    let count = to_chars(text).len();
    if count <= MAX_RULE_BODY_CHARS {
        return sanitize_rule_text(text);
    }
    let cut = truncate_text(text, TruncationPolicy::Bytes(MAX_RULE_BODY_CHARS));
    assert(call_ensures(
        *truncate_text,
        (text, TruncationPolicy::Bytes(MAX_RULE_BODY_CHARS)),
        cut,
    ));
    render_cut_body(cut.as_str(), rule.path.as_str())
}

/// The first of `files` that a set of globs matches.
pub fn first_match(matcher: &GlobSet, files: &Vec<String>) -> (r: Option<String>)
    ensures
        r matches Some(file) ==> texts(files@).contains(file@),
        all_portable(set_globs(*matcher)) && all_portable(texts(files@)) ==> opt_text(r)
            == first_matching(set_globs(*matcher), texts(files@), 0),
        all_simple(set_globs(*matcher)) && all_portable(texts(files@)) ==> opt_text(r)
            == first_simple(set_globs(*matcher), texts(files@), 0),
        set_globs(*matcher).len() == 0 ==> r is None,
{
    let ghost all = texts(files@);
    let ghost globs = set_globs(*matcher);
    let ghost portable = all_portable(globs) && all_portable(all);
    let ghost simple = all_simple(globs) && all_portable(all);
    let mut i: usize = 0;
    while i < files.len()
        invariant
            i <= files.len(),
            all == texts(files@),
            globs == set_globs(*matcher),
            portable == (all_portable(globs) && all_portable(all)),
            portable ==> first_matching(globs, all, 0) == first_matching(globs, all, i as int),
            simple == (all_simple(globs) && all_portable(all)),
            simple ==> first_simple(globs, all, 0) == first_simple(globs, all, i as int),
        decreases files.len() - i,
    {
        let matches = globs_match(matcher, files[i].as_str());
        assert(all[i as int] == files@[i as int]@);
        proof {
            if portable {
                assert(is_portable(all[i as int]));
                assert(matches == any_matches(globs, all[i as int]));
            }
            if simple {
                assert(is_portable(all[i as int]));
                assert(matches == any_simple(globs, all[i as int]));
            }
        }
        if matches {
            return Some(files[i].clone());
        }
        i += 1;
    }
    None
}

/// Whether a glob has no more alternates than are taken.
fn glob_is_taken(pattern: &str) -> (r: bool)
    ensures
        r == is_taken(pattern@),
{
    let chars = to_chars(pattern);
    let mut count: usize = 0;
    let mut i: usize = 0;
    assert(chars@.take(0) =~= Seq::empty());
    while i < chars.len()
        invariant
            i <= chars.len(),
            count <= i,
            count == occurrences(chars@.take(i as int), '{'),
        decreases chars.len() - i,
    {
        assert(chars@.take(i + 1).drop_last() =~= chars@.take(i as int));
        assert(chars@.take(i + 1).last() == chars@[i as int]);
        if chars[i] == '{' {
            count += 1;
        }
        i += 1;
    }
    assert(chars@.take(i as int) =~= chars@);
    count <= MAX_GLOB_ALTERNATES
}

impl LinkRule {
    /// The set of the rule's globs; a pattern that is no glob, or that has more
    /// alternates than are taken, is left out.
    pub fn matcher(&self) -> (r: Option<GlobSet>)
        ensures
            self.globs@.len() == 0 ==> r is None,
            r matches Some(set) ==> exists|flags: Seq<bool>|
                #![trigger flags_globs(self@.globs, flags)]
                flags_globs(self@.globs, flags) && set_globs(set) == selected(self@.globs, flags),
            r is None && self.globs@.len() > 0 ==> exists|flags: Seq<bool>|
                #![trigger flags_globs(self@.globs, flags)]
                flags_globs(self@.globs, flags) && !is_buildable(selected(self@.globs, flags)),
    {
        if self.globs.len() == 0 {
            return None;
        }
        let ghost all = self@.globs;
        let mut builder = GlobSetBuilder::new();
        let ghost mut flags: Seq<bool> = Seq::empty();
        let mut i: usize = 0;
        assert(all.take(0) =~= Seq::empty());
        while i < self.globs.len()
            invariant
                i <= self.globs.len(),
                all == self@.globs,
                flags.len() == i,
                builder_globs(builder) == selected(all.take(i as int), flags),
                forall|j: int|
                    0 <= j < i && is_portable(all[j]) ==> #[trigger] flags[j] == is_valid_glob(
                        all[j],
                    ),
                forall|j: int| 0 <= j < i && is_plain_glob(all[j]) ==> #[trigger] flags[j],
            decreases self.globs.len() - i,
        {
            let pattern = self.globs[i].as_str();
            let added = if glob_is_taken(pattern) {
                add_glob(&mut builder, pattern).is_ok()
            } else {
                false
            };
            proof {
                if is_plain_glob(all[i as int]) {
                    lemma_no_alternates(all[i as int]);
                }
                let before = flags;
                flags = flags.push(added);
                assert(all[i as int] == self.globs@[i as int]@);
                assert(all.take(i + 1).drop_last() =~= all.take(i as int));
                lemma_selected_prefix(all.take(i as int), before, flags);
            }
            i += 1;
        }
        assert(all.take(i as int) =~= all);
        assert(flags_globs(all, flags));
        match build_globs(&builder) {
            Ok(set) => Some(set),
            Err(_) => None,
        }
    }

    /// The touched file that activates the rule.
    pub fn matched_file(&self, relative_touched: &Vec<String>) -> (r: Option<String>)
        ensures
            may_match(self@.globs, texts(relative_touched@), opt_text(r)),
    {
        match self.matcher() {
            Some(matcher) => {
                let r = first_match(&matcher, relative_touched);
                proof {
                    let globs = self@.globs;
                    let flags = choose|flags: Seq<bool>|
                        #![trigger flags_globs(globs, flags)]
                        flags_globs(globs, flags) && set_globs(matcher) == selected(globs, flags);
                    if is_buildable(globs) {
                        lemma_buildable_is_portable(globs);
                    }
                    if all_portable(globs) {
                        lemma_portable_flags(globs, flags);
                        lemma_selected_portable(globs, flags);
                    }
                    if all_simple(globs) {
                        lemma_simple_is_plain(globs);
                    }
                    if all_plain(globs) {
                        lemma_plain_flags(globs, flags);
                        lemma_plain_is_portable(globs);
                    }
                }
                r
            },
            None => {
                proof {
                    let globs = self@.globs;
                    if globs.len() > 0 {
                        let flags = choose|flags: Seq<bool>|
                            #![trigger flags_globs(globs, flags)]
                            flags_globs(globs, flags) && !is_buildable(selected(globs, flags));
                        if is_buildable(globs) {
                            lemma_selected_buildable(globs, flags);
                        }
                        if all_portable(globs) {
                            lemma_portable_flags(globs, flags);
                        }
                        if all_simple(globs) {
                            lemma_simple_is_plain(globs);
                        }
                        if all_plain(globs) {
                            lemma_plain_flags(globs, flags);
                        }
                    } else {
                        lemma_no_glob_matches(globs, texts(relative_touched@), 0);
                    }
                }
                None
            },
        }
    }

    /// Renders the line of a rule whose body is not shown.
    pub fn index_line(&self) -> (r: String)
        ensures
            r@ == index_text(self@),
    {
        let mut r = owned("- ");
        r.append(self.name.as_str());
        match &self.description {
            Some(description) => {
                r.append(" — ");
                r.append(description.as_str());
            },
            None => {},
        }
        r.append(" (");
        r.append(self.path.as_str());
        r.append(")");
        r
    }
}

fn render_section(rule: &LinkRule, matched: &Option<String>, body: &str) -> (r: String)
    ensures
        r@ == section_text(rule@, opt_text(*matched), body@),
{
    let mut r = owned("[");
    match matched {
        Some(file) => {
            r.append("path-scoped, matched ");
            r.append(file.as_str());
        },
        None => {
            r.append("always");
        },
    }
    assert(r@ =~= "["@ + reason_text(opt_text(*matched)));
    r.append("] ");
    r.append(rule.name.as_str());
    r.append(" (");
    r.append(rule.path.as_str());
    r.append("):\n");
    r.append(body);
    r
}

/// Renders the fragment of rules, given the file that activates each rule and
/// what is shown of each body.
pub fn render_rules(
    rules: &Vec<LinkRule>,
    matched: &Vec<Option<String>>,
    bodies: &Vec<String>,
) -> (r: String)
    requires
        matched@.len() == rules@.len(),
        bodies@.len() == rules@.len(),
    ensures
        r@ == fragment_text(rule_views(rules@), opt_texts(matched@), texts(bodies@)),
{
    let ghost views = rule_views(rules@);
    let ghost files = opt_texts(matched@);
    let ghost shown = texts(bodies@);
    let mut active: Vec<String> = Vec::new();
    let mut index: Vec<String> = Vec::new();
    let mut i: usize = 0;
    assert(texts(active@) =~= Seq::empty());
    assert(texts(index@) =~= Seq::empty());
    while i < rules.len()
        invariant
            i <= rules.len(),
            matched@.len() == rules@.len(),
            bodies@.len() == rules@.len(),
            views == rule_views(rules@),
            files == opt_texts(matched@),
            shown == texts(bodies@),
            texts(active@) == active_sections(views, files, shown, i as int),
            texts(index@) == index_lines(views, files, i as int),
        decreases rules.len() - i,
    {
        if rules[i].always_apply || matched[i].is_some() {
            let section = render_section(&rules[i], &matched[i], bodies[i].as_str());
            proof {
                lemma_texts_push(active@, section);
            }
            active.push(section);
        } else {
            let line = rules[i].index_line();
            proof {
                lemma_texts_push(index@, line);
            }
            index.push(line);
        }
        i += 1;
    }
    let ghost active_views = texts(active@);
    let ghost index_views = texts(index@);
    let mut head = owned(RULES_START);
    head.append("\n");
    head.append(RULES_INTRO);
    let mut sections: Vec<String> = Vec::new();
    sections.push(head);
    sections.append(&mut active);
    assert(texts(sections@) =~= seq![RULES_START@ + "\n"@ + RULES_INTRO@] + active_views);
    let ghost so_far = texts(sections@);
    if index.len() > 0 {
        let mut listed = owned("Available rules:\n");
        listed.append(join_strings(&index, "\n").as_str());
        proof {
            lemma_texts_push(sections@, listed);
        }
        sections.push(listed);
        assert(texts(sections@) =~= so_far + seq![
            "Available rules:\n"@ + join(index_views, "\n"@),
        ]);
    } else {
        assert(texts(sections@) =~= so_far + Seq::<Seq<char>>::empty());
    }
    assert(index_views.len() == index.len());
    let end = owned(RULES_END);
    proof {
        lemma_texts_push(sections@, end);
    }
    sections.push(end);
    assert(texts(sections@) =~= fragment_sections(active_views, index_views));
    join_strings(&sections, "\n\n")
}

/// Whether texts tell what follows the project root in each touched file, as
/// far as every platform agrees on it.
pub open spec fn tells_below(
    relative: Seq<Option<Seq<char>>>,
    files: Seq<Seq<char>>,
    project_root: Seq<char>,
) -> bool {
    relative.len() == files.len() && forall|i: int|
        0 <= i < files.len() && is_neutral(files[i]) && is_neutral(project_root) ==> follows(
            files[i],
            project_root,
            #[trigger] relative[i],
        )
}

/// What follows the project root in each touched file that stands below it.
fn paths_below(files_touched: &Vec<String>, project_root: &str) -> (r: Vec<Option<String>>)
    ensures
        r@.len() == files_touched@.len(),
        tells_below(opt_texts(r@), texts(files_touched@), project_root@),
{
    let mut r: Vec<Option<String>> = Vec::new();
    let mut i: usize = 0;
    while i < files_touched.len()
        invariant
            i <= files_touched.len(),
            r@.len() == i,
            forall|j: int|
                0 <= j < i && is_neutral(files_touched@[j]@) && is_neutral(project_root@)
                    ==> follows(files_touched@[j]@, project_root@, opt_text(#[trigger] r@[j])),
        decreases files_touched.len() - i,
    {
        r.push(path_below(files_touched[i].as_str(), project_root));
        i += 1;
    }
    r
}

/// The touched files, relative to the project where they stand below it.
pub fn relative_paths(files_touched: &Vec<String>, below: &Vec<Option<String>>) -> (r: Vec<String>)
    requires
        below@.len() == files_touched@.len(),
    ensures
        texts(r@) == relative_texts(texts(files_touched@), opt_texts(below@)),
{
    let ghost goal = relative_texts(texts(files_touched@), opt_texts(below@));
    let mut r: Vec<String> = Vec::new();
    let mut i: usize = 0;
    assert(texts(r@) =~= goal.take(0));
    while i < files_touched.len()
        invariant
            i <= files_touched.len(),
            below@.len() == files_touched@.len(),
            goal == relative_texts(texts(files_touched@), opt_texts(below@)),
            texts(r@) == goal.take(i as int),
        decreases files_touched.len() - i,
    {
        let path = match &below[i] {
            Some(relative) => relative.clone(),
            None => files_touched[i].clone(),
        };
        proof {
            lemma_texts_push(r@, path);
            assert(path@ == goal[i as int]);
            assert(goal.take(i + 1) =~= goal.take(i as int).push(goal[i as int]));
        }
        r.push(path);
        i += 1;
    }
    assert(goal.take(i as int) =~= goal);
    r
}

impl LinkRules {
    /// Rules of two sources, those of the project first.
    pub fn from_sources(
        project_root: String,
        project_rules: Vec<LinkRule>,
        user_rules: Vec<LinkRule>,
    ) -> (r: Self)
        ensures
            r.project_root == project_root,
            r.rules@ == project_rules@ + user_rules@,
    {
        let mut rules = project_rules;
        let mut user_rules = user_rules;
        rules.append(&mut user_rules);
        LinkRules { project_root, rules }
    }

    /// Renders the fragment for touched files that were made relative to the
    /// project, before it is cut to its cap.
    pub fn render_relative<T: Fn(&str, TruncationPolicy) -> String>(
        &self,
        relative_touched: &Vec<String>,
        truncate_text: &T,
    ) -> (r: String)
        requires
            forall|text: &str, policy: TruncationPolicy|
                call_requires(*truncate_text, (text, policy)),
        ensures
            may_render(
                *truncate_text,
                rule_views(self.rules@),
                texts(relative_touched@),
                r@,
            ),
    {
        let ghost views = rule_views(self.rules@);
        let mut matched: Vec<Option<String>> = Vec::new();
        let mut bodies: Vec<String> = Vec::new();
        let mut i: usize = 0;
        while i < self.rules.len()
            invariant
                i <= self.rules.len(),
                views == rule_views(self.rules@),
                matched@.len() == i,
                bodies@.len() == i,
                forall|text: &str, policy: TruncationPolicy|
                    call_requires(*truncate_text, (text, policy)),
                forall|j: int|
                    0 <= j < i ==> may_match(
                        (#[trigger] views[j]).globs,
                        texts(relative_touched@),
                        opt_text(matched@[j]),
                    ),
                forall|j: int|
                    0 <= j < i && is_active(views[j], opt_text(matched@[j])) ==> may_show(
                        *truncate_text,
                        #[trigger] views[j],
                        bodies@[j]@,
                    ),
            decreases self.rules.len() - i,
        {
            let rule = &self.rules[i];
            let file = rule.matched_file(relative_touched);
            let body = if rule.always_apply || file.is_some() {
                truncate_rule_body(rule, truncate_text)
            } else {
                String::new()
            };
            assert(views[i as int] == rule@);
            matched.push(file);
            bodies.push(body);
            i += 1;
        }
        proof {
            let files = opt_texts(matched@);
            let shown = texts(bodies@);
            assert forall|j: int| 0 <= j < views.len() implies may_match(
                (#[trigger] views[j]).globs,
                texts(relative_touched@),
                files[j],
            ) by {}
            assert forall|j: int|
                0 <= j < views.len() && is_active(views[j], files[j]) implies may_show(
                *truncate_text,
                #[trigger] views[j],
                shown[j],
            ) by {}
        }
        render_rules(&self.rules, &matched, &bodies)
    }

    /// Renders the bounded rules fragment for the current turn, or `None` when
    /// no rules exist. `files_touched` selects which glob-scoped rules have
    /// activated this session.
    pub fn render<T: Fn(&str, TruncationPolicy) -> String>(
        &self,
        files_touched: &Vec<String>,
        truncate_text: &T,
    ) -> (r: Option<String>)
        requires
            forall|text: &str, policy: TruncationPolicy|
                call_requires(*truncate_text, (text, policy)),
        ensures
            r is None <==> self.rules@.len() == 0,
            r matches Some(out) ==> exists|below: Seq<Option<Seq<char>>>, full: &str|
                tells_below(below, texts(files_touched@), self.project_root@)
                    && #[trigger] may_render(
                    *truncate_text,
                    rule_views(self.rules@),
                    relative_texts(texts(files_touched@), below),
                    full@,
                ) && call_ensures(
                    *truncate_text,
                    (full, TruncationPolicy::Tokens(MAX_RULES_FRAGMENT_TOKENS)),
                    out,
                ),
    {
        if self.rules.len() == 0 {
            return None;
        }
        let below = paths_below(files_touched, self.project_root.as_str());
        let relative = relative_paths(files_touched, &below);
        let rendered = self.render_relative(&relative, truncate_text);
        let full: &str = rendered.as_str();
        let out = truncate_text(full, TruncationPolicy::Tokens(MAX_RULES_FRAGMENT_TOKENS));
        assert(may_render(
            *truncate_text,
            rule_views(self.rules@),
            relative_texts(texts(files_touched@), opt_texts(below@)),
            full@,
        ));
        Some(out)
    }
}

proof fn lemma_selected_prefix(values: Seq<Seq<char>>, a: Seq<bool>, b: Seq<bool>)
    requires
        values.len() <= a.len(),
        values.len() <= b.len(),
        forall|i: int| 0 <= i < values.len() ==> a[i] == #[trigger] b[i],
    ensures
        selected(values, a) == selected(values, b),
    decreases values.len(),
{
    if values.len() > 0 {
        assert(a[values.len() - 1] == b[values.len() - 1]);
        lemma_selected_prefix(values.drop_last(), a, b);
    }
}

proof fn lemma_portable_flags(globs: Seq<Seq<char>>, flags: Seq<bool>)
    requires
        all_portable(globs),
        flags_globs(globs, flags),
    ensures
        selected(globs, flags) == valid_globs(globs),
{
    let valid = Seq::new(globs.len(), |i: int| is_valid_glob(globs[i]));
    assert forall|i: int| 0 <= i < globs.len() implies flags[i] == #[trigger] valid[i] by {
        assert(is_portable(globs[i]));
        assert(flags[i] == is_valid_glob(globs[i]));
    }
    lemma_selected_prefix(globs, flags, valid);
}

proof fn lemma_no_alternates(pattern: Seq<char>)
    requires
        lacks(pattern, '{'),
    ensures
        occurrences(pattern, '{') == 0,
    decreases pattern.len(),
{
    if pattern.len() > 0 {
        assert(pattern[pattern.len() - 1] != '{');
        lemma_no_alternates(pattern.drop_last());
    }
}

proof fn lemma_buildable_is_portable(globs: Seq<Seq<char>>)
    requires
        is_buildable(globs),
    ensures
        all_portable(globs),
{
    if all_simple(globs) {
        lemma_simple_is_plain(globs);
        lemma_plain_is_portable(globs);
    } else {
        assert forall|i: int| 0 <= i < globs.len() implies is_portable(#[trigger] globs[i]) by {
            assert(is_ordinary_glob(globs[i]));
        }
    }
}

/// Of globs of which a set can be made, one can be made of any part.
proof fn lemma_selected_buildable(globs: Seq<Seq<char>>, flags: Seq<bool>)
    requires
        is_buildable(globs),
    ensures
        is_buildable(selected(globs, flags)),
        all_simple(globs) ==> all_simple(selected(globs, flags)),
        is_ordinary(globs) ==> is_ordinary(selected(globs, flags)),
        selected(globs, flags).len() <= globs.len(),
        total_chars(selected(globs, flags)) <= total_chars(globs),
    decreases globs.len(),
{
    if globs.len() > 0 {
        let rest = globs.drop_last();
        let last = globs.last();
        assert forall|i: int| 0 <= i < rest.len() implies #[trigger] rest[i] == globs[i] by {}
        if all_simple(globs) {
            assert(is_simple(globs[globs.len() - 1]));
            assert forall|i: int| 0 <= i < rest.len() implies is_simple(#[trigger] rest[i]) by {
                assert(is_simple(globs[i]));
            }
        }
        if is_ordinary(globs) {
            assert(is_ordinary_glob(globs[globs.len() - 1]));
            assert forall|i: int| 0 <= i < rest.len() implies is_ordinary_glob(
                #[trigger] rest[i],
            ) by {
                assert(is_ordinary_glob(globs[i]));
            }
        }
        lemma_selected_buildable(rest, flags);
        let part = selected(rest, flags);
        assert(part.push(last).drop_last() =~= part);
    }
}

proof fn lemma_simple_is_plain(globs: Seq<Seq<char>>)
    requires
        all_simple(globs),
    ensures
        all_plain(globs),
{
    assert forall|i: int| 0 <= i < globs.len() implies is_plain_glob(#[trigger] globs[i]) by {
        assert(is_simple(globs[i]));
    }
}

proof fn lemma_plain_is_portable(globs: Seq<Seq<char>>)
    requires
        all_plain(globs),
    ensures
        all_portable(globs),
{
    assert forall|i: int| 0 <= i < globs.len() implies is_portable(#[trigger] globs[i]) by {
        assert(is_plain_glob(globs[i]));
    }
}

proof fn lemma_plain_flags(globs: Seq<Seq<char>>, flags: Seq<bool>)
    requires
        all_plain(globs),
        globs.len() <= flags.len(),
        forall|i: int| 0 <= i < globs.len() && is_plain_glob(globs[i]) ==> #[trigger] flags[i],
    ensures
        selected(globs, flags) == globs,
    decreases globs.len(),
{
    if globs.len() > 0 {
        let rest = globs.drop_last();
        assert forall|i: int| 0 <= i < rest.len() implies is_plain_glob(#[trigger] rest[i]) by {
            assert(rest[i] == globs[i]);
        }
        assert forall|i: int| 0 <= i < rest.len() && is_plain_glob(rest[i]) implies
            #[trigger] flags[i] by {
            assert(rest[i] == globs[i]);
        }
        lemma_plain_flags(rest, flags);
        assert(is_plain_glob(globs[globs.len() - 1]));
        assert(flags[globs.len() - 1]);
        assert(rest.push(globs.last()) =~= globs);
    } else {
        assert(selected(globs, flags) =~= globs);
    }
}

proof fn lemma_no_glob_matches(globs: Seq<Seq<char>>, files: Seq<Seq<char>>, from: int)
    requires
        globs.len() == 0,
    ensures
        first_matching(valid_globs(globs), files, from) is None,
        first_matching(globs, files, from) is None,
        first_simple(globs, files, from) is None,
    decreases files.len() - from,
{
    if from < files.len() {
        lemma_no_glob_matches(globs, files, from + 1);
    }
}

proof fn lemma_selected_portable(globs: Seq<Seq<char>>, flags: Seq<bool>)
    requires
        all_portable(globs),
    ensures
        all_portable(selected(globs, flags)),
    decreases globs.len(),
{
    if globs.len() > 0 {
        let rest = globs.drop_last();
        assert forall|i: int| 0 <= i < rest.len() implies is_portable(#[trigger] rest[i]) by {
            assert(rest[i] == globs[i]);
        }
        lemma_selected_portable(rest, flags);
        assert(is_portable(globs[globs.len() - 1]));
    }
}

} // verus!
