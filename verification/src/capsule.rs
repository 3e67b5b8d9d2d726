//! The context capsule: a bounded block of text between two markers.

use vstd::prelude::*;

use crate::context::{ContextView, LinkContextState};
use crate::markers::{
    enclosed, is_tag, lacks, lacks_from, lemma_append_clean, lemma_clean_across, lemma_clean_take,
    lemma_enclosed, lemma_lacks_clean, lemma_lacks_from, lemma_plain_clean,
};
use crate::sanitize::{
    disarm_markers, lemma_disarmed_has_no_marker, lemma_marker_facts, lemma_nothing_to_disarm,
    lemma_sanitized_has_no_marker, sanitize_value, sanitized, without_markers, CAPSULE_END,
    CAPSULE_START,
};
use crate::search::{matches_at, occurs, occurs_at};
use crate::text::{
    from_chars, is_blank, opt_text, owned, sub_chars, texts, to_chars, trim, trim_chars,
};
use crate::truncation::TruncationPolicy;

verus! {

/// Most tokens of a capsule.
pub const DEFAULT_MAX_CAPSULE_TOKENS: usize = 1_500;

/// Most characters of one fact in a capsule.
pub const DEFAULT_MAX_FIELD_CHARS: usize = 1_200;

/// One list item.
pub open spec fn bullet(value: Seq<char>) -> Seq<char> {
    "- "@ + value + "\n"@
}

/// The list items of the values that are not blank.
pub open spec fn bullets(values: Seq<Seq<char>>, max_chars: nat) -> Seq<char>
    decreases values.len(),
{
    if values.len() == 0 {
        Seq::empty()
    } else {
        let before = bullets(values.drop_last(), max_chars);
        match sanitized(values.last(), max_chars) {
            Some(value) => before + bullet(value),
            None => before,
        }
    }
}

/// A section with one value.
pub open spec fn single_section(
    heading: Seq<char>,
    value: Option<Seq<char>>,
    max_chars: nat,
) -> Seq<char> {
    let shown = match value {
        Some(value) => sanitized(value, max_chars),
        None => None,
    };
    heading + ":\n"@ + match shown {
        Some(value) => bullet(value),
        None => bullet("(none recorded)"@),
    }
}

/// A section with a list of values.
pub open spec fn list_section(
    heading: Seq<char>,
    values: Seq<Seq<char>>,
    max_chars: nat,
) -> Seq<char> {
    heading + ":\n"@ + if bullets(values, max_chars).len() > 0 {
        bullets(values, max_chars)
    } else {
        bullet("(none recorded)"@)
    }
}

/// The sections of a capsule.
pub open spec fn sections(facts: ContextView, max_chars: nat) -> Seq<char> {
    single_section("Active goal"@, facts.active_goal, max_chars) + list_section(
        "Success criteria"@,
        facts.success_criteria,
        max_chars,
    ) + list_section("Current progress"@, facts.current_progress, max_chars) + single_section(
        "Next action"@,
        facts.next_action,
        max_chars,
    ) + list_section("Files touched"@, facts.files_touched, max_chars) + list_section(
        "Verified evidence"@,
        facts.verified_evidence,
        max_chars,
    ) + list_section("Background jobs"@, facts.active_background_jobs, max_chars) + list_section(
        "Open blockers"@,
        facts.open_blockers,
        max_chars,
    )
}

/// The whole capsule, before its size is looked at.
pub open spec fn capsule_text(facts: ContextView, max_chars: nat) -> Seq<char> {
    CAPSULE_START@ + "\n"@ + sections(facts, max_chars) + CAPSULE_END@
}

/// A capsule around a body that was cut.
pub open spec fn wrapped(body: Seq<char>) -> Seq<char> {
    CAPSULE_START@ + "\n"@ + body + "\n"@ + CAPSULE_END@
}

/// Whether the start marker occurs at the start of a text alone, and the end
/// marker at its end alone.
pub open spec fn has_markers_at_ends(capsule: Seq<char>) -> bool {
    &&& forall|i: int| #[trigger] occurs_at(capsule, CAPSULE_START@, i) <==> i == 0
    &&& forall|i: int| #[trigger]
        occurs_at(capsule, CAPSULE_END@, i) <==> i == capsule.len() - CAPSULE_END@.len()
}

/// What is cut of a capsule that is too large: what stands between the
/// markers; all of a text that is not between them.
pub open spec fn capsule_body(capsule: Seq<char>) -> Seq<char> {
    let end = capsule.len() - CAPSULE_END@.len();
    if occurs_at(capsule, CAPSULE_START@, 0) && CAPSULE_START@.len() <= end && occurs_at(
        capsule,
        CAPSULE_END@,
        end,
    ) {
        trim(capsule.subrange(CAPSULE_START@.len() as int, end))
    } else {
        trim(capsule)
    }
}

/// The token budget for a body that is cut.
pub open spec fn body_budget(max_tokens: usize) -> usize {
    if max_tokens > 65 {
        (max_tokens - 64) as usize
    } else {
        1
    }
}

/// Appends a list item.
pub fn render_bullet(out: &mut String, value: &str)
    ensures
        final(out)@ == old(out)@ + bullet(value@),
{
    let ghost start = out@;
    out.append("- ");
    out.append(value);
    out.append("\n");
    assert(out@ =~= start + bullet(value@));
}

/// Appends a section with one value.
pub fn render_single_section(
    out: &mut String,
    heading: &str,
    value: &Option<String>,
    max_chars: usize,
)
    ensures
        final(out)@ == old(out)@ + single_section(heading@, opt_text(*value), max_chars as nat),
{
    let ghost start = out@;
    out.append(heading);
    out.append(":\n");
    let shown: Option<String> = match value {
        Some(value) => sanitize_value(value.as_str(), max_chars),
        None => None,
    };
    match shown {
        Some(value) => render_bullet(out, value.as_str()),
        None => render_bullet(out, "(none recorded)"),
    }
    assert(out@ =~= start + single_section(heading@, opt_text(*value), max_chars as nat));
}

/// Appends a section with a list of values.
pub fn render_list_section(out: &mut String, heading: &str, values: &Vec<String>, max_chars: usize)
    ensures
        final(out)@ == old(out)@ + list_section(heading@, texts(values@), max_chars as nat),
{
    let ghost start = out@;
    out.append(heading);
    out.append(":\n");
    let ghost head = out@;
    let ghost all = texts(values@);
    let mut rendered = false;
    let mut i: usize = 0;
    assert(all.take(0) =~= Seq::empty());
    assert(out@ =~= head + bullets(all.take(0), max_chars as nat));
    while i < values.len()
        invariant
            i <= values.len(),
            all == texts(values@),
            out@ == head + bullets(all.take(i as int), max_chars as nat),
            rendered == (bullets(all.take(i as int), max_chars as nat).len() > 0),
        decreases values.len() - i,
    {
        assert(all.take(i + 1).drop_last() =~= all.take(i as int));
        assert(all.take(i + 1).last() == values@[i as int]@);
        let ghost before = out@;
        match sanitize_value(values[i].as_str(), max_chars) {
            Some(value) => {
                rendered = true;
                render_bullet(out, value.as_str());
                assert(out@ =~= head + (bullets(all.take(i as int), max_chars as nat) + bullet(
                    value@,
                )));
                proof {
                    reveal_strlit("- ");
                }
            },
            None => {},
        }
        i += 1;
    }
    assert(all.take(i as int) =~= all);
    if !rendered {
        assert(out@ =~= head);
        render_bullet(out, "(none recorded)");
    }
    assert(out@ =~= start + list_section(heading@, texts(values@), max_chars as nat));
}

/// Renders the whole capsule, whatever its size.
pub fn render_capsule_text(state: &LinkContextState, max_field_chars: usize) -> (r: String)
    ensures
        r@ == capsule_text(state@, max_field_chars as nat),
{
    let mut out = owned(CAPSULE_START);
    out.append("\n");
    render_single_section(&mut out, "Active goal", &state.active_goal, max_field_chars);
    render_list_section(&mut out, "Success criteria", &state.success_criteria, max_field_chars);
    render_list_section(&mut out, "Current progress", &state.current_progress, max_field_chars);
    render_single_section(&mut out, "Next action", &state.next_action, max_field_chars);
    render_list_section(&mut out, "Files touched", &state.files_touched, max_field_chars);
    render_list_section(&mut out, "Verified evidence", &state.verified_evidence, max_field_chars);
    render_list_section(
        &mut out,
        "Background jobs",
        &state.active_background_jobs,
        max_field_chars,
    );
    render_list_section(&mut out, "Open blockers", &state.open_blockers, max_field_chars);
    out.append(CAPSULE_END);
    assert(out@ =~= capsule_text(state@, max_field_chars as nat));
    out
}

/// What to do with a rendered capsule.
#[derive(Debug, PartialEq, Eq)]
pub enum CapsuleFit {
    /// It is within its budget.
    Fits,
    /// Its body is to be cut to a token budget and wrapped again.
    Cut { body: String, budget: usize },
}

/// Decides, by its number of tokens, whether a capsule is to be cut.
pub fn fit_capsule(capsule: &str, tokens: usize, max_tokens: usize) -> (r: CapsuleFit)
    ensures
        r is Fits <==> tokens <= max_tokens,
        r matches CapsuleFit::Cut { body, budget } ==> body@ == capsule_body(capsule@) && budget
            == body_budget(max_tokens),
{
    if tokens <= max_tokens {
        return CapsuleFit::Fits;
    }
    let budget: usize = if max_tokens > 65 {
        max_tokens - 64
    } else {
        1
    };
    let chars = to_chars(capsule);
    let start = to_chars(CAPSULE_START);
    let end = to_chars(CAPSULE_END);
    let between = chars.len() >= end.len() && start.len() <= chars.len() - end.len() && matches_at(
        chars.as_slice(),
        start.as_slice(),
        0,
    ) && matches_at(chars.as_slice(), end.as_slice(), chars.len() - end.len());
    let body = if between {
        let inner = sub_chars(chars.as_slice(), start.len(), chars.len() - end.len());
        trim_chars(inner.as_slice())
    } else {
        trim_chars(chars.as_slice())
    };
    CapsuleFit::Cut { body: from_chars(body.as_slice()), budget }
}

/// Wraps a body that was cut.
pub fn wrap_capsule(body: &str) -> (r: String)
    ensures
        r@ == wrapped(body@),
{
    let mut out = owned(CAPSULE_START);
    out.append("\n");
    out.append(body);
    out.append("\n");
    out.append(CAPSULE_END);
    assert(out@ =~= wrapped(body@));
    out
}

/// Renders a bounded capsule, or `None` when there is nothing to show. The
/// caller supplies the measure of a text in tokens and the cutting of a text;
/// a marker that the cutting brings in is made harmless like those in facts.
pub fn render_capsule_with_limits<
    C: Fn(&str) -> usize,
    T: Fn(&str, TruncationPolicy) -> String,
>(
    state: &LinkContextState,
    max_tokens: usize,
    max_field_chars: usize,
    approx_token_count: C,
    truncate_text: T,
) -> (r: Option<String>)
    requires
        forall|text: &str| call_requires(approx_token_count, (text,)),
        forall|text: &str, policy: TruncationPolicy| call_requires(truncate_text, (text, policy)),
    ensures
        r is None <==> state@.is_blank(),
        r matches Some(out) ==> exists|full: &str, tokens: usize|
            full@ == capsule_text(state@, max_field_chars as nat) && #[trigger] call_ensures(
                approx_token_count,
                (full,),
                tokens,
            ) && (tokens <= max_tokens ==> out@ == full@) && (tokens > max_tokens ==> exists|
                body: &str,
                cut: String,
            |
                body@ == capsule_body(full@) && #[trigger] call_ensures(
                    truncate_text,
                    (body, TruncationPolicy::Tokens(body_budget(max_tokens))),
                    cut,
                ) && out@ == wrapped(without_markers(cut@))),
        r matches Some(out) ==> has_markers_at_ends(out@),
{
    if state.is_empty() {
        return None;
    }
    let out = render_capsule_text(state, max_field_chars);
    let full: &str = out.as_str();
    let tokens = approx_token_count(full);
    assert(call_ensures(approx_token_count, (full,), tokens));
    match fit_capsule(full, tokens, max_tokens) {
        CapsuleFit::Fits => {
            proof {
                lemma_capsule_markers(state@, max_field_chars as nat);
            }
            let r = out.clone();
            Some(r)
        },
        CapsuleFit::Cut { body, budget } => {
            let body: &str = body.as_str();
            let cut = truncate_text(body, TruncationPolicy::Tokens(budget));
            assert(call_ensures(
                truncate_text,
                (body, TruncationPolicy::Tokens(body_budget(max_tokens))),
                cut,
            ));
            proof {
                lemma_cut_capsule_markers(cut@);
            }
            Some(wrap_capsule(disarm_markers(cut.as_str()).as_str()))
        },
    }
}

impl LinkContextState {
    /// Renders a bounded prompt capsule, or `None` when there is no state yet.
    pub fn render_capsule<C: Fn(&str) -> usize, T: Fn(&str, TruncationPolicy) -> String>(
        &self,
        approx_token_count: C,
        truncate_text: T,
    ) -> (r: Option<String>)
        requires
            forall|text: &str| call_requires(approx_token_count, (text,)),
            forall|text: &str, policy: TruncationPolicy|
                call_requires(truncate_text, (text, policy)),
        ensures
            r is None <==> self@.is_blank(),
            r matches Some(out) ==> exists|full: &str, tokens: usize|
                full@ == capsule_text(self@, DEFAULT_MAX_FIELD_CHARS as nat)
                    && #[trigger] call_ensures(approx_token_count, (full,), tokens) && (tokens
                    <= DEFAULT_MAX_CAPSULE_TOKENS ==> out@ == full@) && (tokens
                    > DEFAULT_MAX_CAPSULE_TOKENS ==> exists|body: &str, cut: String|
                    body@ == capsule_body(full@) && #[trigger] call_ensures(
                        truncate_text,
                        (body, TruncationPolicy::Tokens(body_budget(DEFAULT_MAX_CAPSULE_TOKENS))),
                        cut,
                    ) && out@ == wrapped(without_markers(cut@))),
            r matches Some(out) ==> has_markers_at_ends(out@),
    {
        render_capsule_with_limits(
            self,
            DEFAULT_MAX_CAPSULE_TOKENS,
            DEFAULT_MAX_FIELD_CHARS,
            approx_token_count,
            truncate_text,
        )
    }
}

/// A marker of the capsule.
pub open spec fn is_capsule_marker(marker: Seq<char>) -> bool {
    marker == CAPSULE_START@ || marker == CAPSULE_END@
}

proof fn lemma_capsule_tags(marker: Seq<char>)
    requires
        is_capsule_marker(marker),
    ensures
        is_tag(marker),
        !occurs(Seq::<char>::empty(), marker),
{
    lemma_marker_facts();
    lemma_lacks_clean(Seq::<char>::empty(), marker);
}

proof fn lemma_bullet_clean(value: Seq<char>, marker: Seq<char>)
    requires
        is_capsule_marker(marker),
        !occurs(value, marker),
    ensures
        !occurs(bullet(value), marker),
        bullet(value).last() == '\n',
        bullet(value).len() > 0,
{
    lemma_capsule_tags(marker);
    reveal_strlit("- ");
    reveal_strlit("\n");
    reveal_with_fuel(lacks_from, 3);
    lemma_plain_clean("- "@, marker);
    lemma_append_clean("- "@, value, marker);
    lemma_clean_across("- "@ + value, '\n', Seq::empty(), marker);
    assert("- "@ + value + seq!['\n'] + Seq::<char>::empty() =~= bullet(value));
}

proof fn lemma_bullets_clean(values: Seq<Seq<char>>, max_chars: nat, marker: Seq<char>)
    requires
        is_capsule_marker(marker),
    ensures
        !occurs(bullets(values, max_chars), marker),
        bullets(values, max_chars).len() == 0 || bullets(values, max_chars).last() == '\n',
    decreases values.len(),
{
    lemma_capsule_tags(marker);
    if values.len() > 0 {
        lemma_bullets_clean(values.drop_last(), max_chars, marker);
        match sanitized(values.last(), max_chars) {
            Some(value) => {
                lemma_sanitized_has_no_marker(values.last(), max_chars);
                lemma_bullet_clean(value, marker);
                lemma_append_clean(
                    bullets(values.drop_last(), max_chars),
                    bullet(value),
                    marker,
                );
            },
            None => {},
        }
    }
}

proof fn lemma_none_recorded_clean(marker: Seq<char>)
    requires
        is_capsule_marker(marker),
    ensures
        !occurs(bullet("(none recorded)"@), marker),
        bullet("(none recorded)"@).len() > 0,
        bullet("(none recorded)"@).last() == '\n',
{
    lemma_capsule_tags(marker);
    reveal_strlit("(none recorded)");
    reveal_with_fuel(lacks_from, 16);
    lemma_plain_clean("(none recorded)"@, marker);
    lemma_bullet_clean("(none recorded)"@, marker);
}

proof fn lemma_heading_clean(heading: Seq<char>, marker: Seq<char>)
    requires
        is_capsule_marker(marker),
        lacks_from(heading, '<', 0),
    ensures
        !occurs(heading + ":\n"@, marker),
        (heading + ":\n"@).last() == '\n',
{
    lemma_marker_facts();
    reveal_strlit(":\n");
    lemma_lacks_from(heading, '<', 0);
    assert(lacks(heading + ":\n"@, '<'));
    lemma_lacks_clean(heading + ":\n"@, marker);
}

proof fn lemma_single_section_clean(
    heading: Seq<char>,
    value: Option<Seq<char>>,
    max_chars: nat,
    marker: Seq<char>,
)
    requires
        is_capsule_marker(marker),
        lacks_from(heading, '<', 0),
    ensures
        !occurs(single_section(heading, value, max_chars), marker),
        single_section(heading, value, max_chars).len() > 0,
        single_section(heading, value, max_chars).last() == '\n',
{
    lemma_capsule_tags(marker);
    lemma_heading_clean(heading, marker);
    lemma_none_recorded_clean(marker);
    let shown = match value {
        Some(value) => sanitized(value, max_chars),
        None => None,
    };
    match shown {
        Some(text) => {
            lemma_sanitized_has_no_marker(value->0, max_chars);
            lemma_bullet_clean(text, marker);
            lemma_append_clean(heading + ":\n"@, bullet(text), marker);
        },
        None => {
            lemma_append_clean(heading + ":\n"@, bullet("(none recorded)"@), marker);
        },
    }
}

proof fn lemma_list_section_clean(
    heading: Seq<char>,
    values: Seq<Seq<char>>,
    max_chars: nat,
    marker: Seq<char>,
)
    requires
        is_capsule_marker(marker),
        lacks_from(heading, '<', 0),
    ensures
        !occurs(list_section(heading, values, max_chars), marker),
        list_section(heading, values, max_chars).len() > 0,
        list_section(heading, values, max_chars).last() == '\n',
{
    lemma_capsule_tags(marker);
    lemma_heading_clean(heading, marker);
    lemma_none_recorded_clean(marker);
    lemma_bullets_clean(values, max_chars, marker);
    if bullets(values, max_chars).len() > 0 {
        lemma_append_clean(heading + ":\n"@, bullets(values, max_chars), marker);
    } else {
        lemma_append_clean(heading + ":\n"@, bullet("(none recorded)"@), marker);
    }
}

/// No heading holds the character that a marker begins with.
proof fn lemma_headings_lack_tags()
    ensures
        lacks_from("Active goal"@, '<', 0),
        lacks_from("Success criteria"@, '<', 0),
        lacks_from("Current progress"@, '<', 0),
        lacks_from("Next action"@, '<', 0),
        lacks_from("Files touched"@, '<', 0),
        lacks_from("Verified evidence"@, '<', 0),
        lacks_from("Background jobs"@, '<', 0),
        lacks_from("Open blockers"@, '<', 0),
{
    reveal_strlit("Active goal");
    reveal_strlit("Success criteria");
    reveal_strlit("Current progress");
    reveal_strlit("Next action");
    reveal_strlit("Files touched");
    reveal_strlit("Verified evidence");
    reveal_strlit("Background jobs");
    reveal_strlit("Open blockers");
    reveal_with_fuel(lacks_from, 18);
}

proof fn lemma_sections_clean(facts: ContextView, max_chars: nat, marker: Seq<char>)
    requires
        is_capsule_marker(marker),
    ensures
        !occurs(sections(facts, max_chars), marker),
        sections(facts, max_chars).len() > 0,
        sections(facts, max_chars).last() == '\n',
{
    lemma_capsule_tags(marker);
    lemma_headings_lack_tags();
    let a = single_section("Active goal"@, facts.active_goal, max_chars);
    let b = list_section("Success criteria"@, facts.success_criteria, max_chars);
    let c = list_section("Current progress"@, facts.current_progress, max_chars);
    let d = single_section("Next action"@, facts.next_action, max_chars);
    let e = list_section("Files touched"@, facts.files_touched, max_chars);
    let f = list_section("Verified evidence"@, facts.verified_evidence, max_chars);
    let g = list_section("Background jobs"@, facts.active_background_jobs, max_chars);
    let h = list_section("Open blockers"@, facts.open_blockers, max_chars);
    lemma_single_section_clean("Active goal"@, facts.active_goal, max_chars, marker);
    lemma_list_section_clean("Success criteria"@, facts.success_criteria, max_chars, marker);
    lemma_list_section_clean("Current progress"@, facts.current_progress, max_chars, marker);
    lemma_single_section_clean("Next action"@, facts.next_action, max_chars, marker);
    lemma_list_section_clean("Files touched"@, facts.files_touched, max_chars, marker);
    lemma_list_section_clean("Verified evidence"@, facts.verified_evidence, max_chars, marker);
    lemma_list_section_clean("Background jobs"@, facts.active_background_jobs, max_chars, marker);
    lemma_list_section_clean("Open blockers"@, facts.open_blockers, max_chars, marker);
    lemma_append_clean(a, b, marker);
    lemma_append_clean(a + b, c, marker);
    lemma_append_clean(a + b + c, d, marker);
    lemma_append_clean(a + b + c + d, e, marker);
    lemma_append_clean(a + b + c + d + e, f, marker);
    lemma_append_clean(a + b + c + d + e + f, g, marker);
    lemma_append_clean(a + b + c + d + e + f + g, h, marker);
}

/// Of a text between the markers that holds neither of them, the start marker
/// occurs at the start alone and the end marker at the end alone.
proof fn lemma_wrapped_markers(body: Seq<char>)
    requires
        !occurs(body, CAPSULE_START@),
        !occurs(body, CAPSULE_END@),
    ensures
        has_markers_at_ends(wrapped(body)),
{
    lemma_marker_facts();
    reveal_strlit("<codex_link_context_capsule>");
    reveal_strlit("</codex_link_context_capsule>");
    lemma_enclosed(CAPSULE_START@, body, CAPSULE_END@);
    assert(wrapped(body) =~= enclosed(CAPSULE_START@, body, CAPSULE_END@));
}

/// In a capsule that was not cut, the start marker occurs at the start alone
/// and the end marker at the end alone: no fact can fake either.
pub proof fn lemma_capsule_markers(facts: ContextView, max_chars: nat)
    ensures
        has_markers_at_ends(capsule_text(facts, max_chars)),
{
    reveal_strlit("\n");
    let all = sections(facts, max_chars);
    let body = all.drop_last();
    lemma_sections_clean(facts, max_chars, CAPSULE_START@);
    lemma_sections_clean(facts, max_chars, CAPSULE_END@);
    lemma_clean_take(all, all.len() - 1, CAPSULE_START@);
    lemma_clean_take(all, all.len() - 1, CAPSULE_END@);
    assert(all.take(all.len() - 1) =~= body);
    assert(capsule_text(facts, max_chars) =~= wrapped(body));
    lemma_wrapped_markers(body);
}

/// In a capsule that was cut, the markers occur at its ends alone, however it
/// was cut; what the cutting leaves without a marker is shown as it is.
pub proof fn lemma_cut_capsule_markers(cut: Seq<char>)
    ensures
        has_markers_at_ends(wrapped(without_markers(cut))),
        !occurs(cut, CAPSULE_START@) && !occurs(cut, CAPSULE_END@) ==> without_markers(cut) == cut,
{
    lemma_disarmed_has_no_marker(cut);
    lemma_wrapped_markers(without_markers(cut));
    if !occurs(cut, CAPSULE_START@) && !occurs(cut, CAPSULE_END@) {
        lemma_nothing_to_disarm(cut);
    }
}

/// What is handed to the cutting of a rendered capsule is its sections,
/// without the markers and the white space around.
pub proof fn lemma_capsule_body(facts: ContextView, max_chars: nat)
    ensures
        capsule_body(capsule_text(facts, max_chars)) == trim(
            "\n"@ + sections(facts, max_chars),
        ),
{
    reveal_strlit("\n");
    let s = capsule_text(facts, max_chars);
    let start = CAPSULE_START@;
    let end = CAPSULE_END@;
    let last = s.len() - end.len();
    assert(s.subrange(0, start.len() as int) =~= start);
    assert(s.subrange(last, s.len() as int) =~= end);
    assert(s.subrange(start.len() as int, last) =~= "\n"@ + sections(facts, max_chars));
}

/// The section of a capsule that shows the evidence.
pub open spec fn evidence_section(facts: ContextView, max_chars: nat) -> Seq<char> {
    list_section("Verified evidence"@, facts.verified_evidence, max_chars)
}

proof fn lemma_occurs_within(before: Seq<char>, part: Seq<char>, after: Seq<char>, pat: Seq<char>)
    requires
        occurs(part, pat),
    ensures
        occurs(before + part + after, pat),
{
    let i = choose|i: int| #[trigger] occurs_at(part, pat, i);
    let all = before + part + after;
    let at = before.len() + i;
    assert(all.subrange(at, at + pat.len()) =~= part.subrange(i, i + pat.len()));
    assert(occurs_at(all, pat, at));
}

proof fn lemma_bullet_stands(values: Seq<Seq<char>>, max_chars: nat, k: int)
    requires
        0 <= k < values.len(),
        sanitized(values[k], max_chars) is Some,
    ensures
        occurs(bullets(values, max_chars), bullet(sanitized(values[k], max_chars)->0)),
    decreases values.len(),
{
    let item = bullet(sanitized(values[k], max_chars)->0);
    let rest = values.drop_last();
    let before = bullets(rest, max_chars);
    let all = bullets(values, max_chars);
    if k < rest.len() {
        lemma_bullet_stands(rest, max_chars, k);
        let after = all.skip(before.len() as int);
        lemma_occurs_within(Seq::empty(), before, after, item);
        assert(Seq::<char>::empty() + before + after =~= all);
    } else {
        assert(item.subrange(0, item.len() as int) =~= item);
        assert(occurs_at(item, item, 0));
        lemma_occurs_within(before, item, Seq::empty(), item);
        assert(before + item + Seq::<char>::empty() =~= all);
    }
}

/// A line of evidence that is not blank is a list item of the capsule's
/// section of evidence, and so of the capsule; a capsule is shown then.
pub proof fn lemma_evidence_is_shown(facts: ContextView, line: Seq<char>, max_chars: nat)
    requires
        facts.verified_evidence.contains(line),
        !is_blank(line),
    ensures
        sanitized(line, max_chars) is Some,
        occurs(evidence_section(facts, max_chars), bullet(sanitized(line, max_chars)->0)),
        occurs(capsule_text(facts, max_chars), bullet(sanitized(line, max_chars)->0)),
        !facts.is_blank(),
{
    let values = facts.verified_evidence;
    let k = choose|k: int| 0 <= k < values.len() && values[k] == line;
    let item = bullet(sanitized(line, max_chars)->0);
    lemma_bullet_stands(values, max_chars, k);
    reveal_strlit("- ");
    assert(item.len() > 0);
    let list = bullets(values, max_chars);
    let i = choose|i: int| #[trigger] occurs_at(list, item, i);
    assert(list.len() > 0);
    let section = evidence_section(facts, max_chars);
    let head = "Verified evidence"@ + ":\n"@;
    lemma_occurs_within(head, list, Seq::empty(), item);
    assert(head + list + Seq::<char>::empty() =~= section);
    let front = CAPSULE_START@ + "\n"@ + single_section(
        "Active goal"@,
        facts.active_goal,
        max_chars,
    ) + list_section("Success criteria"@, facts.success_criteria, max_chars) + list_section(
        "Current progress"@,
        facts.current_progress,
        max_chars,
    ) + single_section("Next action"@, facts.next_action, max_chars) + list_section(
        "Files touched"@,
        facts.files_touched,
        max_chars,
    );
    let back = list_section("Background jobs"@, facts.active_background_jobs, max_chars)
        + list_section("Open blockers"@, facts.open_blockers, max_chars) + CAPSULE_END@;
    lemma_occurs_within(front, section, back, item);
    assert(front + section + back =~= capsule_text(facts, max_chars));
}

} // verus!
