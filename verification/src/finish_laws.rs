//! What holds of the job that a finished tool call tells of.

use vstd::prelude::*;

use crate::choices::{is_choice, lemma_choice_step, lemma_no_choice, lemma_same_choice};
use crate::sanitize::sanitized;
use crate::search::{has_prefix, lemma_find_from, occurs, occurs_at};
use crate::split::{fields, lines};
use crate::tool_finish::{
    exec_header, finished_job, first_suffix, header_job, header_value, sanitized_all,
    ToolFinishInput,
};

verus! {

/// Whether a value stands behind a prefix, on the first of the lines that
/// begins with it.
pub open spec fn tells(all: Seq<Seq<char>>, prefix: Seq<char>, value: Seq<char>) -> bool {
    exists|k: int|
        0 <= k < all.len() && #[trigger] all[k] == prefix + value && forall|i: int|
            0 <= i < k ==> !has_prefix(#[trigger] all[i], prefix)
}

/// Whether no line begins with a prefix.
pub open spec fn tells_nothing(all: Seq<Seq<char>>, prefix: Seq<char>) -> bool {
    forall|i: int| 0 <= i < all.len() ==> !has_prefix(#[trigger] all[i], prefix)
}

proof fn lemma_suffix(all: Seq<Seq<char>>, prefix: Seq<char>)
    ensures
        first_suffix(all, prefix) is Some || tells_nothing(all, prefix),
        first_suffix(all, prefix) matches Some(value) ==> tells(all, prefix, value),
        forall|value: Seq<char>| #[trigger]
            tells(all, prefix, value) ==> first_suffix(all, prefix) == Some(value),
        tells_nothing(all, prefix) ==> first_suffix(all, prefix) is None,
    decreases all.len(),
{
    if all.len() > 0 {
        let rest = all.skip(1);
        lemma_suffix(rest, prefix);
        assert(forall|i: int| 0 <= i < rest.len() ==> #[trigger] rest[i] == all[i + 1]);
        if has_prefix(all[0], prefix) {
            let value = all[0].skip(prefix.len() as int);
            assert(all[0].subrange(0, prefix.len() as int) == prefix);
            assert(all[0] =~= prefix + value);
            assert forall|v: Seq<char>| #[trigger] tells(all, prefix, v) implies v == value by {
                let k = choose|k: int|
                    0 <= k < all.len() && #[trigger] all[k] == prefix + v && forall|i: int|
                        0 <= i < k ==> !has_prefix(#[trigger] all[i], prefix);
                if k > 0 {
                    assert(!has_prefix(all[0], prefix));
                }
                assert(v =~= value);
            }
        } else {
            if tells_nothing(rest, prefix) {
                assert forall|i: int| 0 <= i < all.len() implies !has_prefix(
                    #[trigger] all[i],
                    prefix,
                ) by {
                    if i > 0 {
                        assert(rest[i - 1] == all[i]);
                    }
                }
            }
            if tells_nothing(all, prefix) {
                assert forall|i: int| 0 <= i < rest.len() implies !has_prefix(
                    #[trigger] rest[i],
                    prefix,
                ) by {
                    assert(rest[i] == all[i + 1]);
                }
            }
            if first_suffix(rest, prefix) is Some {
                let value = first_suffix(rest, prefix)->0;
                let k = choose|k: int|
                    0 <= k < rest.len() && #[trigger] rest[k] == prefix + value && forall|i: int|
                        0 <= i < k ==> !has_prefix(#[trigger] rest[i], prefix);
                assert(all[k + 1] == prefix + value);
                assert forall|i: int| 0 <= i < k + 1 implies !has_prefix(
                    #[trigger] all[i],
                    prefix,
                ) by {
                    if i > 0 {
                        assert(rest[i - 1] == all[i]);
                    }
                }
            }
            assert forall|v: Seq<char>| #[trigger] tells(all, prefix, v) implies tells(
                rest,
                prefix,
                v,
            ) by {
                let k = choose|k: int|
                    0 <= k < all.len() && #[trigger] all[k] == prefix + v && forall|i: int|
                        0 <= i < k ==> !has_prefix(#[trigger] all[i], prefix);
                if k == 0 {
                    assert(all[0].subrange(0, prefix.len() as int) =~= prefix);
                }
                assert(rest[k - 1] == prefix + v);
                assert forall|i: int| 0 <= i < k - 1 implies !has_prefix(
                    #[trigger] rest[i],
                    prefix,
                ) by {
                    assert(rest[i] == all[i + 1]);
                }
            }
        }
    }
}

/// A value of a header stands behind its prefix, on the first line that begins
/// with it, and is cleaned; there is none where no line begins so.
pub proof fn lemma_header_value_is_read(header: Seq<char>, prefix: Seq<char>, value: Seq<char>)
    ensures
        tells(lines(header), prefix, value) ==> header_value(header, prefix) == sanitized(
            value,
            600,
        ),
        tells_nothing(lines(header), prefix) ==> header_value(header, prefix) is None,
{
    lemma_suffix(lines(header), prefix);
}

/// A header tells of a background job exactly where it says that the command
/// runs in the background and names a session.
pub proof fn lemma_background_job_is_told(header: Seq<char>)
    ensures
        header_job(header) is Some <==> lines(header).contains("Background mode: true"@)
            && header_value(header, "Process running with session ID "@) is Some,
        header_job(header) matches Some(job) ==> {
            &&& Some(job.process_id) == header_value(header, "Process running with session ID "@)
            &&& header_value(header, "Background description: "@) is Some ==> Some(job.description)
                == header_value(header, "Background description: "@)
            &&& header_value(header, "Background description: "@) is None ==> job.description
                == "(no description recorded)"@
            &&& header_value(header, "Background triggers: "@) is None ==> job.triggers.len() == 0
            &&& job.log_path == header_value(header, "Background log: "@)
            &&& job.command is None
            &&& job.cwd is None
            &&& job.started_at_ms is None
        },
{
}

/// Whether the chosen positions are those of the values that are not blank.
pub open spec fn chooses_clean(at: Seq<int>, values: Seq<Seq<char>>) -> bool {
    is_choice(at, values.len() as int, |i: int| sanitized(values[i], 600) is Some)
}

proof fn lemma_clean_places(values: Seq<Seq<char>>) -> (at: Seq<int>)
    ensures
        chooses_clean(at, values),
        sanitized_all(values, 600) == Seq::new(at.len(), |j: int| sanitized(values[at[j]], 600)->0),
    decreases values.len(),
{
    let chosen = |i: int| sanitized(values[i], 600) is Some;
    if values.len() == 0 {
        lemma_no_choice(chosen);
        let at = Seq::<int>::empty();
        assert(sanitized_all(values, 600) =~= Seq::new(
            at.len(),
            |j: int| sanitized(values[at[j]], 600)->0,
        ));
        at
    } else {
        let rest = values.drop_last();
        let n = rest.len() as int;
        let at = lemma_clean_places(rest);
        let known = |i: int| sanitized(rest[i], 600) is Some;
        assert forall|i: int| 0 <= i < n implies #[trigger] known(i) == chosen(i) by {
            assert(rest[i] == values[i]);
        }
        lemma_same_choice(at, n, known, chosen);
        lemma_choice_step(at, n, chosen);
        let more = if chosen(n) {
            at.push(n)
        } else {
            at
        };
        assert(sanitized_all(values, 600) =~= Seq::new(
            more.len(),
            |j: int| sanitized(values[more[j]], 600)->0,
        ));
        more
    }
}

/// The triggers of a job are the values between commas, in order and cleaned,
/// without those that are blank.
pub proof fn lemma_triggers_between_commas(header: Seq<char>, told: Seq<char>)
    requires
        header_value(header, "Background triggers: "@) == Some(told),
    ensures
        header_job(header) matches Some(job) ==> exists|at: Seq<int>| #[trigger]
            chooses_clean(at, fields(told, ',')) && job.triggers == Seq::new(
                at.len(),
                |j: int| sanitized(fields(told, ',')[at[j]], 600)->0,
            ),
{
    let at = lemma_clean_places(fields(told, ','));
}

/// The header of an output that begins with a chunk id is what stands before
/// the output proper; any other output has none.
pub proof fn lemma_header_ends_at_output(preview: Seq<char>)
    ensures
        !has_prefix(preview, "Chunk ID: "@) ==> exec_header(preview) is None,
        has_prefix(preview, "Chunk ID: "@) && !occurs(preview, "\nOutput:"@) ==> exec_header(
            preview,
        ) == Some(preview),
        has_prefix(preview, "Chunk ID: "@) && occurs(preview, "\nOutput:"@) ==> exists|k: int|
            #[trigger] occurs_at(preview, "\nOutput:"@, k) && exec_header(preview) == Some(
                preview.take(k),
            ) && forall|i: int| 0 <= i < k ==> !#[trigger] occurs_at(preview, "\nOutput:"@, i),
{
    lemma_find_from(preview, "\nOutput:"@, 0);
    if occurs(preview, "\nOutput:"@) {
        let i = choose|i: int| #[trigger] occurs_at(preview, "\nOutput:"@, i);
        assert(0 <= i);
    }
}

/// Only the command tool of the host itself starts a background job, and the
/// header of its output tells of it.
pub proof fn lemma_only_commands_start_jobs(input: ToolFinishInput)
    ensures
        input.tool_name.namespace is Some || input.tool_name.name@ != "exec_command"@
            || input.output_preview is None ==> finished_job(input) is None,
        input.tool_name.namespace is None && input.tool_name.name@ == "exec_command"@ ==> (
        input.output_preview matches Some(preview) ==> finished_job(input) == (match exec_header(
            preview@,
        ) {
            Some(header) => header_job(header),
            None => None,
        })),
{
}

} // verus!
