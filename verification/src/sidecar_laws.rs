//! What holds of files beside a thread: which of them are swept, and what is
//! said of output that was saved to one.

use vstd::prelude::*;

use crate::choices::is_choice;
use crate::gc::{
    flat_sweep, is_of_thread, is_stale, lemma_positions, positions, stale_files, sweeps_flat,
    SidecarFile,
};
use crate::output_spill::{
    archives, pointer_text, reserved_policy, safe_call_id, safe_prefix, with_pointer, BodyView,
    ItemView, PayloadView,
};
use crate::search::has_prefix;
use crate::truncation::TruncationPolicy;

verus! {

/// Whether the name of a file is the id of a thread, a dot and an ending.
pub open spec fn is_named_after(name: Seq<char>, thread_id: Seq<char>) -> bool {
    exists|ending: Seq<char>| name == #[trigger] (thread_id + seq!['.'] + ending)
}

/// Whether the chosen positions are those of the files that are older than the
/// cutoff and not of the current thread.
pub open spec fn chooses_swept(
    at: Seq<int>,
    files: Seq<SidecarFile>,
    current: Seq<char>,
    cutoff: i128,
) -> bool {
    is_choice(
        at,
        files.len() as int,
        |i: int|
            !is_named_after(files[i].name@, current) && (files[i].modified matches Some(time) && time
                < cutoff),
    )
}

/// Whether the chosen positions are those of the files that are older than the
/// cutoff.
pub open spec fn chooses_old(at: Seq<int>, files: Seq<SidecarFile>, cutoff: i128) -> bool {
    is_choice(
        at,
        files.len() as int,
        |i: int| files[i].modified matches Some(time) && time < cutoff,
    )
}

proof fn lemma_named_after(name: Seq<char>, thread_id: Seq<char>)
    ensures
        is_of_thread(name, thread_id) <==> is_named_after(name, thread_id),
{
    let lead = thread_id.push('.');
    if is_of_thread(name, thread_id) {
        let n = lead.len() as int;
        let ending = name.skip(n);
        assert(name.subrange(0, n) == lead);
        assert(lead =~= thread_id + seq!['.']);
        assert(name =~= name.subrange(0, n) + ending);
    }
    if is_named_after(name, thread_id) {
        let ending = choose|ending: Seq<char>| name == #[trigger] (thread_id + seq!['.'] + ending);
        assert(name.subrange(0, lead.len() as int) =~= lead);
    }
}

/// A sweep of flat files takes, in order, every file whose time is known and
/// before the cutoff and that is not named after the current thread. A sweep of
/// a directory takes every file whose time is known and before the cutoff.
pub proof fn lemma_old_files_are_swept(
    files: Seq<SidecarFile>,
    current: Seq<char>,
    cutoff: i128,
)
    ensures
        chooses_swept(flat_sweep(files, current, cutoff), files, current, cutoff),
        chooses_old(stale_files(files, cutoff), files, cutoff),
{
    let test = |i: int| sweeps_flat(files[i], current, cutoff);
    let chosen = |i: int|
        !is_named_after(files[i].name@, current) && (files[i].modified matches Some(time) && time
            < cutoff);
    let old_test = |i: int| is_stale(files[i].modified, cutoff);
    let old_chosen = |i: int| files[i].modified matches Some(time) && time < cutoff;
    let n = files.len();
    let at = flat_sweep(files, current, cutoff);
    let old_at = stale_files(files, cutoff);
    lemma_same_positions(n, test, chosen, at);
    lemma_same_positions(n, old_test, old_chosen, old_at);
    assert forall|i: int| 0 <= i < n implies sweeps_flat(
        files[i],
        current,
        cutoff,
    ) == #[trigger] chosen(i) by {
        lemma_named_after(files[i].name@, current);
    }
}

proof fn lemma_same_positions(
    n: nat,
    test: spec_fn(int) -> bool,
    chosen: spec_fn(int) -> bool,
    at: Seq<int>,
)
    requires
        at == positions(n, test),
    ensures
        (forall|i: int| 0 <= i < n ==> test(i) == #[trigger] chosen(i)) ==> is_choice(
            at,
            n as int,
            chosen,
        ),
{
    lemma_positions(n, test);
    if forall|i: int| 0 <= i < n ==> test(i) == #[trigger] chosen(i) {
        assert forall|j: int| 0 <= j < at.len() implies 0 <= #[trigger] at[j] < n && chosen(
            at[j],
        ) by {
            assert(test(at[j]) == chosen(at[j]));
        }
        assert forall|i: int| 0 <= i < n && #[trigger] chosen(i) implies at.contains(i) by {
            assert(test(i));
        }
    }
}

/// Whether a character stands in a file name as it is: a letter, a digit, a
/// dash, an underscore or a dot.
pub open spec fn stands(c: char) -> bool {
    ||| 'a' <= c <= 'z'
    ||| 'A' <= c <= 'Z'
    ||| '0' <= c <= '9'
    ||| c == '-'
    ||| c == '_'
    ||| c == '.'
}

/// The name for a call id has the characters of the id that can stand in a file
/// name, an underscore for each of the others, and at most a hundred and
/// twenty-eight in all. Where nothing but dots and underscores would be left,
/// it is `call`.
pub proof fn lemma_name_for_call_id(call_id: Seq<char>)
    ensures
        safe_prefix(call_id).len() == call_id.len() || (call_id.len() > 128 && safe_prefix(
            call_id,
        ).len() == 128),
        forall|i: int|
            #![trigger safe_prefix(call_id)[i]]
            0 <= i < safe_prefix(call_id).len() ==> (stands(call_id[i]) ==> safe_prefix(call_id)[i]
                == call_id[i]) && (!stands(call_id[i]) ==> safe_prefix(call_id)[i] == '_'),
        (exists|i: int|
            0 <= i < safe_prefix(call_id).len() && #[trigger] safe_prefix(call_id)[i] != '.'
                && safe_prefix(call_id)[i] != '_') ==> safe_call_id(call_id) == safe_prefix(
            call_id,
        ),
        (forall|i: int|
            0 <= i < safe_prefix(call_id).len() ==> #[trigger] safe_prefix(call_id)[i] == '.'
                || safe_prefix(call_id)[i] == '_') ==> safe_call_id(call_id) == "call"@,
{
}

/// The full output is archived exactly where truncation dropped something,
/// there is a place for it, and the budget has room for a pointer.
pub proof fn lemma_dropped_output_is_archived(
    payload: PayloadView,
    truncated: PayloadView,
    has_destination: bool,
    byte_budget: usize,
)
    ensures
        archives(payload, truncated, has_destination, byte_budget) <==> (payload.body
            != truncated.body || payload.success != truncated.success) && has_destination
            && byte_budget >= 2048,
{
}

/// The pointer goes behind what is left of the output, on a line of its own or
/// as an item of its own; what is left and whether the call succeeded stay as
/// they are.
pub proof fn lemma_pointer_goes_last(payload: PayloadView, pointer_line: Seq<char>)
    ensures
        with_pointer(payload, pointer_line).success == payload.success,
        payload.body matches BodyView::Text(text) ==> with_pointer(payload, pointer_line).body
            == BodyView::Text(text + "\n"@ + pointer_line),
        payload.body matches BodyView::ContentItems(items) ==> (with_pointer(
            payload,
            pointer_line,
        ).body matches BodyView::ContentItems(after) && after.len() == items.len() + 1
            && after.last() == ItemView::InputText(pointer_line) && forall|i: int|
            0 <= i < items.len() ==> #[trigger] after[i] == items[i]),
{
}

/// The pointer names the file between what it is and how to use it.
pub proof fn lemma_pointer_names_file(path: Seq<char>, redo_hint: Seq<char>)
    ensures
        has_prefix(pointer_text(path, redo_hint), "Full untruncated output saved to: "@ + path),
        pointer_text(path, redo_hint).skip(
            pointer_text(path, redo_hint).len() - redo_hint.len() - 1,
        ) == redo_hint + "."@,
{
    reveal_strlit(".");
    let text = pointer_text(path, redo_hint);
    let lead = "Full untruncated output saved to: "@ + path;
    assert(text.subrange(0, lead.len() as int) =~= lead);
    assert(text.skip(text.len() - redo_hint.len() - 1) =~= redo_hint + "."@);
}

/// The budget that is left beside a line counts in the same unit: a byte more
/// than the bytes of the line, or a token more than its tokens, is taken from
/// it, and at least one is left.
pub proof fn lemma_room_is_left(budget: usize, bytes: int, tokens: int)
    requires
        0 <= bytes,
        0 <= tokens,
    ensures
        reserved_policy(TruncationPolicy::Bytes(budget), bytes, tokens) == TruncationPolicy::Bytes(
            if bytes + 1 < budget {
                (budget - bytes - 1) as usize
            } else {
                1
            },
        ),
        reserved_policy(TruncationPolicy::Tokens(budget), bytes, tokens)
            == TruncationPolicy::Tokens(
            if tokens + 1 < budget {
                (budget - tokens - 1) as usize
            } else {
                1
            },
        ),
{
}

} // verus!
