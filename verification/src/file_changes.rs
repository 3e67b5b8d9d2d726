//! What an applied patch leaves in the context.

use vstd::prelude::*;

use crate::decimal::{decimal, push_usize};
use crate::order::{
    add_sorted, ascending, lemma_ascending_unique, lemma_sorted_unique, sorted_unique,
};
use crate::sanitize::{truncate_chars, truncated};
use crate::split::{join, join_strings};
use crate::text::{owned, texts};
use crate::tool_finish::MAX_TOOL_OUTPUT_PREVIEW_CHARS;

verus! {

/// How a patch ended.
#[derive(Clone, Copy, Debug, PartialEq, Eq, Structural)]
pub enum PatchApplyStatus {
    Completed,
    Failed,
    Declined,
}

/// What a patch does to one file.
#[derive(Debug, PartialEq, Eq)]
pub enum FileChange {
    Add,
    Delete,
    Update { move_path: Option<String> },
}

/// One file of a patch.
#[derive(Debug, PartialEq, Eq)]
pub struct FileChangeEntry {
    pub path: String,
    pub change: FileChange,
}

/// A patch, as the host shows it.
#[derive(Debug, PartialEq, Eq)]
pub struct FileChangeItem {
    pub changes: Vec<FileChangeEntry>,
    pub status: Option<PatchApplyStatus>,
}

/// The paths that one change touches.
pub open spec fn entry_paths(entry: FileChangeEntry) -> Seq<Seq<char>> {
    match entry.change {
        FileChange::Update { move_path: Some(move_path) } => seq![entry.path@, move_path@],
        _ => seq![entry.path@],
    }
}

/// The paths that a patch touches, in the order of its changes.
pub open spec fn touched_paths(changes: Seq<FileChangeEntry>) -> Seq<Seq<char>>
    decreases changes.len(),
{
    if changes.len() == 0 {
        Seq::empty()
    } else {
        touched_paths(changes.drop_last()) + entry_paths(changes.last())
    }
}

/// The paths that a patch touches, sorted and each once.
pub open spec fn change_paths(item: FileChangeItem) -> Seq<Seq<char>> {
    sorted_unique(touched_paths(item.changes@))
}

/// The word for a patch's status.
pub open spec fn status_word(status: Option<PatchApplyStatus>) -> Seq<char> {
    match status {
        Some(PatchApplyStatus::Completed) => "completed"@,
        Some(PatchApplyStatus::Failed) => "failed"@,
        Some(PatchApplyStatus::Declined) => "declined"@,
        None => "started"@,
    }
}

/// The line that records a patch.
pub open spec fn patch_evidence(item: FileChangeItem) -> Seq<char> {
    "Patch "@ + status_word(item.status) + " touched "@ + decimal(change_paths(item).len())
        + " file(s): "@ + truncated(
        join(change_paths(item), ", "@),
        MAX_TOOL_OUTPUT_PREVIEW_CHARS as nat,
    )
}

/// The paths that a patch touches, sorted and each once.
pub fn file_change_paths(item: &FileChangeItem) -> (r: Vec<String>)
    ensures
        texts(r@) == change_paths(*item),
{
    let mut paths: Vec<String> = Vec::new();
    let mut i: usize = 0;
    assert(item.changes@.take(0) =~= Seq::empty());
    assert(texts(paths@) =~= Seq::empty());
    while i < item.changes.len()
        invariant
            i <= item.changes.len(),
            texts(paths@) == sorted_unique(touched_paths(item.changes@.take(i as int))),
        decreases item.changes.len() - i,
    {
        let ghost before = touched_paths(item.changes@.take(i as int));
        let ghost entry = item.changes@[i as int];
        assert(item.changes@.take(i + 1).drop_last() =~= item.changes@.take(i as int));
        assert((before + seq![entry.path@]).drop_last() =~= before);
        add_sorted(&mut paths, item.changes[i].path.clone());
        assert(texts(paths@) == sorted_unique(before + seq![entry.path@]));
        match &item.changes[i].change {
            FileChange::Update { move_path: Some(move_path) } => {
                assert((before + seq![entry.path@, move_path@]).drop_last() =~= before
                    + seq![entry.path@]);
                add_sorted(&mut paths, move_path.clone());
            },
            _ => {},
        }
        i += 1;
    }
    assert(item.changes@.take(i as int) =~= item.changes@);
    paths
}

/// The word for a patch's status.
pub fn patch_status_label(status: Option<PatchApplyStatus>) -> (r: &'static str)
    ensures
        r@ == status_word(status),
{
    match status {
        Some(PatchApplyStatus::Completed) => "completed",
        Some(PatchApplyStatus::Failed) => "failed",
        Some(PatchApplyStatus::Declined) => "declined",
        None => "started",
    }
}

/// Renders the line that records a patch.
pub fn format_patch_evidence(item: &FileChangeItem, paths: &Vec<String>) -> (r: String)
    requires
        texts(paths@) == change_paths(*item),
    ensures
        r@ == patch_evidence(*item),
{
    let mut r = owned("Patch ");
    r.append(patch_status_label(item.status));
    r.append(" touched ");
    push_usize(&mut r, paths.len());
    assert(texts(paths@).len() == paths.len());
    r.append(" file(s): ");
    r.append(
        truncate_chars(
            join_strings(paths, ", ").as_str(),
            MAX_TOOL_OUTPUT_PREVIEW_CHARS,
        ).as_str(),
    );
    r
}

/// The paths of a patch are ascending and do not depend on the order in which
/// its changes were listed.
pub proof fn lemma_change_order_is_irrelevant(a: FileChangeItem, b: FileChangeItem)
    requires
        forall|path: Seq<char>| #[trigger]
            touched_paths(a.changes@).contains(path) <==> touched_paths(b.changes@).contains(path),
    ensures
        change_paths(a) == change_paths(b),
        ascending(change_paths(a)),
{
    lemma_sorted_unique(touched_paths(a.changes@));
    lemma_sorted_unique(touched_paths(b.changes@));
    assert forall|path: Seq<char>| #[trigger] change_paths(a).contains(path) <==> change_paths(
        b,
    ).contains(path) by {
        assert(touched_paths(a.changes@).contains(path) <==> touched_paths(b.changes@).contains(
            path,
        ));
    }
    lemma_ascending_unique(change_paths(a), change_paths(b));
}

} // verus!
