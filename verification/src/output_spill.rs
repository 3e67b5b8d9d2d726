//! Full tool output beside its truncated copy.
//!
//! Middle truncation keeps the head and the tail of long output but drops the
//! middle, often exactly where a long log buries its first error. Writing the
//! complete output to a sidecar file turns the truncated copy into a bounded
//! preview with a lossless archive behind it. This module decides when that is
//! done, where the file goes, and how the copy points at it.

use vstd::prelude::*;
use vstd::utf8::encode_utf8;

use crate::text::{from_chars, owned, str_eq, texts, to_chars};
use crate::truncation::TruncationPolicy;

verus! {

/// Below this budget the pointer line would displace the very content it
/// points at, so tightly capped outputs keep the plain truncation.
pub const MIN_SPILL_BYTE_BUDGET: usize = 2_048;

/// Most characters of a call id in a file name.
pub const MAX_CALL_ID_CHARS: usize = 128;

/// A part of an output.
pub enum OutputItem {
    /// Text, which may be truncated.
    InputText { text: String },
    /// An image or encrypted content, which passes through.
    Opaque { content: String },
}

/// The body of an output.
pub enum OutputBody {
    Text(String),
    ContentItems(Vec<OutputItem>),
}

/// What a tool hands back to the model.
pub struct OutputPayload {
    pub body: OutputBody,
    pub success: Option<bool>,
}

/// The view of an [`OutputItem`].
pub enum ItemView {
    InputText(Seq<char>),
    Opaque(Seq<char>),
}

/// The view of an [`OutputBody`].
pub enum BodyView {
    Text(Seq<char>),
    ContentItems(Seq<ItemView>),
}

/// The view of an [`OutputPayload`].
pub struct PayloadView {
    pub body: BodyView,
    pub success: Option<bool>,
}

impl View for OutputItem {
    type V = ItemView;

    open spec fn view(&self) -> ItemView {
        match *self {
            OutputItem::InputText { text } => ItemView::InputText(text@),
            OutputItem::Opaque { content } => ItemView::Opaque(content@),
        }
    }
}

/// The views of parts.
pub open spec fn item_views(items: Seq<OutputItem>) -> Seq<ItemView> {
    Seq::new(items.len(), |i: int| items[i]@)
}

impl View for OutputBody {
    type V = BodyView;

    open spec fn view(&self) -> BodyView {
        match *self {
            OutputBody::Text(text) => BodyView::Text(text@),
            OutputBody::ContentItems(items) => BodyView::ContentItems(item_views(items@)),
        }
    }
}

impl View for OutputPayload {
    type V = PayloadView;

    open spec fn view(&self) -> PayloadView {
        PayloadView { body: self.body@, success: self.success }
    }
}

/// Whether a character may stand in a file name.
pub open spec fn is_safe(c: char) -> bool {
    ('a' <= c <= 'z') || ('A' <= c <= 'Z') || ('0' <= c <= '9') || c == '-' || c == '_' || c == '.'
}

/// A character that may stand in a file name.
pub open spec fn safe_char(c: char) -> char {
    if is_safe(c) {
        c
    } else {
        '_'
    }
}

/// Whether a text holds nothing but dots and underscores.
pub open spec fn is_filler(s: Seq<char>) -> bool {
    forall|i: int| 0 <= i < s.len() ==> #[trigger] s[i] == '.' || s[i] == '_'
}

/// The part of a call id that fits, in characters that are safe.
pub open spec fn safe_prefix(call_id: Seq<char>) -> Seq<char> {
    let len = if call_id.len() <= MAX_CALL_ID_CHARS {
        call_id.len()
    } else {
        MAX_CALL_ID_CHARS as nat
    };
    Seq::new(len, |i: int| safe_char(call_id[i]))
}

/// The name that stands for a call id in a file name.
pub open spec fn safe_call_id(call_id: Seq<char>) -> Seq<char> {
    if is_filler(safe_prefix(call_id)) {
        "call"@
    } else {
        safe_prefix(call_id)
    }
}

/// Call ids are model-generated; keeps only characters that are safe in a file
/// name, so that a hostile id cannot lead out of the directory.
pub fn sanitize_call_id(call_id: &str) -> (r: String)
    ensures
        r@ == safe_call_id(call_id@),
{
    let chars = to_chars(call_id);
    let mut safe: Vec<char> = Vec::new();
    let mut filler = true;
    let mut i: usize = 0;
    let len: usize = if chars.len() <= MAX_CALL_ID_CHARS {
        chars.len()
    } else {
        MAX_CALL_ID_CHARS
    };
    while i < len
        invariant
            i <= len <= chars.len(),
            len == safe_prefix(call_id@).len(),
            chars@ == call_id@,
            safe@ == safe_prefix(call_id@).take(i as int),
            filler == is_filler(safe@),
        decreases len - i,
    {
        let c = chars[i];
        let kept = if ('a' <= c && c <= 'z') || ('A' <= c && c <= 'Z') || ('0' <= c && c <= '9') || c
            == '-' || c == '_' || c == '.' {
            c
        } else {
            '_'
        };
        let ghost before = safe@;
        safe.push(kept);
        assert(safe@ =~= safe_prefix(call_id@).take(i + 1));
        filler = filler && (kept == '.' || kept == '_');
        proof {
            assert forall|j: int| 0 <= j < before.len() implies before[j] == safe@[j] by {}
            assert(safe@[before.len() as int] == kept);
            if !is_filler(before) {
                let j = choose|j: int|
                    0 <= j < before.len() && !(#[trigger] before[j] == '.' || before[j] == '_');
                assert(!(safe@[j] == '.' || safe@[j] == '_'));
            }
        }
        i += 1;
    }
    assert(safe@ =~= safe_prefix(call_id@));
    if filler {
        owned("call")
    } else {
        from_chars(safe.as_slice())
    }
}

/// The components of the path of a spilled output, below the Codex home.
pub fn spill_file_components(thread_id: &str, call_id: &str) -> (r: Vec<String>)
    ensures
        texts(r@) == seq![
            "link"@,
            "tool-output"@,
            thread_id@,
            safe_call_id(call_id@) + ".txt"@,
        ],
{
    let mut name = sanitize_call_id(call_id);
    name.append(".txt");
    let r: Vec<String> = vec![owned("link"), owned("tool-output"), owned(thread_id), name];
    assert(texts(r@) =~= seq![
        "link"@,
        "tool-output"@,
        thread_id@,
        safe_call_id(call_id@) + ".txt"@,
    ]);
    r
}

/// The pointer to a spilled file.
pub open spec fn pointer_text(path: Seq<char>, redo_hint: Seq<char>) -> Seq<char> {
    "Full untruncated output saved to: "@ + path
        + " — if a detail from the truncated middle matters, search that file with rg/grep or tail it instead of "@
        + redo_hint + "."@
}

/// The pointer to a spilled file. `redo_hint` names the wasteful way to get the
/// output again that the pointer replaces.
pub fn spill_pointer_line(path: &str, redo_hint: &str) -> (r: String)
    ensures
        r@ == pointer_text(path@, redo_hint@),
{
    let mut r = owned("Full untruncated output saved to: ");
    r.append(path);
    r.append(
        " — if a detail from the truncated middle matters, search that file with rg/grep or tail it instead of ",
    );
    r.append(redo_hint);
    r.append(".");
    r
}

/// A budget less a cost and one more, and at least one.
pub open spec fn reserved(budget: usize, cost: int) -> usize {
    if budget - cost - 1 >= 1 {
        (budget - cost - 1) as usize
    } else {
        1
    }
}

/// The budget that is left beside a line of so many bytes and tokens.
pub open spec fn reserved_policy(policy: TruncationPolicy, bytes: int, tokens: int) -> TruncationPolicy {
    match policy {
        TruncationPolicy::Bytes(budget) => TruncationPolicy::Bytes(reserved(budget, bytes)),
        TruncationPolicy::Tokens(budget) => TruncationPolicy::Tokens(reserved(budget, tokens)),
    }
}

fn reserve(budget: usize, cost: usize) -> (r: usize)
    ensures
        r == reserved(budget, cost as int),
{
    if budget > cost && budget - cost > 1 {
        budget - cost - 1
    } else {
        1
    }
}

/// Reserves the cost of the pointer line, so that body and pointer together
/// stay within the budget and are not truncated once more, which would cut
/// through the path itself. `pointer_tokens` is the line's approximate token
/// count.
pub fn reserve_pointer_budget(
    policy: TruncationPolicy,
    pointer_line: &str,
    pointer_tokens: usize,
) -> (r: TruncationPolicy)
    ensures
        r == reserved_policy(
            policy,
            encode_utf8(pointer_line@).len() as int,
            pointer_tokens as int,
        ),
{
    match policy {
        TruncationPolicy::Bytes(bytes) => {
            TruncationPolicy::Bytes(reserve(bytes, pointer_line.as_bytes().len()))
        },
        TruncationPolicy::Tokens(tokens) => TruncationPolicy::Tokens(
            reserve(tokens, pointer_tokens),
        ),
    }
}

fn item_eq(a: &OutputItem, b: &OutputItem) -> (r: bool)
    ensures
        r == (a@ == b@),
{
    match (a, b) {
        (OutputItem::InputText { text: x }, OutputItem::InputText { text: y }) => str_eq(
            x.as_str(),
            y.as_str(),
        ),
        (OutputItem::Opaque { content: x }, OutputItem::Opaque { content: y }) => str_eq(
            x.as_str(),
            y.as_str(),
        ),
        _ => false,
    }
}

fn items_eq(a: &Vec<OutputItem>, b: &Vec<OutputItem>) -> (r: bool)
    ensures
        r == (item_views(a@) == item_views(b@)),
{
    if a.len() != b.len() {
        assert(item_views(a@).len() != item_views(b@).len());
        return false;
    }
    let mut i: usize = 0;
    while i < a.len()
        invariant
            i <= a.len(),
            a.len() == b.len(),
            forall|j: int| 0 <= j < i ==> #[trigger] item_views(a@)[j] == item_views(b@)[j],
        decreases a.len() - i,
    {
        if !item_eq(&a[i], &b[i]) {
            assert(item_views(a@)[i as int] != item_views(b@)[i as int]);
            return false;
        }
        i += 1;
    }
    assert(item_views(a@) =~= item_views(b@));
    true
}

/// Whether two payloads hold the same.
pub fn same_payload(a: &OutputPayload, b: &OutputPayload) -> (r: bool)
    ensures
        r == (a@ == b@),
{
    let same_success = match (a.success, b.success) {
        (Some(x), Some(y)) => x == y,
        (None, None) => true,
        _ => false,
    };
    if !same_success {
        return false;
    }
    match (&a.body, &b.body) {
        (OutputBody::Text(x), OutputBody::Text(y)) => str_eq(x.as_str(), y.as_str()),
        (OutputBody::ContentItems(x), OutputBody::ContentItems(y)) => items_eq(x, y),
        _ => false,
    }
}

/// What to do about a payload that went through truncation.
pub enum SpillStep {
    /// The truncated copy is the answer.
    Finish,
    /// The full text goes to the sidecar file first.
    Archive { text: String },
}

/// Whether the full text of a payload is to be archived.
pub open spec fn archives(
    payload: PayloadView,
    truncated: PayloadView,
    has_destination: bool,
    byte_budget: usize,
) -> bool {
    truncated != payload && has_destination && byte_budget >= MIN_SPILL_BYTE_BUDGET
}

/// Decides about a payload and its truncated copy. Only text is ever dropped,
/// so only text is archived; `full_text` is the text of the payload, where it
/// has any, and `byte_budget` what the policy allows in bytes.
pub fn after_truncation(
    payload: &OutputPayload,
    truncated: &OutputPayload,
    has_destination: bool,
    byte_budget: usize,
    full_text: Option<String>,
) -> (r: SpillStep)
    ensures
        match full_text {
            Some(full) => if archives(payload@, truncated@, has_destination, byte_budget) {
                r matches SpillStep::Archive { text } && text@ == full@
            } else {
                r is Finish
            },
            None => r is Finish,
        },
{
    if same_payload(truncated, payload) || !has_destination || byte_budget < MIN_SPILL_BYTE_BUDGET {
        return SpillStep::Finish;
    }
    match full_text {
        Some(text) => SpillStep::Archive { text },
        None => SpillStep::Finish,
    }
}

/// What is left to do once the full text was to be archived.
pub enum PointerStep {
    /// The archive failed: the truncated copy is the answer.
    Finish,
    /// The payload is truncated under this policy, and the line added to it.
    Reduce { policy: TruncationPolicy, pointer_line: String },
}

/// Decides what follows the attempt to archive the full text. `saved_to` is
/// the path of the file, where there is one; `count_tokens` gives the
/// approximate token count of a text.
pub fn after_archive<C>(
    saved_to: &Option<String>,
    policy: TruncationPolicy,
    redo_hint: &str,
    count_tokens: &C,
) -> (r: PointerStep) where C: Fn(&str) -> usize
    requires
        forall|text: &str| #[trigger] call_requires(*count_tokens, (text,)),
    ensures
        match *saved_to {
            Some(path) => r matches PointerStep::Reduce { policy: left, pointer_line } && {
                &&& pointer_line@ == pointer_text(path@, redo_hint@)
                &&& leaves_room(policy, pointer_line@, left, *count_tokens)
            },
            None => r is Finish,
        },
{
    match saved_to {
        Some(path) => {
            let pointer_line = spill_pointer_line(path.as_str(), redo_hint);
            let tokens = count_tokens(pointer_line.as_str());
            let left = reserve_pointer_budget(policy, pointer_line.as_str(), tokens);
            PointerStep::Reduce { policy: left, pointer_line }
        },
        None => PointerStep::Finish,
    }
}

/// Whether a policy is what is left beside a pointer line, by some token count
/// of that line.
pub open spec fn leaves_room<C: Fn(&str) -> usize>(
    policy: TruncationPolicy,
    pointer_line: Seq<char>,
    left: TruncationPolicy,
    count_tokens: C,
) -> bool {
    exists|line: &str, tokens: usize|
        line@ == pointer_line && #[trigger] call_ensures(count_tokens, (line,), tokens) && left
            == reserved_policy(policy, encode_utf8(pointer_line).len() as int, tokens as int)
}

/// A payload with the pointer line added.
pub open spec fn with_pointer(payload: PayloadView, pointer_line: Seq<char>) -> PayloadView {
    PayloadView {
        body: match payload.body {
            BodyView::Text(text) => BodyView::Text(text + "\n"@ + pointer_line),
            BodyView::ContentItems(items) => BodyView::ContentItems(
                items.push(ItemView::InputText(pointer_line)),
            ),
        },
        success: payload.success,
    }
}

/// Adds the pointer line to a payload.
pub fn append_pointer(reduced: OutputPayload, pointer_line: String) -> (r: OutputPayload)
    ensures
        r@ == with_pointer(reduced@, pointer_line@),
{
    let success = reduced.success;
    match reduced.body {
        OutputBody::Text(text) => {
            let mut text = text;
            text.append("\n");
            text.append(pointer_line.as_str());
            OutputPayload { body: OutputBody::Text(text), success }
        },
        OutputBody::ContentItems(items) => {
            let mut items = items;
            let ghost before = items@;
            items.push(OutputItem::InputText { text: pointer_line });
            assert(item_views(items@) =~= item_views(before).push(
                ItemView::InputText(pointer_line@),
            ));
            OutputPayload { body: OutputBody::ContentItems(items), success }
        },
    }
}

/// Whatever the call id, the name that stands for it is not empty, is short,
/// holds no separator, and is neither of the two names that lead elsewhere.
pub proof fn lemma_call_id_is_safe(call_id: Seq<char>)
    ensures
        1 <= safe_call_id(call_id).len() <= MAX_CALL_ID_CHARS,
        forall|i: int|
            0 <= i < safe_call_id(call_id).len() ==> is_safe(#[trigger] safe_call_id(call_id)[i]),
        !safe_call_id(call_id).contains('/'),
        !safe_call_id(call_id).contains('\\'),
        !is_filler(safe_call_id(call_id)),
{
    reveal_strlit("call");
    let name = safe_call_id(call_id);
    if is_filler(safe_prefix(call_id)) {
        assert(name[0] == 'c');
    }
    assert(name.len() > 0);
    assert forall|i: int| 0 <= i < name.len() implies is_safe(#[trigger] name[i]) by {}
}

/// A call id that is safe as it stands is kept.
pub proof fn lemma_safe_call_id_is_kept(call_id: Seq<char>)
    requires
        call_id.len() <= MAX_CALL_ID_CHARS,
        forall|i: int| 0 <= i < call_id.len() ==> is_safe(#[trigger] call_id[i]),
        !is_filler(call_id),
    ensures
        safe_call_id(call_id) == call_id,
{
    assert(safe_prefix(call_id) =~= call_id);
}

/// Where the budget holds the pointer line at all, the body's budget, the line
/// break and the line together are exactly the budget.
pub proof fn lemma_budget_is_shared(budget: usize, cost: int)
    requires
        0 <= cost,
        cost + 2 <= budget,
    ensures
        reserved(budget, cost) + 1 + cost == budget,
{
}

} // verus!
