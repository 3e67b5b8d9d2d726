//! Cutting of a byte stream into pieces of text.

use vstd::prelude::*;
use vstd::utf8::{
    continuation_bits, decode_first_codepoint, decode_utf8, is_char_boundary,
    leading_bits_width_2, leading_bits_width_3, leading_bits_width_4, length_of_first_scalar,
    partial_valid_partial_invalid_utf8, pop_first_scalar, valid_first_scalar, valid_utf8,
    valid_utf8_split,
};

verus! {

/// Upper bound for a single piece of output, so that those who take events do
/// not have to process arbitrarily large ones.
pub const UNIFIED_EXEC_OUTPUT_DELTA_MAX_BYTES: usize = 8192;

/// The text of bytes, in which each stretch that is no text is replaced.
pub uninterp spec fn lossy_text(bytes: Seq<u8>) -> Seq<char>;

/// `std::str::from_utf8`: succeeds on exactly the bytes that are UTF-8.
#[verifier::external_body]
pub(crate) fn is_utf8(bytes: &[u8]) -> (r: bool)
    ensures
        r == valid_utf8(bytes@),
{
    std::str::from_utf8(bytes).is_ok()
}

/// `String::from_utf8_lossy`: the text of bytes that are UTF-8, and otherwise a
/// text in which replacement characters stand for the bytes that are not.
#[verifier::external_body]
pub(crate) fn from_utf8_lossy(bytes: &[u8]) -> (r: String)
    ensures
        r@ == lossy_text(bytes@),
        valid_utf8(bytes@) ==> r@ == decode_utf8(bytes@),
{
    String::from_utf8_lossy(bytes).into_owned()
}

/// Whether bytes, with others after them, are one character.
pub open spec fn completes(bytes: Seq<u8>, more: Seq<u8>) -> bool {
    &&& valid_first_scalar(bytes + more)
    &&& length_of_first_scalar(bytes + more) == bytes.len() + more.len()
}

/// Whether bytes are the beginning of a character, and not all of it.
pub open spec fn is_unfinished(bytes: Seq<u8>) -> bool {
    bytes.len() > 0 && exists|more: Seq<u8>| more.len() > 0 && #[trigger] completes(bytes, more)
}

/// Whether a piece can be cut off bytes: there are any, and they are more than
/// the beginning of a character of which more may come.
pub open spec fn has_piece(bytes: Seq<u8>, closed: bool) -> bool {
    bytes.len() > 0 && (closed || !is_unfinished(bytes))
}

/// The length of the first character, where one begins the bytes and is no
/// longer than `max_len`, and else of a single byte.
pub open spec fn first_piece_len(bytes: Seq<u8>, max_len: int) -> int {
    if valid_first_scalar(bytes) && length_of_first_scalar(bytes) <= max_len {
        length_of_first_scalar(bytes)
    } else {
        1
    }
}

/// The length of the next piece of at most `max_len` bytes, of which none that
/// is longer than `split` will do: the longest text, as far as it is a few
/// bytes shorter at most, and else a single character or byte.
pub open spec fn piece_len(bytes: Seq<u8>, max_len: int, split: int) -> int
    decreases split,
{
    if split <= 0 {
        first_piece_len(bytes, max_len)
    } else if valid_utf8(bytes.take(split)) {
        split
    } else if max_len - split > 4 {
        first_piece_len(bytes, max_len)
    } else {
        piece_len(bytes, max_len, split - 1)
    }
}

/// The most bytes that the next piece can hold.
pub open spec fn most_bytes(bytes: Seq<u8>, max_bytes: nat) -> int {
    if bytes.len() <= max_bytes {
        bytes.len() as int
    } else {
        max_bytes as int
    }
}

/// The length of the next piece of at most `max_bytes` bytes.
pub open spec fn next_piece_len(bytes: Seq<u8>, max_bytes: nat) -> int {
    piece_len(bytes, most_bytes(bytes, max_bytes), most_bytes(bytes, max_bytes))
}

/// The pieces that are cut off bytes, one after the other.
pub open spec fn pieces(bytes: Seq<u8>, max_bytes: nat, closed: bool) -> Seq<Seq<u8>>
    decreases bytes.len(),
{
    let n = next_piece_len(bytes, max_bytes);
    if !has_piece(bytes, closed) || n <= 0 || n > bytes.len() {
        Seq::empty()
    } else {
        seq![bytes.take(n)] + pieces(bytes.skip(n), max_bytes, closed)
    }
}

/// The bytes that are left when no more pieces are cut off.
pub open spec fn held_back(bytes: Seq<u8>, max_bytes: nat, closed: bool) -> Seq<u8>
    decreases bytes.len(),
{
    let n = next_piece_len(bytes, max_bytes);
    if !has_piece(bytes, closed) || n <= 0 || n > bytes.len() {
        bytes
    } else {
        held_back(bytes.skip(n), max_bytes, closed)
    }
}

/// The pieces of a stream that holds back some bytes, that is read in chunks,
/// and that is then closed.
pub open spec fn stream_pieces(
    pending: Seq<u8>,
    chunks: Seq<Seq<u8>>,
    max_bytes: nat,
) -> Seq<Seq<u8>>
    decreases chunks.len(),
{
    if chunks.len() == 0 {
        pieces(pending, max_bytes, true)
    } else {
        let bytes = pending + chunks[0];
        pieces(bytes, max_bytes, false) + stream_pieces(
            held_back(bytes, max_bytes, false),
            chunks.skip(1),
            max_bytes,
        )
    }
}

/// Pieces one after the other.
pub open spec fn joined(parts: Seq<Seq<u8>>) -> Seq<u8>
    decreases parts.len(),
{
    if parts.len() == 0 {
        Seq::empty()
    } else {
        parts[0] + joined(parts.skip(1))
    }
}

/// The value of two bytes that have the form of a character.
proof fn lemma_two_bytes(a: u8, b: u8)
    requires
        0xc0 <= a <= 0xdf,
        0x80 <= b <= 0xbf,
    ensures
        (leading_bits_width_2(a) << 6) | continuation_bits(b) == (a - 0xc0) * 64 + (b - 0x80),
{
    assert((((a & 0x1f) as u32) << 6) | ((b & 0x3f) as u32) == (a - 0xc0) * 64 + (b - 0x80))
        by (bit_vector)
        requires
            0xc0 <= a <= 0xdf,
            0x80 <= b <= 0xbf,
    ;
}

/// The value of three bytes that have the form of a character.
proof fn lemma_three_bytes(a: u8, b: u8, c: u8)
    requires
        0xe0 <= a <= 0xef,
        0x80 <= b <= 0xbf,
        0x80 <= c <= 0xbf,
    ensures
        (leading_bits_width_3(a) << 12) | (continuation_bits(b) << 6) | continuation_bits(c) == (a
            - 0xe0) * 4096 + (b - 0x80) * 64 + (c - 0x80),
{
    assert((((a & 0x0f) as u32) << 12) | (((b & 0x3f) as u32) << 6) | ((c & 0x3f) as u32) == (a
        - 0xe0) * 4096 + (b - 0x80) * 64 + (c - 0x80)) by (bit_vector)
        requires
            0xe0 <= a <= 0xef,
            0x80 <= b <= 0xbf,
            0x80 <= c <= 0xbf,
    ;
}

/// The value of four bytes that have the form of a character.
proof fn lemma_four_bytes(a: u8, b: u8, c: u8, d: u8)
    requires
        0xf0 <= a <= 0xf7,
        0x80 <= b <= 0xbf,
        0x80 <= c <= 0xbf,
        0x80 <= d <= 0xbf,
    ensures
        (leading_bits_width_4(a) << 18) | (continuation_bits(b) << 12) | (continuation_bits(c) << 6)
            | continuation_bits(d) == (a - 0xf0) * 262144 + (b - 0x80) * 4096 + (c - 0x80) * 64 + (d
            - 0x80),
{
    assert((((a & 0x07) as u32) << 18) | (((b & 0x3f) as u32) << 12) | (((c & 0x3f) as u32) << 6)
        | ((d & 0x3f) as u32) == (a - 0xf0) * 262144 + (b - 0x80) * 4096 + (c - 0x80) * 64 + (d
        - 0x80)) by (bit_vector)
        requires
            0xf0 <= a <= 0xf7,
            0x80 <= b <= 0xbf,
            0x80 <= c <= 0xbf,
            0x80 <= d <= 0xbf,
    ;
}

/// Whether one to three bytes are the beginning of a character of which more
/// bytes follow, read off their values.
spec fn begins_character(bytes: Seq<u8>) -> bool {
    let a = bytes[0];
    &&& 1 <= bytes.len() <= 3
    &&& if bytes.len() == 1 {
        0xc2 <= a <= 0xf4
    } else if bytes.len() == 2 {
        0xe0 <= a <= 0xf4 && may_follow(a, bytes[1])
    } else {
        0xf0 <= a <= 0xf4 && may_follow(a, bytes[1]) && 0x80 <= bytes[2] <= 0xbf
    }
}

/// Whether a byte may follow the first byte of a character of three or four
/// bytes: one that makes it neither too small for its length, nor too large,
/// nor a surrogate.
spec fn may_follow(first: u8, second: u8) -> bool {
    if first == 0xe0 {
        0xa0 <= second <= 0xbf
    } else if first == 0xed {
        0x80 <= second <= 0x9f
    } else if first == 0xf0 {
        0x90 <= second <= 0xbf
    } else if first == 0xf4 {
        0x80 <= second <= 0x8f
    } else {
        0x80 <= second <= 0xbf
    }
}

/// What completes the beginning of a character.
spec fn completion(bytes: Seq<u8>) -> Seq<u8> {
    let a = bytes[0];
    let second: u8 = if a == 0xe0 {
        0xa0
    } else if a == 0xf0 {
        0x90
    } else {
        0x80
    };
    let filler: u8 = 0x80;
    if a <= 0xdf {
        seq![filler]
    } else if a <= 0xef {
        if bytes.len() == 1 {
            seq![second, filler]
        } else {
            seq![filler]
        }
    } else if bytes.len() == 1 {
        seq![second, filler, filler]
    } else if bytes.len() == 2 {
        seq![filler, filler]
    } else {
        seq![filler]
    }
}

proof fn lemma_first_value(bytes: Seq<u8>)
    requires
        valid_first_scalar(bytes),
    ensures
        bytes.len() >= length_of_first_scalar(bytes),
        length_of_first_scalar(bytes) == 2 ==> decode_first_codepoint(bytes) == (bytes[0] - 0xc0)
            * 64 + (bytes[1] - 0x80),
        length_of_first_scalar(bytes) == 3 ==> decode_first_codepoint(bytes) == (bytes[0] - 0xe0)
            * 4096 + (bytes[1] - 0x80) * 64 + (bytes[2] - 0x80),
        length_of_first_scalar(bytes) == 4 ==> decode_first_codepoint(bytes) == (bytes[0] - 0xf0)
            * 262144 + (bytes[1] - 0x80) * 4096 + (bytes[2] - 0x80) * 64 + (bytes[3] - 0x80),
{
    let n = length_of_first_scalar(bytes);
    if n == 2 {
        lemma_two_bytes(bytes[0], bytes[1]);
    } else if n == 3 {
        lemma_three_bytes(bytes[0], bytes[1], bytes[2]);
    } else if n == 4 {
        lemma_four_bytes(bytes[0], bytes[1], bytes[2], bytes[3]);
    }
}

/// The values of bytes tell whether they are unfinished.
proof fn lemma_unfinished(bytes: Seq<u8>)
    ensures
        is_unfinished(bytes) <==> begins_character(bytes),
{
    if is_unfinished(bytes) {
        let more = choose|more: Seq<u8>| more.len() > 0 && #[trigger] completes(bytes, more);
        let all = bytes + more;
        lemma_first_value(all);
        assert(bytes[0] == all[0]);
        if bytes.len() >= 2 {
            assert(bytes[1] == all[1]);
        }
        if bytes.len() >= 3 {
            assert(bytes[2] == all[2]);
        }
    }
    if begins_character(bytes) {
        let more = completion(bytes);
        let all = bytes + more;
        let a = bytes[0];
        assert(all[0] == a);
        if a <= 0xdf {
            lemma_two_bytes(all[0], all[1]);
        } else if a <= 0xef {
            lemma_three_bytes(all[0], all[1], all[2]);
        } else {
            lemma_four_bytes(all[0], all[1], all[2], all[3]);
        }
        assert(completes(bytes, more));
    }
}

/// Tells whether bytes are the beginning of a character, and not all of it.
fn unfinished(bytes: &[u8]) -> (r: bool)
    ensures
        r == is_unfinished(bytes@),
{
    proof {
        lemma_unfinished(bytes@);
    }
    let len = bytes.len();
    if len == 0 || len > 3 {
        return false;
    }
    let a = bytes[0];
    if len == 1 {
        return 0xc2 <= a && a <= 0xf4;
    }
    let b = bytes[1];
    let follows = if a == 0xe0 {
        0xa0 <= b && b <= 0xbf
    } else if a == 0xed {
        0x80 <= b && b <= 0x9f
    } else if a == 0xf0 {
        0x90 <= b && b <= 0xbf
    } else if a == 0xf4 {
        0x80 <= b && b <= 0x8f
    } else {
        0x80 <= b && b <= 0xbf
    };
    if len == 2 {
        return 0xe0 <= a && a <= 0xf4 && follows;
    }
    0xf0 <= a && a <= 0xf4 && follows && 0x80 <= bytes[2] && bytes[2] <= 0xbf
}

/// Only the bytes of the first character decide what it is.
proof fn lemma_first_scalar_alone(bytes: Seq<u8>, k: int)
    requires
        0 <= k <= bytes.len(),
    ensures
        valid_first_scalar(bytes.take(k)) <==> valid_first_scalar(bytes) && length_of_first_scalar(
            bytes,
        ) <= k,
        valid_first_scalar(bytes.take(k)) ==> length_of_first_scalar(bytes.take(k))
            == length_of_first_scalar(bytes),
{
    let head = bytes.take(k);
    assert(forall|i: int| 0 <= i < k ==> head[i] == bytes[i]);
}

/// The first character is the shortest text at the beginning.
proof fn lemma_first_character(bytes: Seq<u8>, k: int)
    requires
        0 < k <= bytes.len(),
    ensures
        valid_utf8(bytes.take(k)) ==> valid_first_scalar(bytes) && length_of_first_scalar(bytes)
            <= k,
        valid_first_scalar(bytes) && length_of_first_scalar(bytes) == k ==> valid_utf8(
            bytes.take(k),
        ),
{
    lemma_first_scalar_alone(bytes, k);
    if valid_first_scalar(bytes) && length_of_first_scalar(bytes) == k {
        assert(pop_first_scalar(bytes.take(k)) =~= Seq::empty());
        assert(valid_utf8(Seq::empty()));
    }
}

proof fn lemma_piece_len(bytes: Seq<u8>, max_len: int, split: int)
    requires
        0 <= split <= max_len <= bytes.len(),
        bytes.len() > 0,
    ensures
        0 < piece_len(bytes, max_len, split) <= bytes.len(),
        piece_len(bytes, max_len, split) <= max_len || piece_len(bytes, max_len, split) == 1,
    decreases split,
{
    if split > 0 && !valid_utf8(bytes.take(split)) && max_len - split <= 4 {
        lemma_piece_len(bytes, max_len, split - 1);
    }
}

/// A piece is never empty, and never longer than its bound, or than one byte.
pub proof fn lemma_piece_bounds(bytes: Seq<u8>, max_bytes: nat)
    requires
        bytes.len() > 0,
    ensures
        0 < next_piece_len(bytes, max_bytes) <= bytes.len(),
        next_piece_len(bytes, max_bytes) <= max_bytes || next_piece_len(bytes, max_bytes) == 1,
{
    let max_len = most_bytes(bytes, max_bytes);
    lemma_piece_len(bytes, max_len, max_len);
}

/// The length of the first character, or of a single byte.
fn first_len(bytes: &[u8], max_len: usize) -> (r: usize)
    requires
        max_len <= bytes@.len(),
    ensures
        r == first_piece_len(bytes@, max_len as int),
{
    let mut k: usize = 1;
    while k <= 4 && k <= max_len
        invariant
            1 <= k <= 5,
            max_len <= bytes@.len(),
            valid_first_scalar(bytes@) ==> length_of_first_scalar(bytes@) >= k,
        decreases 5 - k,
    {
        let head = vstd::slice::slice_subrange(bytes, 0, k);
        assert(head@ =~= bytes@.take(k as int));
        proof {
            lemma_first_character(bytes@, k as int);
        }
        if is_utf8(head) {
            return k;
        }
        k += 1;
    }
    1
}

/// Takes the next piece of at most `max_bytes` bytes off a buffer; a single
/// byte where no text begins it, so that the stream keeps making progress and
/// the transcript reflects all bytes.
pub fn split_valid_utf8_prefix_with_max(buffer: &mut Vec<u8>, max_bytes: usize) -> (r: Option<
    Vec<u8>,
>)
    ensures
        r is None <==> old(buffer)@.len() == 0,
        r is None ==> final(buffer)@ == old(buffer)@,
        r matches Some(piece) ==> piece@ == old(buffer)@.take(
            next_piece_len(old(buffer)@, max_bytes as nat),
        ) && final(buffer)@ == old(buffer)@.skip(
            next_piece_len(old(buffer)@, max_bytes as nat),
        ),
{
    if buffer.len() == 0 {
        return None;
    }
    let ghost bytes = buffer@;
    let len = buffer.len();
    let max_len: usize = if len <= max_bytes {
        len
    } else {
        max_bytes
    };
    proof {
        lemma_piece_bounds(bytes, max_bytes as nat);
    }
    let first = first_len(buffer.as_slice(), max_len);
    let mut split: usize = max_len;
    let mut found: usize = first;
    let mut searching = true;
    while split > 0 && searching
        invariant
            split <= max_len <= len,
            len == bytes.len(),
            len > 0,
            buffer@ == bytes,
            first == first_piece_len(bytes, max_len as int),
            1 <= found <= len,
            searching ==> found == first && piece_len(bytes, max_len as int, max_len as int)
                == piece_len(bytes, max_len as int, split as int),
            !searching ==> piece_len(bytes, max_len as int, max_len as int) == found,
        decreases split + (if searching {
            1int
        } else {
            0int
        }),
    {
        let head = vstd::slice::slice_subrange(buffer.as_slice(), 0, split);
        assert(head@ =~= bytes.take(split as int));
        if is_utf8(head) {
            found = split;
            searching = false;
        } else if max_len - split > 4 {
            searching = false;
        } else {
            split -= 1;
        }
    }
    let rest = buffer.split_off(found);
    let mut piece: Vec<u8> = rest;
    std::mem::swap(buffer, &mut piece);
    assert(piece@ =~= bytes.take(found as int));
    assert(buffer@ =~= bytes.skip(found as int));
    Some(piece)
}

/// Takes the next piece off a buffer.
pub fn split_valid_utf8_prefix(buffer: &mut Vec<u8>) -> (r: Option<Vec<u8>>)
    ensures
        r is None <==> old(buffer)@.len() == 0,
        r is None ==> final(buffer)@ == old(buffer)@,
        r matches Some(piece) ==> piece@ == old(buffer)@.take(
            next_piece_len(old(buffer)@, UNIFIED_EXEC_OUTPUT_DELTA_MAX_BYTES as nat),
        ) && final(buffer)@ == old(buffer)@.skip(
            next_piece_len(old(buffer)@, UNIFIED_EXEC_OUTPUT_DELTA_MAX_BYTES as nat),
        ),
{
    split_valid_utf8_prefix_with_max(buffer, UNIFIED_EXEC_OUTPUT_DELTA_MAX_BYTES)
}

/// Takes the next piece off the output of a stream. While the stream is open,
/// the beginning of a character is held back until the rest of it has come.
pub fn split_stream_prefix(pending: &mut Vec<u8>, closed: bool) -> (r: Option<Vec<u8>>)
    ensures
        r is Some <==> has_piece(old(pending)@, closed),
        r is None ==> final(pending)@ == old(pending)@,
        r matches Some(piece) ==> piece@ == old(pending)@.take(
            next_piece_len(old(pending)@, UNIFIED_EXEC_OUTPUT_DELTA_MAX_BYTES as nat),
        ) && final(pending)@ == old(pending)@.skip(
            next_piece_len(old(pending)@, UNIFIED_EXEC_OUTPUT_DELTA_MAX_BYTES as nat),
        ),
{
    if !closed && unfinished(pending.as_slice()) {
        return None;
    }
    split_valid_utf8_prefix(pending)
}

/// The pieces and what is held back hold all bytes, in order.
pub proof fn lemma_pieces_hold_all(bytes: Seq<u8>, max_bytes: nat, closed: bool)
    ensures
        joined(pieces(bytes, max_bytes, closed)) + held_back(bytes, max_bytes, closed) == bytes,
        closed ==> held_back(bytes, max_bytes, closed).len() == 0,
        !has_piece(held_back(bytes, max_bytes, closed), closed),
    decreases bytes.len(),
{
    if has_piece(bytes, closed) {
        lemma_piece_bounds(bytes, max_bytes);
        let n = next_piece_len(bytes, max_bytes);
        lemma_pieces_hold_all(bytes.skip(n), max_bytes, closed);
        let all = pieces(bytes, max_bytes, closed);
        assert(all.skip(1) =~= pieces(bytes.skip(n), max_bytes, closed));
        assert(bytes.take(n) + bytes.skip(n) =~= bytes);
        assert(joined(all) + held_back(bytes, max_bytes, closed) =~= bytes.take(n) + (joined(
            pieces(bytes.skip(n), max_bytes, closed),
        ) + held_back(bytes.skip(n), max_bytes, closed)));
    } else {
        assert(joined(pieces(bytes, max_bytes, closed)) + held_back(bytes, max_bytes, closed)
            =~= bytes);
    }
}

proof fn lemma_joined_add(a: Seq<Seq<u8>>, b: Seq<Seq<u8>>)
    ensures
        joined(a + b) == joined(a) + joined(b),
    decreases a.len(),
{
    if a.len() == 0 {
        assert(a + b =~= b);
        assert(joined(a + b) =~= joined(a) + joined(b));
    } else {
        lemma_joined_add(a.skip(1), b);
        assert((a + b).skip(1) =~= a.skip(1) + b);
        assert(joined(a + b) =~= joined(a) + joined(b));
    }
}

/// However a stream is read, its pieces hold all its bytes, in order.
pub proof fn lemma_stream_holds_all(pending: Seq<u8>, chunks: Seq<Seq<u8>>, max_bytes: nat)
    ensures
        joined(stream_pieces(pending, chunks, max_bytes)) == pending + joined(chunks),
    decreases chunks.len(),
{
    if chunks.len() == 0 {
        lemma_pieces_hold_all(pending, max_bytes, true);
        assert(joined(stream_pieces(pending, chunks, max_bytes)) + held_back(
            pending,
            max_bytes,
            true,
        ) =~= joined(stream_pieces(pending, chunks, max_bytes)));
        assert(pending + joined(chunks) =~= pending);
    } else {
        let bytes = pending + chunks[0];
        let now = pieces(bytes, max_bytes, false);
        let held = held_back(bytes, max_bytes, false);
        let later = stream_pieces(held, chunks.skip(1), max_bytes);
        lemma_pieces_hold_all(bytes, max_bytes, false);
        lemma_stream_holds_all(held, chunks.skip(1), max_bytes);
        lemma_joined_add(now, later);
        assert(joined(now) + (held + joined(chunks.skip(1))) =~= bytes + joined(chunks.skip(1)));
        assert(bytes + joined(chunks.skip(1)) =~= pending + joined(chunks));
    }
}

/// A character ends within four bytes of any place in a text.
proof fn lemma_boundary_near(bytes: Seq<u8>, m: int)
    requires
        valid_utf8(bytes),
        0 <= m <= bytes.len(),
    ensures
        exists|b: int| m - 3 <= b <= m && #[trigger] is_char_boundary(bytes, b),
    decreases bytes.len(),
{
    if m == 0 || bytes.len() == 0 {
        assert(is_char_boundary(bytes, m));
    } else {
        let first = length_of_first_scalar(bytes);
        let rest = pop_first_scalar(bytes);
        assert(1 <= first <= 4);
        if m < first {
            assert(is_char_boundary(bytes, 0));
        } else {
            lemma_boundary_near(rest, m - first);
            let b = choose|b: int| m - first - 3 <= b <= m - first && #[trigger] is_char_boundary(
                rest,
                b,
            );
            if b < 0 {
                assert(!is_char_boundary(rest, b));
            }
            assert(is_char_boundary(bytes, b + first));
        }
    }
}

proof fn lemma_finds_text(bytes: Seq<u8>, max_len: int, split: int, b: int)
    requires
        0 < b <= split <= max_len <= bytes.len(),
        max_len - b <= 4,
        valid_utf8(bytes.take(b)),
    ensures
        valid_utf8(bytes.take(piece_len(bytes, max_len, split))),
        b <= piece_len(bytes, max_len, split) <= split,
    decreases split,
{
    if !valid_utf8(bytes.take(split)) {
        lemma_finds_text(bytes, max_len, split - 1, b);
    }
}

/// Where bytes are the beginning of a text, a piece that can be cut off them
/// is text, and what is left is again the beginning of a text.
proof fn lemma_piece_of_text(bytes: Seq<u8>, more: Seq<u8>, max_bytes: nat)
    requires
        valid_utf8(bytes + more),
        bytes.len() > 0,
        !is_unfinished(bytes),
        max_bytes >= 4,
    ensures
        0 < next_piece_len(bytes, max_bytes) <= bytes.len(),
        valid_utf8(bytes.take(next_piece_len(bytes, max_bytes))),
        valid_utf8(bytes.skip(next_piece_len(bytes, max_bytes)) + more),
{
    let all = bytes + more;
    let max_len = most_bytes(bytes, max_bytes);
    lemma_piece_bounds(bytes, max_bytes);
    let first = length_of_first_scalar(all);
    if first > bytes.len() {
        let rest = all.subrange(bytes.len() as int, first);
        assert(bytes + rest =~= all.take(first));
        lemma_first_scalar_alone(all, first);
        assert(completes(bytes, rest));
        assert(false);
    }
    lemma_boundary_near(all, max_len);
    let near = choose|b: int| max_len - 3 <= b <= max_len && #[trigger] is_char_boundary(all, b);
    let b = if near > 0 {
        near
    } else {
        first
    };
    if near > 0 {
        valid_utf8_split(all, b);
        assert(all.subrange(0, b) =~= bytes.take(b));
    } else {
        lemma_first_character(all, first);
        assert(all.take(first) =~= bytes.take(first));
        assert(max_len <= 3);
    }
    lemma_finds_text(bytes, max_len, max_len, b);
    let n = next_piece_len(bytes, max_bytes);
    assert(all.subrange(0, n) =~= bytes.take(n));
    assert(all.subrange(n, all.len() as int) =~= bytes.skip(n) + more);
    if !valid_utf8(bytes.skip(n) + more) {
        partial_valid_partial_invalid_utf8(all, n);
    }
}

proof fn lemma_pieces_of_text(bytes: Seq<u8>, more: Seq<u8>, max_bytes: nat, closed: bool)
    requires
        valid_utf8(bytes + more),
        closed ==> more.len() == 0,
        max_bytes >= 4,
    ensures
        forall|i: int|
            0 <= i < pieces(bytes, max_bytes, closed).len() ==> valid_utf8(
                #[trigger] pieces(bytes, max_bytes, closed)[i],
            ),
        valid_utf8(held_back(bytes, max_bytes, closed) + more),
    decreases bytes.len(),
{
    if has_piece(bytes, closed) {
        if closed {
            assert(bytes + more =~= bytes);
            lemma_first_scalar_alone(bytes, bytes.len() as int);
            if is_unfinished(bytes) {
                let rest = choose|rest: Seq<u8>|
                    rest.len() > 0 && #[trigger] completes(bytes, rest);
                lemma_first_scalar_alone(bytes + rest, bytes.len() as int);
                assert((bytes + rest).take(bytes.len() as int) =~= bytes);
            }
        }
        lemma_piece_of_text(bytes, more, max_bytes);
        let n = next_piece_len(bytes, max_bytes);
        lemma_pieces_of_text(bytes.skip(n), more, max_bytes, closed);
        let all = pieces(bytes, max_bytes, closed);
        let rest = pieces(bytes.skip(n), max_bytes, closed);
        assert forall|i: int| 0 <= i < all.len() implies valid_utf8(#[trigger] all[i]) by {
            if i > 0 {
                assert(all[i] == rest[i - 1]);
            }
        }
    }
}

proof fn lemma_stream_of_text(pending: Seq<u8>, chunks: Seq<Seq<u8>>, max_bytes: nat)
    requires
        valid_utf8(pending + joined(chunks)),
        max_bytes >= 4,
    ensures
        forall|i: int|
            0 <= i < stream_pieces(pending, chunks, max_bytes).len() ==> valid_utf8(
                #[trigger] stream_pieces(pending, chunks, max_bytes)[i],
            ),
    decreases chunks.len(),
{
    if chunks.len() == 0 {
        lemma_pieces_of_text(pending, joined(chunks), max_bytes, true);
    } else {
        let bytes = pending + chunks[0];
        let more = joined(chunks.skip(1));
        assert(pending + joined(chunks) =~= bytes + more);
        lemma_pieces_of_text(bytes, more, max_bytes, false);
        let held = held_back(bytes, max_bytes, false);
        lemma_stream_of_text(held, chunks.skip(1), max_bytes);
        let now = pieces(bytes, max_bytes, false);
        let later = stream_pieces(held, chunks.skip(1), max_bytes);
        let all = stream_pieces(pending, chunks, max_bytes);
        assert forall|i: int| 0 <= i < all.len() implies valid_utf8(#[trigger] all[i]) by {
            if i < now.len() {
                assert(all[i] == now[i]);
            } else {
                assert(all[i] == later[i - now.len()]);
            }
        }
    }
}

/// However a text is read in chunks, each piece of it is text, so that no
/// character is cut, and the pieces are the text.
pub proof fn lemma_text_is_cut_between_characters(chunks: Seq<Seq<u8>>, max_bytes: nat)
    requires
        valid_utf8(joined(chunks)),
        max_bytes >= 4,
    ensures
        forall|i: int|
            0 <= i < stream_pieces(Seq::empty(), chunks, max_bytes).len() ==> valid_utf8(
                #[trigger] stream_pieces(Seq::empty(), chunks, max_bytes)[i],
            ),
        joined(stream_pieces(Seq::empty(), chunks, max_bytes)) == joined(chunks),
{
    let empty = Seq::<u8>::empty();
    assert(empty + joined(chunks) =~= joined(chunks));
    lemma_stream_of_text(empty, chunks, max_bytes);
    lemma_stream_holds_all(empty, chunks, max_bytes);
}

/// While a stream is open, a piece that is not text is a single byte, and no
/// bytes that may come make a character of it and those that follow it.
pub proof fn lemma_only_broken_bytes_go_alone(bytes: Seq<u8>, more: Seq<u8>, max_bytes: nat)
    requires
        has_piece(bytes, false),
        max_bytes >= 4,
        !valid_utf8(bytes.take(next_piece_len(bytes, max_bytes))),
    ensures
        next_piece_len(bytes, max_bytes) == 1,
        !valid_first_scalar(bytes + more),
{
    let all = bytes + more;
    let max_len = most_bytes(bytes, max_bytes);
    lemma_piece_kind(bytes, max_len, max_len);
    if valid_first_scalar(all) {
        let first = length_of_first_scalar(all);
        if first > bytes.len() {
            let rest = all.subrange(bytes.len() as int, first);
            assert(bytes + rest =~= all.take(first));
            lemma_first_scalar_alone(all, first);
            assert(completes(bytes, rest));
        } else {
            lemma_first_scalar_alone(all, bytes.len() as int);
            assert(all.take(bytes.len() as int) =~= bytes);
            lemma_first_character(bytes, first);
        }
    } else if valid_first_scalar(bytes) {
        lemma_first_character(bytes, length_of_first_scalar(bytes));
    }
}

proof fn lemma_piece_kind(bytes: Seq<u8>, max_len: int, split: int)
    requires
        0 <= split <= max_len <= bytes.len(),
    ensures
        valid_utf8(bytes.take(piece_len(bytes, max_len, split))) || piece_len(bytes, max_len, split)
            == first_piece_len(bytes, max_len),
    decreases split,
{
    if split > 0 && !valid_utf8(bytes.take(split)) && max_len - split <= 4 {
        lemma_piece_kind(bytes, max_len, split - 1);
    }
}

} // verus!
