//! What holds of the pieces that output is cut into, and of the time that is
//! given to output that trails.

use vstd::prelude::*;
use vstd::utf8::{length_of_first_scalar, valid_first_scalar, valid_utf8};

use crate::output_stream::TRAILING_OUTPUT_GRACE;
use crate::utf8_stream::{next_piece_len, piece_len, UNIFIED_EXEC_OUTPUT_DELTA_MAX_BYTES};

verus! {

proof fn lemma_longest_from(bytes: Seq<u8>, max_len: int, split: int, k: int)
    requires
        0 < k <= split <= max_len,
        max_len - k <= 5,
        valid_utf8(bytes.take(k)),
        forall|j: int| k < j <= split ==> !valid_utf8(#[trigger] bytes.take(j)),
    ensures
        piece_len(bytes, max_len, split) == k,
    decreases split,
{
    if split > k {
        assert(!valid_utf8(bytes.take(split)));
        lemma_longest_from(bytes, max_len, split - 1, k);
    }
}

proof fn lemma_broken_from(bytes: Seq<u8>, max_len: int, split: int)
    requires
        0 <= split <= max_len <= split + 5,
        forall|j: int|
            0 < j <= split && max_len - j <= 5 ==> !valid_utf8(#[trigger] bytes.take(j)),
    ensures
        valid_first_scalar(bytes) && length_of_first_scalar(bytes) <= max_len ==> piece_len(
            bytes,
            max_len,
            split,
        ) == length_of_first_scalar(bytes),
        !valid_first_scalar(bytes) || length_of_first_scalar(bytes) > max_len ==> piece_len(
            bytes,
            max_len,
            split,
        ) == 1,
    decreases split,
{
    if split > 0 {
        assert(!valid_utf8(bytes.take(split)));
        if max_len - split <= 4 {
            lemma_broken_from(bytes, max_len, split - 1);
        }
    }
}

/// The next piece is the longest text of at most 8192 bytes, where one is at
/// most five bytes shorter than what is there or than that bound; otherwise it
/// is the first character, or a single byte that begins none.
pub proof fn lemma_piece_is_longest_text(bytes: Seq<u8>)
    requires
        bytes.len() > 0,
    ensures
        ({
            let max_len = if bytes.len() <= 8192 {
                bytes.len() as int
            } else {
                8192
            };
            let n = next_piece_len(bytes, UNIFIED_EXEC_OUTPUT_DELTA_MAX_BYTES as nat);
            &&& forall|k: int|
                0 < k <= max_len && max_len - k <= 5 && valid_utf8(#[trigger] bytes.take(k)) && (
                forall|j: int| k < j <= max_len ==> !valid_utf8(#[trigger] bytes.take(j))) ==> n == k
            &&& (forall|j: int|
                0 < j <= max_len && max_len - j <= 5 ==> !valid_utf8(#[trigger] bytes.take(j)))
                ==> n == if valid_first_scalar(bytes) && length_of_first_scalar(bytes) <= max_len {
                length_of_first_scalar(bytes)
            } else {
                1
            }
        }),
{
    let max_len = if bytes.len() <= 8192 {
        bytes.len() as int
    } else {
        8192
    };
    let n = next_piece_len(bytes, UNIFIED_EXEC_OUTPUT_DELTA_MAX_BYTES as nat);
    assert forall|k: int|
        0 < k <= max_len && max_len - k <= 5 && valid_utf8(#[trigger] bytes.take(k)) && (forall|
            j: int,
        |
            k < j <= max_len ==> !valid_utf8(#[trigger] bytes.take(j))) implies n == k by {
        lemma_longest_from(bytes, max_len, max_len, k);
    }
    if forall|j: int|
        0 < j <= max_len && max_len - j <= 5 ==> !valid_utf8(#[trigger] bytes.take(j)) {
        lemma_broken_from(bytes, max_len, max_len);
    }
}

/// Text that fits is one piece.
pub proof fn lemma_text_that_fits_is_one_piece(bytes: Seq<u8>)
    requires
        0 < bytes.len() <= 8192,
        valid_utf8(bytes),
    ensures
        next_piece_len(bytes, UNIFIED_EXEC_OUTPUT_DELTA_MAX_BYTES as nat) == bytes.len(),
{
    assert(bytes.take(bytes.len() as int) =~= bytes);
}

/// Output that trails the end of a process is waited for a tenth of a second,
/// in nanoseconds.
pub proof fn lemma_trailing_output_is_waited_for()
    ensures
        TRAILING_OUTPUT_GRACE * 10 == 1_000_000_000,
{
}

} // verus!
