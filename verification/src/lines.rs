//! Translation of byte offsets into 1-based line numbers.
//!
//! The engine receives the source text as bytes solely for this purpose:
//! the line of an offset is one more than the number of newline bytes
//! strictly before it. An offset outside the text is a caller error
//! (`requires`), not a recoverable condition.

use vstd::prelude::*;

verus! {

/// Number of newline bytes among the first `off` bytes of `code`.
pub open spec fn newlines_before(code: Seq<u8>, off: int) -> nat
    decreases off,
{
    if off <= 0 {
        0
    } else {
        newlines_before(code, off - 1) + if code[off - 1] == 10u8 {
            1nat
        } else {
            0nat
        }
    }
}

/// 1-based line number of byte offset `off` in `code`.
pub open spec fn line_of(code: Seq<u8>, off: int) -> nat {
    newlines_before(code, off) + 1
}

/// There are never more newlines before an offset than bytes before it.
pub proof fn lemma_newlines_before_le(code: Seq<u8>, off: int)
    requires
        0 <= off,
    ensures
        newlines_before(code, off) <= off,
    decreases off,
{
    if off > 0 {
        lemma_newlines_before_le(code, off - 1);
    }
}

/// Line numbers do not decrease as the offset grows.
pub proof fn lemma_line_of_monotonic(code: Seq<u8>, off1: int, off2: int)
    requires
        0 <= off1 <= off2,
    ensures
        line_of(code, off1) <= line_of(code, off2),
    decreases off2 - off1,
{
    if off1 < off2 {
        lemma_line_of_monotonic(code, off1, off2 - 1);
    }
}

/// 1-based line number of byte offset `byte_index` in the source text
/// `code`: one more than the count of newline bytes before the offset.
pub fn get_line_number(byte_index: usize, code: &[u8]) -> (line: u64)
    requires
        byte_index <= code@.len(),
        code@.len() < u64::MAX,
    ensures
        line == line_of(code@, byte_index as int),
{
    let mut count: u64 = 0;
    let mut i: usize = 0;
    while i < byte_index
        invariant
            0 <= i <= byte_index <= code@.len() < u64::MAX,
            count == newlines_before(code@, i as int),
        decreases byte_index - i,
    {
        proof {
            lemma_newlines_before_le(code@, i as int);
        }
        if code[i] == 10u8 {
            count = count + 1;
        }
        i = i + 1;
    }
    proof {
        lemma_newlines_before_le(code@, byte_index as int);
    }
    count + 1
}

} // verus!
