//! Resolution of source byte offsets to 1-based line numbers.
//!
//! The assembler reports every warning and error against a [`Span`] into the
//! source buffer; this module owns a copy of that buffer and answers
//! `(byte offset) -> (line number)` queries for the presentation layer.
use vstd::prelude::*;

use crate::copy_bytes;

verus! {

/// Number of newline bytes (`\n`) in `s`.
pub open spec fn count_newlines(s: Seq<u8>) -> int
    decreases s.len(),
{
    if s.len() == 0 {
        0
    } else {
        count_newlines(s.drop_last()) + if s.last() == 10u8 {
            1int
        } else {
            0int
        }
    }
}

/// The 1-based line number of byte offset `lo` in `src`: one more than the
/// number of newlines strictly before `lo`. Offsets at or past the end of the
/// source resolve to 0, meaning "no line".
pub open spec fn line_of(src: Seq<u8>, lo: int) -> int {
    if 0 <= lo < src.len() {
        count_newlines(src.take(lo)) + 1
    } else {
        0
    }
}

/// Maps byte offsets of the source text to line numbers, for reporting.
pub struct Diagnostic {
    source: Vec<u8>,
}

impl Diagnostic {
    /// The source text this diagnostic context was built from.
    pub closed spec fn view(&self) -> Seq<u8> {
        self.source@
    }

    /// Builds a diagnostic context over a copy of the source text.
    pub fn from_source(source: &Vec<u8>) -> (d: Diagnostic)
        ensures
            d@ == source@,
    {
        Diagnostic { source: copy_bytes(source) }
    }

    /// Returns the 1-based number of the line containing byte offset `lo`,
    /// or 0 when `lo` lies past the end of the source.
    pub fn get_line(&self, lo: usize) -> (r: usize)
        ensures
            r == line_of(self@, lo as int),
    {
        if lo >= self.source.len() {
            return 0;
        }
        let mut count: usize = 0;
        let mut i: usize = 0;
        while i < lo
            invariant
                i <= lo,
                lo < self.source@.len(),
                count == count_newlines(self.source@.take(i as int)),
                count <= i,
            decreases lo - i,
        {
            proof {
                assert(self.source@.take(i + 1 as int).drop_last()
                    =~= self.source@.take(i as int));
            }
            if self.source[i] == 10 {
                count += 1;
            }
            i += 1;
        }
        count + 1
    }
}

} // verus!
