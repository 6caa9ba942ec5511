//! Mapping a failure offset back to human-readable coordinates.
//!
//! The line of an offset is one more than the number of line feeds strictly
//! before it; the column counts from the byte just after the preceding line
//! feed, starting at 1.

use vstd::prelude::*;

verus! {

/// Number of line-feed bytes strictly before `off`.
pub open spec fn nl_count(s: Seq<u8>, off: int) -> int
    decreases off,
{
    if off <= 0 {
        0
    } else {
        nl_count(s, off - 1) + if s[off - 1] == 10 {
            1int
        } else {
            0int
        }
    }
}

/// Index of the last line-feed byte strictly before `off`, or -1.
pub open spec fn last_nl(s: Seq<u8>, off: int) -> int
    decreases off,
{
    if off <= 0 {
        -1
    } else if s[off - 1] == 10 {
        off - 1
    } else {
        last_nl(s, off - 1)
    }
}

/// The 1-based line of an offset.
pub open spec fn line_of(s: Seq<u8>, off: int) -> int {
    nl_count(s, off) + 1
}

/// The 1-based column of an offset within its line.
pub open spec fn col_of(s: Seq<u8>, off: int) -> int {
    off - last_nl(s, off)
}

/// A non-negative count clamped into `usize`.  Both coordinates exceed
/// `usize::MAX` only on a source of `usize::MAX` bytes, which no real
/// machine can hold.
pub open spec fn clamped(x: int) -> usize {
    if x > usize::MAX {
        usize::MAX
    } else {
        x as usize
    }
}

/// Counting stays within the prefix counted.
pub proof fn lemma_nl_count(s: Seq<u8>, off: int)
    requires
        off >= 0,
    ensures
        0 <= nl_count(s, off) <= off,
        -1 <= last_nl(s, off) < off,
    decreases off,
{
    if off > 0 {
        lemma_nl_count(s, off - 1);
    }
}

/// The first failure of a parse: its message and its 1-based line and
/// column in the source text.
#[derive(Debug)]
pub struct ParseError {
    msg: String,
    line: usize,
    col: usize,
}

impl ParseError {
    /// The message of this error.
    pub closed spec fn spec_msg(&self) -> Seq<char> {
        self.msg@
    }

    /// The reported line.
    pub closed spec fn spec_line(&self) -> usize {
        self.line
    }

    /// The reported column.
    pub closed spec fn spec_col(&self) -> usize {
        self.col
    }

    /// Builds the error for a failure at byte offset `at` of `s`.
    pub(crate) fn new(msg: String, s: &[u8], at: usize) -> (r: ParseError)
        requires
            at <= s@.len(),
        ensures
            r.spec_msg() == msg@,
            r.spec_line() == clamped(line_of(s@, at as int)),
            r.spec_col() == clamped(col_of(s@, at as int)),
    {
        let mut cnt: usize = 0;
        let mut last_plus: usize = 0;
        let mut i: usize = 0;
        while i < at
            invariant
                at <= s@.len(),
                i <= at,
                cnt == nl_count(s@, i as int),
                cnt <= i,
                last_plus == last_nl(s@, i as int) + 1,
                last_plus <= i,
            decreases at - i,
        {
            if s[i] == 10 {
                cnt = cnt + 1;
                last_plus = i + 1;
            }
            i += 1;
        }
        proof {
            lemma_nl_count(s@, at as int);
        }
        let line = if cnt < usize::MAX {
            cnt + 1
        } else {
            cnt
        };
        let diff = at - last_plus;
        let col = if diff < usize::MAX {
            diff + 1
        } else {
            diff
        };
        ParseError { msg, line, col }
    }

    /// The message of the failed production, verbatim.
    pub fn message(&self) -> (r: &String)
        ensures
            r@ == self.spec_msg(),
    {
        &self.msg
    }

    /// The 1-based line and column of the failure site.
    pub fn line_and_column(&self) -> (r: (usize, usize))
        ensures
            r.0 == self.spec_line(),
            r.1 == self.spec_col(),
    {
        (self.line, self.col)
    }
}

} // verus!
