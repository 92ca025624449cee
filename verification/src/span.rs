use vstd::prelude::*;

verus! {

/// A half-open character range `[lo, hi)` into one source file,
/// identified by `file`.
#[derive(Clone, Copy, PartialEq, Eq, Structural, Debug)]
pub struct Span {
    pub file: usize,
    pub lo: usize,
    pub hi: usize,
}

impl Span {
    /// True when the span is a well-shaped subrange of a source of
    /// `len` bytes in file `file`.
    pub open spec fn inside(self, file: usize, len: nat) -> bool {
        self.file == file && self.lo <= self.hi && self.hi <= len
    }

    pub fn new(file: usize, lo: usize, hi: usize) -> (s: Span)
        ensures
            s == (Span { file, lo, hi }),
    {
        Span { file, lo, hi }
    }
}

/// Number of line breaks in `src` strictly before position `pos`.
pub open spec fn newlines_before(src: Seq<u8>, pos: int) -> int
    decreases pos,
{
    if pos <= 0 {
        0
    } else {
        newlines_before(src, pos - 1) + if src[pos - 1] == 10u8 {
            1int
        } else {
            0int
        }
    }
}

/// Position just after the last line break strictly before `pos`
/// (0 when there is none): the start of the line that `pos` lies on.
pub open spec fn line_start_before(src: Seq<u8>, pos: int) -> int
    decreases pos,
{
    if pos <= 0 {
        0
    } else if src[pos - 1] == 10u8 {
        pos
    } else {
        line_start_before(src, pos - 1)
    }
}

/// The 1-based line and 0-based column of byte position `pos` in `src`.
pub fn line_col(src: &Vec<u8>, pos: usize) -> (lc: (usize, usize))
    requires
        pos <= src@.len() < usize::MAX,
    ensures
        lc.0 == newlines_before(src@, pos as int) + 1,
        lc.1 == pos - line_start_before(src@, pos as int),
{
    let mut i: usize = 0;
    let mut line: usize = 1;
    let mut start: usize = 0;
    while i < pos
        invariant
            i <= pos <= src@.len() < usize::MAX,
            line == newlines_before(src@, i as int) + 1,
            start == line_start_before(src@, i as int),
            line <= i + 1,
            start <= i,
        decreases pos - i,
    {
        if src[i] == 10u8 {
            line = line + 1;
            start = i + 1;
        }
        i = i + 1;
    }
    (line, pos - start)
}

} // verus!
