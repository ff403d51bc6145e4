//! Mapping line numbers back to source spans.

use vstd::prelude::*;
use crate::attribute::Span;

verus! {

/// The span from `column` (counted from 1) of a line whose bytes are `start..end` to just before
/// the line's end; a single column is all that is known, and a call typically runs to the end
/// of its line.
pub fn span_in_line(start: u32, end: u32, column: u32) -> (s: Span)
    requires
        end >= 1,
        start + (if column == 0 { 0 } else { column - 1 }) <= u32::MAX,
    ensures
        s == (Span { lo: (start + if column == 0 { 0 } else { column - 1 }) as u32, hi: (end - 1) as u32 }),
{
    Span { lo: start + column.saturating_sub(1), hi: end - 1 }
}

/// The index of the line that DWARF line number `line` (counted from 1) denotes.
pub fn line_index(line: u32) -> (i: usize)
    ensures
        i == if line == 0 { 0 } else { line - 1 },
{
    (line as usize).saturating_sub(1)
}

} // verus!
