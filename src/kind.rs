//! Pipe colours and their compatibility.

use vstd::prelude::*;

verus! {

/// The colour of a pipe segment.
#[derive(Clone, Copy, Debug, PartialEq, Eq, Structural, Hash)]
pub enum PipeSegment {
    /// Part of the blue pipes.
    Blue,
    /// Part of the red pipes.
    Red,
}

impl PipeSegment {
    /// Reads the colour from the value of a cell of the pipe layer:
    /// `1` is blue, `2` is red, any other value is not a pipe colour.
    pub fn from_int_cell(value: i32) -> (r: Option<PipeSegment>)
        ensures
            value == 1 ==> r == Some(PipeSegment::Blue),
            value == 2 ==> r == Some(PipeSegment::Red),
            value != 1 && value != 2 ==> r.is_none(),
    {
        match value {
            1 => Some(PipeSegment::Blue),
            2 => Some(PipeSegment::Red),
            _ => None,
        }
    }
}

/// Two tiles may be joined by a pipe when they have the same colour, or when
/// at least one of them has no colour at all.
pub open spec fn spec_compatible(a: Option<PipeSegment>, b: Option<PipeSegment>) -> bool {
    match (a, b) {
        (Some(x), Some(y)) => x == y,
        _ => true,
    }
}

/// Decides whether two tiles of the given colours may be joined.
pub fn compatible(a: Option<PipeSegment>, b: Option<PipeSegment>) -> (r: bool)
    ensures
        r == spec_compatible(a, b),
{
    match (a, b) {
        (Some(x), Some(y)) => x == y,
        _ => true,
    }
}

} // verus!
