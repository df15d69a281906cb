use vstd::prelude::*;

verus! {

/// A position in the source text, used only for diagnostics.
#[derive(Debug, Clone, Copy, PartialEq, Eq, Structural)]
pub struct Location {
    pub line: usize,
    pub column: usize,
}

pub open spec fn min_usize(a: usize, b: usize) -> usize {
    if a <= b { a } else { b }
}

/// The location that starts no later than either of the two, taken
/// line-wise and column-wise.
pub open spec fn combined(a: Location, b: Location) -> Location {
    Location { line: min_usize(a.line, b.line), column: min_usize(a.column, b.column) }
}

impl Location {
    pub fn new(line: usize, column: usize) -> (r: Location)
        ensures
            r.line == line,
            r.column == column,
    {
        Location { line, column }
    }

    /// The location that starts no later than either of the two, taken
    /// line-wise and column-wise.
    pub fn combine(&self, other: &Self) -> (r: Self)
        ensures
            r.line == min_usize(self.line, other.line),
            r.column == min_usize(self.column, other.column),
            r == combined(*self, *other),
    {
        Location {
            line: if self.line <= other.line { self.line } else { other.line },
            column: if self.column <= other.column { self.column } else { other.column },
        }
    }
}

} // verus!
