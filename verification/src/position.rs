use vstd::prelude::*;

verus! {

/// A 1-based line/column pair tracking a location in a character stream.
#[derive(Clone, Copy, PartialEq, Eq, Structural, Debug)]
pub struct SourcePosition {
    pub line: u32,
    pub column: u32,
}

/// Lexicographic order on positions: line first, then column.
pub open spec fn pos_le(a: SourcePosition, b: SourcePosition) -> bool {
    a.line < b.line || (a.line == b.line && a.column <= b.column)
}

impl SourcePosition {
    /// The position of the first token of any input: line 1, column 1.
    pub open spec fn spec_start() -> SourcePosition {
        SourcePosition { line: 1, column: 1 }
    }

    /// Returns the position of the first token of any input.
    pub fn start() -> (p: SourcePosition)
        ensures
            p == SourcePosition::spec_start(),
    {
        SourcePosition { line: 1, column: 1 }
    }

    /// The position reached after consuming `c` at `self`: a newline moves
    /// to the start of the next line, any other character moves one column
    /// to the right. The counters saturate instead of wrapping, so
    /// advancement never panics and never moves backwards.
    pub open spec fn spec_update(self, c: char) -> SourcePosition {
        if c == '\n' && self.line < u32::MAX {
            SourcePosition { line: (self.line + 1) as u32, column: 1 }
        } else if self.column < u32::MAX {
            SourcePosition { line: self.line, column: (self.column + 1) as u32 }
        } else {
            self
        }
    }

    /// Advances this position past the character `c`.
    pub fn update(&mut self, c: &char)
        ensures
            *final(self) == old(self).spec_update(*c),
    {
        if *c == '\n' && self.line < u32::MAX {
            self.line = self.line + 1;
            self.column = 1;
        } else if self.column < u32::MAX {
            self.column = self.column + 1;
        }
    }
}

/// Consuming a character never moves the position backwards.
pub proof fn lemma_update_monotone(p: SourcePosition, c: char)
    ensures
        pos_le(p, p.spec_update(c)),
{
}

pub proof fn lemma_pos_le_trans(a: SourcePosition, b: SourcePosition, c: SourcePosition)
    requires
        pos_le(a, b),
        pos_le(b, c),
    ensures
        pos_le(a, c),
{
}

} // verus!
