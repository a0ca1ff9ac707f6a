//! Where a click on a row leads: a location in a file that the editor is
//! asked to show.

use vstd::prelude::*;

verus! {

/// A position inside a file, counted from zero.
#[derive(Clone, Copy, Debug, PartialEq, Eq, Structural)]
pub enum JumpPosition {
    /// A whole line.
    Line(usize),
    /// A line and a column on it.
    Position { line: usize, column: usize },
}

/// A request to show a place in a file.
#[derive(Clone, Debug, PartialEq, Eq)]
pub struct JumpTarget {
    pub path: String,
    pub position: JumpPosition,
}

/// The mathematical value of a [`JumpTarget`].
pub ghost struct JumpTargetView {
    pub path: Seq<char>,
    pub position: JumpPosition,
}

impl View for JumpTarget {
    type V = JumpTargetView;

    open spec fn view(&self) -> JumpTargetView {
        JumpTargetView { path: self.path@, position: self.position }
    }
}

/// The value of an optional target.
pub open spec fn target_view(target: Option<JumpTarget>) -> Option<JumpTargetView> {
    match target {
        Some(t) => Some(t@),
        None => None,
    }
}

/// A coordinate counted from one, as a debug adapter reports it, turned into
/// one counted from zero. Zero, which no adapter should report, stays zero.
pub open spec fn zero_based(n: usize) -> usize {
    if n == 0 {
        0
    } else {
        (n - 1) as usize
    }
}

/// A coordinate counted from zero turned into one counted from one, for
/// display. The largest value stays as it is.
pub open spec fn one_based(n: usize) -> usize {
    if n < usize::MAX {
        (n + 1) as usize
    } else {
        n
    }
}

/// Converts a one-based coordinate to a zero-based one, flooring at zero.
pub fn to_zero_based(n: usize) -> (r: usize)
    ensures
        r == zero_based(n),
        r <= n,
        n >= 1 ==> r + 1 == n,
        n == 0 ==> r == 0,
{
    if n == 0 {
        0
    } else {
        n - 1
    }
}

/// Converts a zero-based coordinate to a one-based one, saturating at the
/// largest value.
pub fn to_one_based(n: usize) -> (r: usize)
    ensures
        r == one_based(n),
        r >= n,
{
    if n < usize::MAX {
        n + 1
    } else {
        n
    }
}

/// Converts a one-based (line, column) pair to a zero-based one. Neither
/// coordinate underflows: a zero stays zero.
pub fn to_zero_based_pair(line: usize, column: usize) -> (r: (usize, usize))
    ensures
        r.0 == zero_based(line),
        r.1 == zero_based(column),
        r.0 <= line,
        r.1 <= column,
{
    (to_zero_based(line), to_zero_based(column))
}

/// Going to one-based and back gives the coordinate again, but for the
/// largest value.
pub proof fn lemma_zero_based_inverts_one_based(n: usize)
    requires
        n < usize::MAX,
    ensures
        zero_based(one_based(n)) == n,
{
}

} // verus!
