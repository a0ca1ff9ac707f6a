//! Stack frames and the persistent vector that holds the frames of a thread.
//!
//! The frames of a thread arrive in an `im::Vector`, which is shared rather
//! than copied when a projection hands it on. The vector is opaque to the
//! verifier: what it holds is named by [`frames_of`], and the few calls that
//! the projections make into it are stated over that name.

use vstd::prelude::*;

verus! {

/// `im::Vector`, a persistent vector. Its contents are not visible to the
/// verifier.
#[verifier::external_type_specification]
#[verifier::external_body]
#[verifier::reject_recursive_types(A)]
pub struct ExVector<A>(im::Vector<A>);

/// A frame of a call stack as the debug adapter reports it. Line and column
/// count from one.
#[derive(Clone, Debug, PartialEq, Eq)]
pub struct StackFrame {
    pub id: usize,
    pub name: String,
    /// The path of the source file, where the frame has one.
    pub path: Option<String>,
    pub line: usize,
    pub column: usize,
}

/// The frames that a vector holds, first to last.
pub uninterp spec fn frames_of(v: im::Vector<StackFrame>) -> Seq<StackFrame>;

/// Calls `im::Vector::new`. Trusted: the new vector holds nothing.
#[verifier::external_body]
pub(crate) fn no_frames() -> (v: im::Vector<StackFrame>)
    ensures
        frames_of(v) == Seq::<StackFrame>::empty(),
{
    im::Vector::new()
}

/// Calls `im::Vector::len`. Trusted: the result is the number of frames held.
#[verifier::external_body]
pub(crate) fn frame_count(v: &im::Vector<StackFrame>) -> (n: usize)
    ensures
        n == frames_of(*v).len(),
{
    v.len()
}

/// Calls `im::Vector::get`. Trusted: the result is the frame at `index`,
/// and `None` exactly where `index` is past the last frame.
#[verifier::external_body]
pub(crate) fn frame_at(v: &im::Vector<StackFrame>, index: usize) -> (f: Option<&StackFrame>)
    ensures
        f.is_some() == (index < frames_of(*v).len()),
        f matches Some(frame) ==> *frame == frames_of(*v)[index as int],
{
    v.get(index)
}

/// Calls `clone` on an `im::Vector`. Trusted: the clone holds the same
/// frames in the same order.
#[verifier::external_body]
pub(crate) fn share_frames(v: &im::Vector<StackFrame>) -> (r: im::Vector<StackFrame>)
    ensures
        frames_of(r) == frames_of(*v),
{
    v.clone()
}

} // verus!
