//! The interpreter's frame stack: an inline small vector of
//! `(function index, slot index)` pairs, kept behind contracts over its
//! mathematical contents.

use vstd::prelude::*;

verus! {

/// The stack used by the executor: frames stored inline up to 64 deep.
/// The small vector inside is opaque to the verifier; everything proved
/// about a stack goes through `stack_model` and the contracts below.
#[verifier::external_body]
pub struct FrameStack {
    frames: smallvec::SmallVec<[(usize, usize); 64]>,
}

/// The frames a stack holds, bottom first.
pub uninterp spec fn stack_model(s: FrameStack) -> Seq<(usize, usize)>;

/// Relies on smallvec::SmallVec::new: the new vector is empty.
#[verifier::external_body]
pub(crate) fn stack_new() -> (s: FrameStack)
    ensures
        stack_model(s) == Seq::<(usize, usize)>::empty(),
{
    FrameStack { frames: smallvec::SmallVec::new() }
}

/// Relies on smallvec::SmallVec::push: appends one element at the back.
#[verifier::external_body]
pub(crate) fn stack_push(s: &mut FrameStack, v: (usize, usize))
    requires
        stack_model(*old(s)).len() < usize::MAX,
    ensures
        stack_model(*final(s)) == stack_model(*old(s)).push(v),
{
    s.frames.push(v)
}

/// Relies on smallvec::SmallVec::pop: removes and returns the last element,
/// or returns `None` when the vector is empty.
#[verifier::external_body]
pub(crate) fn stack_pop(s: &mut FrameStack) -> (r: Option<(usize, usize)>)
    ensures
        stack_model(*old(s)).len() == 0 ==> r is None && stack_model(*final(s)) == stack_model(
            *old(s),
        ),
        stack_model(*old(s)).len() > 0 ==> r == Some(stack_model(*old(s)).last()) && stack_model(
            *final(s),
        ) == stack_model(*old(s)).drop_last(),
{
    s.frames.pop()
}

/// Relies on smallvec::SmallVec::len: the number of elements stored.
#[verifier::external_body]
pub(crate) fn stack_len(s: &FrameStack) -> (n: usize)
    ensures
        n == stack_model(*s).len(),
{
    s.frames.len()
}

/// Relies on smallvec's `Deref` to a slice for indexed access.
#[verifier::external_body]
pub(crate) fn stack_get(s: &FrameStack, i: usize) -> (r: (usize, usize))
    requires
        i < stack_model(*s).len(),
    ensures
        r == stack_model(*s)[i as int],
{
    s.frames[i]
}

} // verus!
