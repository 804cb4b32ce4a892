//! Clips that several threads hold.
//!
//! Whether anybody else holds a clip rests with the other threads. Each answer is kept, so that
//! what is done about it can be held to it.

use std::sync::Arc;

use vstd::prelude::*;

verus! {

/// Every answer to whether nobody else holds a value. It is there for what is stated of it, and
/// holds nothing when the program runs.
pub struct Readers {
    answers: Ghost<Seq<bool>>,
}

impl View for Readers {
    type V = Seq<bool>;

    /// The answers so far, in order: whether nobody else did.
    closed spec fn view(&self) -> Seq<bool> {
        self.answers@
    }
}

impl Readers {
    /// Nothing asked yet.
    pub(crate) fn new() -> (r: Self)
        ensures
            r@ == Seq::<bool>::empty(),
    {
        Readers { answers: Ghost(Seq::empty()) }
    }
}

/// Calls `std::sync::Arc::get_mut`, which lends out the value where nobody else holds a
/// reference to it. Whether anybody does depends on the other threads; the answer is the next
/// of the readers' answers.
#[verifier::external_body]
pub(crate) fn sole<'a, T>(readers: &mut Readers, shared: &'a mut Arc<T>) -> (r: Option<&'a mut T>)
    ensures
        final(readers)@ == old(readers)@.push(r is Some),
        match r {
            Some(inner) => *inner == **old(shared) && **final(shared) == *final(inner),
            None => *final(shared) == *old(shared),
        },
{
    Arc::get_mut(shared)
}

/// Calls `std::sync::Arc::clone`, which makes another reference to the same value.
#[verifier::external_body]
pub(crate) fn share<T>(shared: &Arc<T>) -> (r: Arc<T>)
    ensures
        r == *shared,
{
    Arc::clone(shared)
}

} // verus!
