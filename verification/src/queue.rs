//! Taking everything that waits at the end of a lane.

use vstd::prelude::*;

use crate::lane::Inbox;

verus! {

/// Takes everything that waits, in order: until the lane is found empty, or `most` values. A lane
/// holds a bounded number, so a pass of that many leaves nothing that waited when it began.
pub fn drain<T>(inbox: &mut Inbox<T>, most: usize) -> (r: Vec<T>)
    ensures
        final(inbox)@ == old(inbox)@ + r@,
        r@.len() <= most,
        final(inbox).empty() == (if r@.len() < most {
            old(inbox).empty() + 1
        } else {
            old(inbox).empty()
        }),
        final(inbox).limit() == old(inbox).limit(),
{
    let mut out: Vec<T> = Vec::new();
    let mut left: usize = most;
    assert(inbox@ =~= old(inbox)@ + out@);
    while left > 0
        invariant
            inbox@ == old(inbox)@ + out@,
            inbox.empty() == old(inbox).empty(),
            inbox.limit() == old(inbox).limit(),
            out@.len() + left == most,
        decreases left,
    {
        match inbox.take() {
            Some(value) => {
                out.push(value);
                assert(inbox@ =~= old(inbox)@ + out@);
            },
            None => {
                return out;
            },
        }
        left -= 1;
    }
    out
}

} // verus!
