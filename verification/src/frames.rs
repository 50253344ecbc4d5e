//! The frames that may be in flight at once: a fixed number of slots that
//! are handed out in turn, round and round.

use vstd::prelude::*;

verus! {

/// Which of a fixed number of frame slots comes next. What belongs to a
/// slot (its events and its fence) is kept by the caller, under the slot's
/// index.
#[derive(Debug)]
pub struct VulkanInFlightFrames {
    frame_count: usize,
    current_frame: usize,
}

impl VulkanInFlightFrames {
    /// The current slot is one of the slots.
    #[verifier::type_invariant]
    spec fn in_range(self) -> bool {
        self.current_frame < self.frame_count
    }

    /// The number of slots.
    pub closed spec fn frames(&self) -> nat {
        self.frame_count as nat
    }

    /// The index of the slot that `next` hands out.
    pub closed spec fn current(&self) -> nat {
        self.current_frame as nat
    }

    /// A ring of `frame_count` slots that starts at slot 0.
    pub fn new(frame_count: usize) -> (ring: Self)
        requires
            frame_count > 0,
        ensures
            ring.frames() == frame_count,
            ring.current() == 0,
    {
        VulkanInFlightFrames { frame_count, current_frame: 0 }
    }

    /// The number of slots.
    pub fn frame_count(&self) -> (count: usize)
        ensures
            count == self.frames(),
            count > 0,
            self.current() < count,
    {
        proof {
            use_type_invariant(self);
        }
        self.frame_count
    }

    /// Hands out the current slot and moves on to the one behind it; behind
    /// the last slot comes slot 0 again.
    pub fn next(&mut self) -> (frame: usize)
        ensures
            frame == old(self).current(),
            frame < old(self).frames(),
            final(self).frames() == old(self).frames(),
            final(self).current() == (old(self).current() + 1) % old(self).frames(),
    {
        proof {
            use_type_invariant(&*self);
        }
        let frame: usize = self.current_frame;
        self.current_frame = (frame + 1) % self.frame_count;
        frame
    }
}

} // verus!
