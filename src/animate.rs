use vstd::prelude::*;

use crate::character::{delta, delta_spec, frames_in, CharacterState, INPUT_COUNT, STATE_COUNT, state_of};

verus! {

/// The animation component of an entity: the current state key and the frame
/// counter within that state's clip sequence.
#[derive(Debug, Clone, Copy, PartialEq, Eq, Structural)]
pub struct Animate {
    pub state: u32,
    pub ticks: u32,
}

impl Animate {
    /// The state key is known and the frame counter is within its frame count.
    pub open spec fn wf(self) -> bool {
        &&& self.state < STATE_COUNT
        &&& self.ticks < frames_in(self.state)
    }

    /// The animation after an input: the transition is taken and the frame
    /// counter starts over.
    pub open spec fn after_input(self, input: u32) -> Animate {
        Animate { state: delta_spec(self.state, input), ticks: 0 }
    }

    /// A fresh animation in the given state, at its first frame.
    pub fn new(state: u32) -> (r: Self)
        requires
            state < STATE_COUNT,
        ensures
            r.wf(),
            r.state == state,
            r.ticks == 0,
    {
        Animate { state, ticks: 0 }
    }

    /// The current state.
    pub fn state(&self) -> (r: CharacterState)
        requires
            self.wf(),
        ensures
            r == state_of(self.state),
    {
        CharacterState::from_u32(self.state).unwrap()
    }

    /// Takes the transition for an input and restarts the frame counter.
    pub fn delta(&mut self, input: u32)
        requires
            old(self).wf(),
            input < INPUT_COUNT,
        ensures
            final(self).wf(),
            *final(self) == old(self).after_input(input),
    {
        self.state = delta(self.state, input);
        self.ticks = 0;
    }
}

} // verus!
