//! A small self-contained program state machine driven by a shared counter.
//!
//! The transition relation is fixed: from `StateA` the machine branches on
//! whether the counter is positive, `StateB` and `StateC` both lead to
//! `StateD` under their own thresholds, and `StateD` returns to `StateA` once
//! the counter exceeds one hundred.
use vstd::prelude::*;

verus! {

#[derive(PartialEq, Eq, Structural, Debug, Clone, Copy)]
pub struct StateA {}

#[derive(PartialEq, Eq, Structural, Debug, Clone, Copy)]
pub struct StateB {}

#[derive(PartialEq, Eq, Structural, Debug, Clone, Copy)]
pub struct StateC {}

#[derive(PartialEq, Eq, Structural, Debug, Clone, Copy)]
pub struct StateD {}

#[derive(PartialEq, Eq, Structural, Debug, Clone, Copy)]
pub enum State {
    StateA(StateA),
    StateB(StateB),
    StateC(StateC),
    StateD(StateD),
    UnknownState,
}

#[derive(PartialEq, Eq, Structural, Debug, Clone, Copy)]
pub struct FlightComputer {
    pub shared_data: i32,
    pub state: State,
}

/// The transition relation of the machine, as a function of the current
/// state and the shared counter.
pub open spec fn spec_next(state: State, shared_data: i32) -> State {
    match state {
        State::StateA(_) => if shared_data > 0 {
            State::StateB(StateB {})
        } else {
            State::StateC(StateC {})
        },
        State::StateB(_) => if shared_data > 10 {
            State::StateD(StateD {})
        } else {
            State::StateB(StateB {})
        },
        State::StateC(_) => if shared_data <= 10 {
            State::StateD(StateD {})
        } else {
            State::StateA(StateA {})
        },
        State::StateD(_) => if shared_data > 100 {
            State::StateA(StateA {})
        } else {
            State::StateD(StateD {})
        },
        State::UnknownState => State::UnknownState,
    }
}

impl FlightComputer {
    pub fn new(shared_data: i32) -> (r: FlightComputer)
        ensures
            r.shared_data == shared_data,
            r.state == State::StateA(StateA {}),
    {
        FlightComputer { shared_data, state: State::StateA(StateA {}) }
    }

    /// Perform one transition, leaving the shared counter unchanged.
    pub fn next_state(self) -> (r: FlightComputer)
        ensures
            r.shared_data == self.shared_data,
            r.state == spec_next(self.state, self.shared_data),
    {
        let next_state = match self.state {
            State::StateA(_) => {
                if self.shared_data > 0 {
                    State::StateB(StateB {})
                } else {
                    State::StateC(StateC {})
                }
            },
            State::StateB(_) => {
                if self.shared_data > 10 {
                    State::StateD(StateD {})
                } else {
                    State::StateB(StateB {})
                }
            },
            State::StateC(_) => {
                if self.shared_data <= 10 {
                    State::StateD(StateD {})
                } else {
                    State::StateA(StateA {})
                }
            },
            State::StateD(_) => {
                if self.shared_data > 100 {
                    State::StateA(StateA {})
                } else {
                    State::StateD(StateD {})
                }
            },
            State::UnknownState => State::UnknownState,
        };
        FlightComputer { shared_data: self.shared_data, state: next_state }
    }

    /// Increment the shared counter, leaving the state unchanged.
    pub fn update_data(self) -> (r: FlightComputer)
        requires
            self.shared_data < i32::MAX,
        ensures
            r.shared_data == self.shared_data + 1,
            r.state == self.state,
    {
        FlightComputer { shared_data: self.shared_data + 1, state: self.state }
    }
}

} // verus!
