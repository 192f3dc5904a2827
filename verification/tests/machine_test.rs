use fc::machine::{FlightComputer, State, StateA, StateB, StateC, StateD};

// Given I am in state A
// When shared_data > 0
// Then go to state B
#[test]
fn given_state_a_when_shared_data_gt_0_then_state_b() {
    let shared_data = 1;
    let actual_flight_computer = FlightComputer {
        shared_data,
        state: State::StateA(StateA {}),
    };
    let expected_flight_computer = FlightComputer {
        shared_data,
        state: State::StateB(StateB {}),
    };

    let actual_flight_computer = actual_flight_computer.next_state();

    assert_eq!(actual_flight_computer, expected_flight_computer);
}

// Given I am in state A
// When shared_data <= 0
// Then go to state C
#[test]
fn given_state_a_when_shared_data_lte_0_then_state_c() {
    let shared_data: i32 = -1;
    let actual_flight_computer = FlightComputer {
        shared_data,
        state: State::StateA(StateA {}),
    };
    let expected_flight_computer = FlightComputer {
        shared_data,
        state: State::StateC(StateC {}),
    };

    let actual_flight_computer = actual_flight_computer.next_state();

    assert_eq!(actual_flight_computer, expected_flight_computer);
}

// Given I am in state B
// When shared_data > 10
// Then go to state D
#[test]
fn given_state_b_when_shared_data_gt_10_then_state_d() {
    let shared_data: i32 = 11;
    let actual_flight_computer = FlightComputer {
        shared_data,
        state: State::StateB(StateB {}),
    };
    let expected_flight_computer = FlightComputer {
        shared_data,
        state: State::StateD(StateD {}),
    };

    let actual_flight_computer = actual_flight_computer.next_state();

    assert_eq!(actual_flight_computer, expected_flight_computer);
}

// Given I am in state C
// When shared_data <= 10
// Then go to state D
#[test]
fn given_state_c_when_shared_data_lte_10_then_state_d() {
    let shared_data: i32 = 9;
    let actual_flight_computer = FlightComputer {
        shared_data,
        state: State::StateC(StateC {}),
    };
    let expected_flight_computer = FlightComputer {
        shared_data,
        state: State::StateD(StateD {}),
    };

    let actual_flight_computer = actual_flight_computer.next_state();

    assert_eq!(actual_flight_computer, expected_flight_computer);
}

// Given I am in state C
// When shared_data > 10
// Then go to state A
#[test]
fn given_state_c_when_shared_data_gt_10_then_state_a() {
    let shared_data: i32 = 11;
    let actual_flight_computer = FlightComputer {
        shared_data,
        state: State::StateC(StateC {}),
    };
    let expected_flight_computer = FlightComputer {
        shared_data,
        state: State::StateA(StateA {}),
    };

    let actual_flight_computer = actual_flight_computer.next_state();

    assert_eq!(actual_flight_computer, expected_flight_computer);
}

// Given I am in state D
// When shared_data > 100
// Then go to state A
#[test]
fn given_state_d_when_shared_data_gt_100_then_state_a() {
    let shared_data: i32 = 101;
    let actual_flight_computer = FlightComputer {
        shared_data,
        state: State::StateD(StateD {}),
    };
    let expected_flight_computer = FlightComputer {
        shared_data,
        state: State::StateA(StateA {}),
    };

    let actual_flight_computer = actual_flight_computer.next_state();

    assert_eq!(actual_flight_computer, expected_flight_computer);
}

#[test]
fn update_data_increments_counter() {
    let fc = FlightComputer::new(41);
    let fc = fc.update_data();
    assert_eq!(fc.shared_data, 42);
    assert_eq!(fc.state, State::StateA(StateA {}));
}
