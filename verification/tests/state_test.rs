use fc::comm::{FlightControlMessage, NodeMapping, Sequence, Trigger, ChannelType, SensorType};
use fc::forwarding::ForwardingAgent;
use fc::state::{abort_transition, fc_next, FCState, OperatorEvent, ProgramState, SharedState};

fn mapping(text_id: &str) -> NodeMapping {
    NodeMapping {
        text_id: text_id.to_string(),
        board_id: "sam-01".to_string(),
        channel: 1,
        channel_type: ChannelType::CurrentLoop,
        sensor_type: SensorType::Pt,
        min: None,
        max: None,
        calibrated_offset: 0,
        powered_threshold: None,
        normally_closed: None,
    }
}

fn trigger(name: &str, condition: &str) -> Trigger {
    Trigger {
        name: name.to_string(),
        condition: condition.to_string(),
        script: "valve1.close()".to_string(),
        active: true,
    }
}

// A Mappings message replaces the whole list at once.
#[test]
fn mappings_replaced_wholesale() {
    let mut shared = SharedState::new();
    let next = shared.wait_for_operator(OperatorEvent::Message(FlightControlMessage::Mappings(
        vec![mapping("PT1"), mapping("PT2")],
    )));
    assert!(matches!(next, ProgramState::WaitForOperator));
    assert_eq!(shared.mappings.len(), 2);

    let next = shared.wait_for_operator(OperatorEvent::Message(FlightControlMessage::Mappings(
        vec![mapping("PT3")],
    )));
    assert!(matches!(next, ProgramState::WaitForOperator));
    assert_eq!(shared.mappings.len(), 1);
    assert_eq!(shared.mappings[0].text_id, "PT3");
}

// Sending the same list twice leaves the state one send leaves.
#[test]
fn mappings_idempotent() {
    let mut shared = SharedState::new();
    shared.wait_for_operator(OperatorEvent::Message(FlightControlMessage::Mappings(vec![mapping("PT1")])));
    let once: Vec<String> = shared.mappings.iter().map(|m| m.text_id.clone()).collect();
    shared.wait_for_operator(OperatorEvent::Message(FlightControlMessage::Mappings(vec![mapping("PT1")])));
    let twice: Vec<String> = shared.mappings.iter().map(|m| m.text_id.clone()).collect();
    assert_eq!(once, twice);
}

// A trigger is upserted by name: same name replaces, new name appends.
#[test]
fn trigger_upsert_by_name() {
    let mut shared = SharedState::new();
    shared.wait_for_operator(OperatorEvent::Message(FlightControlMessage::Trigger(trigger("t1", "pt1 > 100"))));
    shared.wait_for_operator(OperatorEvent::Message(FlightControlMessage::Trigger(trigger("t2", "pt2 > 100"))));
    shared.wait_for_operator(OperatorEvent::Message(FlightControlMessage::Trigger(trigger("t1", "pt1 > 200"))));
    assert_eq!(shared.triggers.len(), 2);
    assert_eq!(shared.triggers[0].name, "t1");
    assert_eq!(shared.triggers[0].condition, "pt1 > 200");
    assert_eq!(shared.triggers[1].name, "t2");
}

// A Sequence message moves to RunSequence with the server link kept.
#[test]
fn sequence_message_runs_sequence() {
    let mut shared = SharedState::new();
    let next = shared.wait_for_operator(OperatorEvent::Message(FlightControlMessage::Sequence(
        Sequence { name: "seq1".to_string(), script: "valve1.open()".to_string() },
    )));
    match next {
        ProgramState::RunSequence { has_server, sequence } => {
            assert!(has_server);
            assert_eq!(sequence.name, "seq1");
        },
        _ => panic!("a sequence message must move to RunSequence"),
    }
}

// A hangup returns to discovery; an empty read stays put.
#[test]
fn disconnect_returns_to_discovery() {
    let mut shared = SharedState::new();
    let next = shared.wait_for_operator(OperatorEvent::Disconnected);
    assert!(matches!(next, ProgramState::ServerDiscovery));
    let next = shared.wait_for_operator(OperatorEvent::Nothing);
    assert!(matches!(next, ProgramState::WaitForOperator));
}

// Running a sequence with a server records it and returns to the operator;
// the abort path clears the pool and rediscovers the server.
#[test]
fn run_sequence_paths() {
    let mut shared = SharedState::new();
    let next = shared.run_sequence(true, "seq1".to_string(), 7);
    assert!(matches!(next, ProgramState::WaitForOperator));
    assert!(shared.sequences.is_active(&"seq1".to_string()));

    let next = shared.run_sequence(false, "abort".to_string(), 8);
    assert!(matches!(next, ProgramState::ServerDiscovery));
    assert!(!shared.sequences.is_active(&"seq1".to_string()));
}

// The abort transition carries the distinguished abort sequence and no
// server socket.
#[test]
fn abort_carries_abort_sequence() {
    match abort_transition() {
        ProgramState::RunSequence { has_server, sequence } => {
            assert!(!has_server);
            assert_eq!(sequence.name, "abort");
            assert_eq!(sequence.script, "abort()");
        },
        _ => panic!("abort must move to RunSequence"),
    }
}

// The run loop's transition table.
#[test]
fn fc_state_transitions() {
    assert_eq!(fc_next(FCState::Init, false, false), FCState::RunSequence);
    assert_eq!(fc_next(FCState::DeviceDiscovery, true, false), FCState::ConnectToServer);
    assert_eq!(fc_next(FCState::DeviceDiscovery, false, false), FCState::DeviceDiscovery);
    assert_eq!(fc_next(FCState::ConnectToServer, true, true), FCState::HandleCommands);
    assert_eq!(fc_next(FCState::ConnectToServer, true, false), FCState::DeviceDiscovery);
    assert_eq!(fc_next(FCState::HandleCommands, true, true), FCState::HandleCommands);
    assert_eq!(fc_next(FCState::RunSequence, false, false), FCState::DeviceDiscovery);
}

// Telemetry sends fall due one ten-millisecond period apart, and a missed
// or failed send never shifts the cadence: the agent never hears the
// send's outcome.
#[test]
fn forwarder_cadence() {
    let mut agent = ForwardingAgent::new();
    assert_eq!(agent.frequency, 10);
    assert!(!agent.tick(5));
    assert!(agent.tick(10));
    assert!(!agent.tick(15));
    assert!(agent.tick(20));
    assert!(!agent.tick(25));
    assert!(agent.tick(35));
}

// One evaluation round: an active trigger whose condition held yields its
// script under the trigger prefix, an erroring one is deactivated, and an
// inactive one is skipped.
#[test]
fn trigger_tick_round() {
    let mut triggers = vec![trigger("t1", "pt1 > 100"), trigger("t2", "pt2 > 100"), trigger("t3", "pt3 > 100")];
    triggers[2].active = false;
    let evaluations = vec![Some(true), None, Some(true)];
    let to_run = fc::state::trigger_tick(&mut triggers, &evaluations);
    assert_eq!(to_run.len(), 1);
    assert_eq!(to_run[0].name, "trigger_t1");
    assert_eq!(to_run[0].script, "valve1.close()");
    assert!(triggers[0].active);
    assert!(!triggers[1].active);
    assert!(!triggers[2].active);
}
