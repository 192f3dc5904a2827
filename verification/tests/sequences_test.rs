use fc::comm::{ChannelType, NodeMapping, SamControlMessage, SensorType, ValveState, VehicleState};
use fc::sequences::{Duration, Pressure, Sensor, SequencePool, Temperature, Valve, PT, wait_until_plan};

fn valve_mapping(text_id: &str, board: &str, channel: u32, normally_closed: Option<bool>) -> NodeMapping {
    NodeMapping {
        text_id: text_id.to_string(),
        board_id: board.to_string(),
        channel,
        channel_type: ChannelType::ValveVoltage,
        sensor_type: SensorType::Valve,
        min: None,
        max: None,
        calibrated_offset: 0,
        powered_threshold: Some(500),
        normally_closed,
    }
}

// Valve(name).open() produces exactly one command addressed to the
// mapping's board and records the commanded state before returning.
#[test]
fn valve_open_round_trip() {
    let mut vs = VehicleState::new();
    let mappings = vec![valve_mapping("valve1", "sam-01", 7, Some(true))];
    let valve = Valve::new("valve1".to_string());

    let sent = valve.open(&mappings, &mut vs);
    let (board, msg) = sent.expect("a mapped valve must yield a command");
    assert_eq!(board, "sam-01");
    assert_eq!(msg, SamControlMessage::ActuateValve { channel: 7, powered: true });
    assert_eq!(vs.valve_states.get(&"valve1".to_string()).unwrap().commanded, ValveState::Open);

    let sent = valve.close(&mappings, &mut vs);
    let (_, msg) = sent.expect("a mapped valve must yield a command");
    assert_eq!(msg, SamControlMessage::ActuateValve { channel: 7, powered: false });
    assert_eq!(vs.valve_states.get(&"valve1".to_string()).unwrap().commanded, ValveState::Closed);
}

// A normally-open valve powers its coil to close instead.
#[test]
fn valve_polarity_inverts_power() {
    let mut vs = VehicleState::new();
    let mappings = vec![valve_mapping("valve1", "sam-01", 7, Some(false))];
    let valve = Valve::new("valve1".to_string());
    let (_, msg) = valve.open(&mappings, &mut vs).unwrap();
    assert_eq!(msg, SamControlMessage::ActuateValve { channel: 7, powered: false });
    let (_, msg) = valve.close(&mappings, &mut vs).unwrap();
    assert_eq!(msg, SamControlMessage::ActuateValve { channel: 7, powered: true });
}

// A valve with no mapping is reported to the sequence as a no-op.
#[test]
fn unmapped_valve_is_noop() {
    let mut vs = VehicleState::new();
    let mappings: Vec<NodeMapping> = Vec::new();
    let valve = Valve::new("ghostvalve".to_string());
    assert!(valve.open(&mappings, &mut vs).is_none());
    assert!(vs.valve_states.get(&"ghostvalve".to_string()).is_none());
}

// A launched sequence then an abort: the first sequence is cancelled before
// its delayed actuation, and only the abort sequence stays active.
#[test]
fn sequence_cancellation() {
    let mut pool = SequencePool::new();
    pool.register("seq1".to_string(), 11);
    assert_eq!(pool.name_of_thread(11), Some("seq1".to_string()));

    let started = pool.request_abort(99);
    assert!(started);

    // seq1's thread is no longer listed: its next capability call (the
    // valve1.open() after wait_for) raises the abort signal instead of
    // sending any command.
    assert_eq!(pool.name_of_thread(11), None);
    assert!(!pool.is_active(&"seq1".to_string()));
    assert!(pool.is_active(&"abort".to_string()));
}

// At most one abort is enqueued while one is active; re-entry opens up only
// after the abort sequence completes.
#[test]
fn single_abort() {
    let mut pool = SequencePool::new();
    pool.register("seq1".to_string(), 11);
    assert!(pool.request_abort(99));
    assert!(!pool.request_abort(100));
    assert!(!pool.request_abort(101));

    pool.cancel(&"abort".to_string());
    assert!(pool.request_abort(102));
}

// Sensor reads fall back to zero when nothing has been ingested.
#[test]
fn sensor_read_defaults_to_zero() {
    let vs = VehicleState::new();
    let sensor = Sensor::new("pt1".to_string());
    assert_eq!(sensor.read(&vs), 0);
    let pt = PT { name: "pt1".to_string() };
    assert_eq!(pt.read(&vs), 0);
}

// The script units are fixed-point constructors.
#[test]
fn unit_constructors() {
    assert_eq!(Duration::new(1_000_000).micros, 1_000_000);
    assert_eq!(Pressure::new(1_000).millipsi, 1_000);
    assert_eq!(Temperature::new(1_000).millidegrees, 1_000);
}

// wait_until polls every ten milliseconds by default and derives its
// deadline from the wall clock.
#[test]
fn wait_until_plan_defaults() {
    assert_eq!(wait_until_plan(500, None, None), (10_000, None));
    assert_eq!(wait_until_plan(500, Some(Duration::new(2_000)), Some(Duration::new(30_000))), (2_000, Some(30_500)));
    assert_eq!(wait_until_plan(500, Some(Duration::new(-5)), Some(Duration::new(-5))), (0, Some(500)));
}
