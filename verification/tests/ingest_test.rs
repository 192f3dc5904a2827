use fc::comm::{ChannelType, DataPoint, Measurement, NodeMapping, SensorType, Unit, ValveState, VehicleState};
use fc::ingest::{estimate_valve_state, process_sam_data};

fn pt_mapping(text_id: &str, board: &str, channel: u32, min: Option<i64>, max: Option<i64>) -> NodeMapping {
    NodeMapping {
        text_id: text_id.to_string(),
        board_id: board.to_string(),
        channel,
        channel_type: ChannelType::CurrentLoop,
        sensor_type: SensorType::Pt,
        min,
        max,
        calibrated_offset: 0,
        powered_threshold: None,
        normally_closed: None,
    }
}

fn valve_mapping(text_id: &str, board: &str, channel: u32, normally_closed: Option<bool>) -> NodeMapping {
    NodeMapping {
        text_id: text_id.to_string(),
        board_id: board.to_string(),
        channel,
        channel_type: ChannelType::ValveVoltage,
        sensor_type: SensorType::Valve,
        min: None,
        max: None,
        calibrated_offset: 0,
        powered_threshold: Some(500),
        normally_closed,
    }
}

// A 2.4 V current-loop reading on a pressure transducer spanning 0..1000 psi
// lands at exactly 500 psi (all values in thousandths).
#[test]
fn pt_unit_conversion() {
    let mut vs = VehicleState::new();
    let mappings = vec![pt_mapping("PT3", "sam-01", 2, Some(0), Some(1_000_000))];
    let points = vec![DataPoint { channel: 2, channel_type: ChannelType::CurrentLoop, value: 2_400 }];
    process_sam_data(&mut vs, &mappings, &"sam-01".to_string(), &points);
    let reading = vs.sensor_readings.get(&"PT3".to_string()).copied();
    assert_eq!(reading, Some(Measurement { value: 500_000, unit: Unit::Psi }));
}

// Without calibration bounds the raw voltage is stored.
#[test]
fn pt_without_bounds_stays_volts() {
    let mut vs = VehicleState::new();
    let mappings = vec![pt_mapping("PT9", "sam-01", 4, None, None)];
    let points = vec![DataPoint { channel: 4, channel_type: ChannelType::CurrentLoop, value: 2_400 }];
    process_sam_data(&mut vs, &mappings, &"sam-01".to_string(), &points);
    let reading = vs.sensor_readings.get(&"PT9".to_string()).copied();
    assert_eq!(reading, Some(Measurement { value: 2_400, unit: Unit::Volts }));
}

// A load cell spanning 0..90 pounds reads 45 pounds at the middle of its
// differential span (0.015 V -> 15 thousandths).
#[test]
fn load_cell_conversion() {
    let mut vs = VehicleState::new();
    let mut m = pt_mapping("LC1", "sam-01", 3, Some(0), Some(90_000));
    m.channel_type = ChannelType::DifferentialSignal;
    m.sensor_type = SensorType::LoadCell;
    let mappings = vec![m];
    let points = vec![DataPoint { channel: 3, channel_type: ChannelType::DifferentialSignal, value: 0 }];
    process_sam_data(&mut vs, &mappings, &"sam-01".to_string(), &points);
    let reading = vs.sensor_readings.get(&"LC1".to_string()).copied();
    assert_eq!(reading, Some(Measurement { value: 45_000, unit: Unit::Pounds }));
}

// The estimator's truth table: no threshold is a fault; unpowered splits on
// 4 V, powered on 20 V; normally-open valves swap open and closed.
#[test]
fn valve_estimator_truth_table() {
    assert_eq!(estimate_valve_state(24_000, 0, None, Some(true)), ValveState::Fault);
    assert_eq!(estimate_valve_state(2_000, 0, Some(500), Some(true)), ValveState::Closed);
    assert_eq!(estimate_valve_state(24_000, 0, Some(500), Some(true)), ValveState::Disconnected);
    assert_eq!(estimate_valve_state(10_000, 800, Some(500), Some(true)), ValveState::Fault);
    assert_eq!(estimate_valve_state(24_000, 800, Some(500), Some(true)), ValveState::Open);
    assert_eq!(estimate_valve_state(24_000, 800, Some(500), Some(false)), ValveState::Closed);
    assert_eq!(estimate_valve_state(2_000, 0, Some(500), Some(false)), ValveState::Open);
    assert_eq!(estimate_valve_state(24_000, 0, Some(500), Some(false)), ValveState::Disconnected);
}

// A normally-closed valve resting below the 4 V threshold reads closed, and
// open once powered at full voltage; a normally-open one reads the reverse.
#[test]
fn valve_estimator_transitions() {
    for (normally_closed, first, second) in [
        (Some(true), ValveState::Closed, ValveState::Open),
        (Some(false), ValveState::Open, ValveState::Closed),
    ] {
        let mut vs = VehicleState::new();
        let mappings = vec![valve_mapping("valve1", "sam-01", 5, normally_closed)];
        let volts_low = DataPoint { channel: 5, channel_type: ChannelType::ValveVoltage, value: 2_000 };
        let amps_low = DataPoint { channel: 5, channel_type: ChannelType::ValveCurrent, value: 0 };
        let volts_high = DataPoint { channel: 5, channel_type: ChannelType::ValveVoltage, value: 24_000 };
        let amps_high = DataPoint { channel: 5, channel_type: ChannelType::ValveCurrent, value: 800 };
        process_sam_data(&mut vs, &mappings, &"sam-01".to_string(), &vec![volts_low, amps_low]);
        assert_eq!(vs.valve_states.get(&"valve1".to_string()).unwrap().actual, first);
        process_sam_data(&mut vs, &mappings, &"sam-01".to_string(), &vec![volts_high, amps_high]);
        assert_eq!(vs.valve_states.get(&"valve1".to_string()).unwrap().actual, second);
        assert_eq!(vs.valve_states.get(&"valve1".to_string()).unwrap().commanded, ValveState::Undetermined);
    }
}

// The valve split stores its facets under the `_V` and `_I` suffixes.
#[test]
fn valve_split_keys() {
    let mut vs = VehicleState::new();
    let mappings = vec![valve_mapping("valve2", "sam-01", 6, Some(true))];
    let volts = DataPoint { channel: 6, channel_type: ChannelType::ValveVoltage, value: 24_000 };
    process_sam_data(&mut vs, &mappings, &"sam-01".to_string(), &vec![volts]);
    let v = vs.sensor_readings.get(&"valve2_V".to_string()).copied();
    assert_eq!(v, Some(Measurement { value: 24_000, unit: Unit::Volts }));
    assert!(vs.sensor_readings.get(&"valve2".to_string()).is_none());
}

// A data point from another board, or another channel, is dropped.
#[test]
fn unmatched_data_point_is_dropped() {
    let mut vs = VehicleState::new();
    let mappings = vec![pt_mapping("PT3", "sam-01", 2, Some(0), Some(1_000_000))];
    let wrong_board = DataPoint { channel: 2, channel_type: ChannelType::CurrentLoop, value: 2_400 };
    process_sam_data(&mut vs, &mappings, &"sam-02".to_string(), &vec![wrong_board]);
    let wrong_channel = DataPoint { channel: 3, channel_type: ChannelType::CurrentLoop, value: 2_400 };
    process_sam_data(&mut vs, &mappings, &"sam-01".to_string(), &vec![wrong_channel]);
    assert!(vs.sensor_readings.get(&"PT3".to_string()).is_none());
}

// While a steady stream targets PT1, replacing the mapping list so the same
// channel is named PT1x stops writes to PT1 and starts them on PT1x.
#[test]
fn mapping_swap_under_load() {
    let mut vs = VehicleState::new();
    let before = vec![pt_mapping("PT1", "sam-01", 1, Some(0), Some(1_000_000))];
    let after = vec![pt_mapping("PT1x", "sam-01", 1, Some(0), Some(1_000_000))];
    let low = DataPoint { channel: 1, channel_type: ChannelType::CurrentLoop, value: 2_400 };
    let high = DataPoint { channel: 1, channel_type: ChannelType::CurrentLoop, value: 4_000 };

    process_sam_data(&mut vs, &before, &"sam-01".to_string(), &vec![low]);
    assert_eq!(vs.sensor_readings.get(&"PT1".to_string()).unwrap().value, 500_000);

    process_sam_data(&mut vs, &after, &"sam-01".to_string(), &vec![high]);
    assert_eq!(vs.sensor_readings.get(&"PT1".to_string()).unwrap().value, 500_000);
    assert_eq!(vs.sensor_readings.get(&"PT1x".to_string()).unwrap().value, 1_000_000);
}
