use fc::codec::{decode_data_message, decode_data_point, decode_sam_control, decode_string, decode_varint, encode_data_message, encode_data_point, encode_sam_control, encode_string, encode_varint, unzigzag, zigzag};
use fc::comm::{ChannelType, CompositeValveState, DataMessage, DataPoint, FlightControlMessage, Measurement, NodeMapping, SamControlMessage, SensorType, Sequence, Trigger, Unit, ValveState};

#[test]
fn varint_round_trip() {
    for x in [0u64, 1, 127, 128, 150, 300, 16_383, 16_384, u32::MAX as u64, u64::MAX] {
        let mut out = Vec::new();
        encode_varint(&mut out, x);
        let (v, end) = decode_varint(&out, 0).expect("an encoded varint must decode");
        assert_eq!(v, x);
        assert_eq!(end, out.len());
    }
}

#[test]
fn varint_wire_bytes() {
    let mut out = Vec::new();
    encode_varint(&mut out, 150);
    assert_eq!(out, vec![0x96, 0x01]);
    let mut out = Vec::new();
    encode_varint(&mut out, 5);
    assert_eq!(out, vec![0x05]);
}

#[test]
fn varint_rejects_junk() {
    // A lone continuation byte is truncated.
    assert!(decode_varint(&vec![0x80], 0).is_none());
    // An overlong zero continuation is not canonical.
    assert!(decode_varint(&vec![0x80, 0x00], 0).is_none());
}

#[test]
fn zigzag_round_trip() {
    for x in [0i64, 1, -1, 2, -2, 1_000, -1_000, i64::MAX, i64::MIN] {
        assert_eq!(unzigzag(zigzag(x)), x);
    }
    assert_eq!(zigzag(-1), 1);
    assert_eq!(zigzag(1), 2);
}

#[test]
fn string_round_trip() {
    let mut out = Vec::new();
    encode_string(&mut out, &"sam-01".to_string());
    assert_eq!(out[0], 6);
    let (s, end) = decode_string(&out, 0).expect("an encoded string must decode");
    assert_eq!(s, "sam-01");
    assert_eq!(end, out.len());
}

#[test]
fn data_point_round_trip() {
    let dp = DataPoint { channel: 2, channel_type: ChannelType::CurrentLoop, value: -2_400 };
    let mut out = Vec::new();
    encode_data_point(&mut out, &dp);
    let (decoded, end) = decode_data_point(&out, 0).expect("an encoded data point must decode");
    assert_eq!(decoded, dp);
    assert_eq!(end, out.len());
}

#[test]
fn data_message_round_trip() {
    let messages = vec![
        DataMessage::Identity("sam-01".to_string()),
        DataMessage::Sam(
            "sam-01".to_string(),
            vec![
                DataPoint { channel: 2, channel_type: ChannelType::CurrentLoop, value: 2_400 },
                DataPoint { channel: 5, channel_type: ChannelType::ValveCurrent, value: 800 },
            ],
        ),
        DataMessage::Bms("bms-01".to_string()),
        DataMessage::FlightHeartbeat,
    ];
    for msg in messages {
        let out = encode_data_message(&msg);
        let (decoded, end) = decode_data_message(&out, 0).expect("an encoded datagram must decode");
        assert_eq!(end, out.len());
        match (msg, decoded) {
            (DataMessage::Identity(a), DataMessage::Identity(b)) => assert_eq!(a, b),
            (DataMessage::Sam(a, pa), DataMessage::Sam(b, pb)) => {
                assert_eq!(a, b);
                assert_eq!(pa, pb);
            },
            (DataMessage::Bms(a), DataMessage::Bms(b)) => assert_eq!(a, b),
            (DataMessage::FlightHeartbeat, DataMessage::FlightHeartbeat) => {},
            _ => panic!("decoded datagram differs from the encoded one"),
        }
    }
}

// Corrupted frames are rejected, never misread.
#[test]
fn corrupt_frames_are_discarded() {
    assert!(decode_data_message(&vec![], 0).is_none());
    // An unknown variant tag.
    assert!(decode_data_message(&vec![9], 0).is_none());
    // A Sam frame whose point count overruns the buffer.
    let mut out = Vec::new();
    encode_varint(&mut out, 1);
    encode_string(&mut out, &"sam-01".to_string());
    encode_varint(&mut out, 3);
    assert!(decode_data_message(&out, 0).is_none());
    // A string length overrunning the buffer.
    assert!(decode_string(&vec![200], 0).is_none());
    assert!(decode_string(&vec![5, b'a'], 0).is_none());
    // Invalid UTF-8 inside a string.
    assert!(decode_string(&vec![1, 0xFF], 0).is_none());
}

#[test]
fn sam_control_round_trip() {
    for msg in [
        SamControlMessage::ActuateValve { channel: 7, powered: true },
        SamControlMessage::ActuateValve { channel: 0, powered: false },
    ] {
        let out = encode_sam_control(&msg);
        assert!(out.len() <= 1024);
        let (decoded, end) = decode_sam_control(&out, 0).expect("an encoded command must decode");
        assert_eq!(decoded, msg);
        assert_eq!(end, out.len());
    }
    // A bad powered byte is rejected.
    assert!(decode_sam_control(&vec![0, 7, 2], 0).is_none());
}

#[test]
fn flight_control_round_trip() {
    let messages = vec![
        FlightControlMessage::Mappings(vec![NodeMapping {
            text_id: "PT3".to_string(),
            board_id: "sam-01".to_string(),
            channel: 2,
            channel_type: ChannelType::CurrentLoop,
            sensor_type: SensorType::Pt,
            min: Some(0),
            max: Some(1_000_000),
            calibrated_offset: -250,
            powered_threshold: None,
            normally_closed: Some(true),
        }]),
        FlightControlMessage::Sequence(Sequence {
            name: "seq1".to_string(),
            script: "open valve1; wait_for 100; close valve1".to_string(),
        }),
        FlightControlMessage::Trigger(Trigger {
            name: "t1".to_string(),
            condition: "pt1 > 100".to_string(),
            script: "close valve1".to_string(),
            active: true,
        }),
    ];
    for msg in messages {
        let out = fc::codec::encode_flight_control(&msg);
        let (decoded, end) =
            fc::codec::decode_flight_control(&out, 0).expect("an encoded message must decode");
        assert_eq!(end, out.len());
        match (msg, decoded) {
            (FlightControlMessage::Mappings(a), FlightControlMessage::Mappings(b)) => {
                assert_eq!(a.len(), b.len());
                assert_eq!(a[0].text_id, b[0].text_id);
                assert_eq!(a[0].board_id, b[0].board_id);
                assert_eq!(a[0].channel, b[0].channel);
                assert_eq!(a[0].min, b[0].min);
                assert_eq!(a[0].max, b[0].max);
                assert_eq!(a[0].calibrated_offset, b[0].calibrated_offset);
                assert_eq!(a[0].powered_threshold, b[0].powered_threshold);
                assert_eq!(a[0].normally_closed, b[0].normally_closed);
            },
            (FlightControlMessage::Sequence(a), FlightControlMessage::Sequence(b)) => {
                assert_eq!(a.name, b.name);
                assert_eq!(a.script, b.script);
            },
            (FlightControlMessage::Trigger(a), FlightControlMessage::Trigger(b)) => {
                assert_eq!(a.name, b.name);
                assert_eq!(a.condition, b.condition);
                assert_eq!(a.script, b.script);
                assert_eq!(a.active, b.active);
            },
            _ => panic!("decoded message differs from the encoded one"),
        }
    }
    // A truncated mapping list is rejected.
    let msg = FlightControlMessage::Mappings(Vec::new());
    let mut out = fc::codec::encode_flight_control(&msg);
    out[1] = 2;
    assert!(fc::codec::decode_flight_control(&out, 0).is_none());
}

#[test]
fn telemetry_round_trip() {
    let sensors = vec![
        ("PT3".to_string(), Measurement { value: 500_000, unit: Unit::Psi }),
        ("valve1_V".to_string(), Measurement { value: 24_000, unit: Unit::Volts }),
    ];
    let valves = vec![(
        "valve1".to_string(),
        CompositeValveState { commanded: ValveState::Open, actual: ValveState::Open },
    )];
    let out = fc::codec::encode_telemetry(&sensors, &valves);
    let ((rs, rv), end) =
        fc::codec::decode_telemetry(&out, 0).expect("an encoded snapshot must decode");
    assert_eq!(end, out.len());
    assert_eq!(rs.len(), 2);
    assert_eq!(rs[0].0, "PT3");
    assert_eq!(rs[0].1, Measurement { value: 500_000, unit: Unit::Psi });
    assert_eq!(rs[1].0, "valve1_V");
    assert_eq!(rv.len(), 1);
    assert_eq!(rv[0].0, "valve1");
    assert_eq!(rv[0].1.commanded, ValveState::Open);
}
