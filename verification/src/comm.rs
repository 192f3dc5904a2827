//! Data model of the flight computer: channel and sensor kinds, measurements,
//! node mappings, vehicle state, and the message envelopes exchanged with the
//! boards and the control server.
//!
//! Measurement values are fixed-point integers holding thousandths of the
//! stated unit (a `value` of `24_000` with unit `Volts` is 24 V).
use crate::kv::StringMap;
use vstd::prelude::*;

verus! {

/// Kind of physical channel a board samples or drives.
#[derive(Clone, Copy, Debug, PartialEq, Eq, Structural)]
pub enum ChannelType {
    CurrentLoop,
    DifferentialSignal,
    ValveVoltage,
    ValveCurrent,
    Rtd,
    Tc,
    RailVoltage,
    RailCurrent,
}

/// Kind of sensor or actuator a mapping describes.
#[derive(Clone, Copy, Debug, PartialEq, Eq, Structural)]
pub enum SensorType {
    Pt,
    LoadCell,
    Rtd,
    Tc,
    RailVoltage,
    RailCurrent,
    Valve,
}

/// Unit of a measurement.
#[derive(Clone, Copy, Debug, PartialEq, Eq, Structural)]
pub enum Unit {
    Volts,
    Amps,
    Kelvin,
    Psi,
    Pounds,
    Unitless,
}

/// Logical state of a valve.
#[derive(Clone, Copy, Debug, PartialEq, Eq, Structural)]
pub enum ValveState {
    Open,
    Closed,
    Disconnected,
    Fault,
    Undetermined,
}

/// Operator intent and estimator reading for one valve.
#[derive(Clone, Copy, Debug, PartialEq, Eq, Structural)]
pub struct CompositeValveState {
    pub commanded: ValveState,
    pub actual: ValveState,
}

/// A sensor reading: a fixed-point value in thousandths of `unit`.
#[derive(Clone, Copy, Debug, PartialEq, Eq, Structural)]
pub struct Measurement {
    pub value: i64,
    pub unit: Unit,
}

/// One raw sample from a board, in thousandths of the channel's native unit.
#[derive(Clone, Copy, Debug, PartialEq, Eq, Structural)]
pub struct DataPoint {
    pub channel: u32,
    pub channel_type: ChannelType,
    pub value: i64,
}

/// Operator-defined binding of a logical name to a physical board channel,
/// with its calibration.  `min`, `max` and `calibrated_offset` are in
/// thousandths of the target unit; `powered_threshold` is in milliamps.
#[derive(Clone, Debug)]
pub struct NodeMapping {
    pub text_id: String,
    pub board_id: String,
    pub channel: u32,
    pub channel_type: ChannelType,
    pub sensor_type: SensorType,
    pub min: Option<i64>,
    pub max: Option<i64>,
    pub calibrated_offset: i64,
    pub powered_threshold: Option<i64>,
    pub normally_closed: Option<bool>,
}

/// Whether a sensor type consumes samples of the given channel type.
pub open spec fn accepts(sensor: SensorType, channel: ChannelType) -> bool {
    match sensor {
        SensorType::Pt => channel == ChannelType::CurrentLoop,
        SensorType::LoadCell => channel == ChannelType::DifferentialSignal,
        SensorType::Rtd => channel == ChannelType::Rtd,
        SensorType::Tc => channel == ChannelType::Tc,
        SensorType::RailVoltage => channel == ChannelType::RailVoltage,
        SensorType::RailCurrent => channel == ChannelType::RailCurrent,
        SensorType::Valve => channel == ChannelType::ValveVoltage
            || channel == ChannelType::ValveCurrent,
    }
}

impl SensorType {
    /// The channel types this sensor type consumes.
    pub fn channel_types(&self) -> (r: Vec<ChannelType>)
        ensures
            forall|c: ChannelType| accepts(*self, c) <==> r@.contains(c),
    {
        let mut r: Vec<ChannelType> = Vec::new();
        match self {
            SensorType::Pt => r.push(ChannelType::CurrentLoop),
            SensorType::LoadCell => r.push(ChannelType::DifferentialSignal),
            SensorType::Rtd => r.push(ChannelType::Rtd),
            SensorType::Tc => r.push(ChannelType::Tc),
            SensorType::RailVoltage => r.push(ChannelType::RailVoltage),
            SensorType::RailCurrent => r.push(ChannelType::RailCurrent),
            SensorType::Valve => {
                r.push(ChannelType::ValveVoltage);
                r.push(ChannelType::ValveCurrent);
            },
        }
        proof {
            assert(forall|c: ChannelType| r@.contains(c) ==> accepts(*self, c));
            assert forall|c: ChannelType| accepts(*self, c) implies r@.contains(c) by {
                if accepts(*self, c) {
                    if r@.len() >= 1 && r@[0] == c {
                        assert(r@.contains(c));
                    } else if r@.len() >= 2 && r@[1] == c {
                        assert(r@.contains(c));
                    }
                }
            }
        }
        r
    }

    /// Whether this sensor type consumes the given channel type.
    pub fn accepts_channel(&self, channel: ChannelType) -> (r: bool)
        ensures
            r == accepts(*self, channel),
    {
        match self {
            SensorType::Pt => channel == ChannelType::CurrentLoop,
            SensorType::LoadCell => channel == ChannelType::DifferentialSignal,
            SensorType::Rtd => channel == ChannelType::Rtd,
            SensorType::Tc => channel == ChannelType::Tc,
            SensorType::RailVoltage => channel == ChannelType::RailVoltage,
            SensorType::RailCurrent => channel == ChannelType::RailCurrent,
            SensorType::Valve => channel == ChannelType::ValveVoltage
                || channel == ChannelType::ValveCurrent,
        }
    }
}

/// Envelope for datagrams a board sends to the FC, or the FC's heartbeat.
#[derive(Clone, Debug)]
pub enum DataMessage {
    Identity(String),
    Sam(String, Vec<DataPoint>),
    Bms(String),
    FlightHeartbeat,
}

/// Control message the FC sends to a board.
#[derive(Clone, Copy, Debug, PartialEq, Eq, Structural)]
pub enum SamControlMessage {
    ActuateValve { channel: u32, powered: bool },
}

/// An operator-supplied sequence script.
#[derive(Clone, Debug)]
pub struct Sequence {
    pub name: String,
    pub script: String,
}

/// An operator-supplied trigger: `script` runs when `condition` holds.
#[derive(Clone, Debug)]
pub struct Trigger {
    pub name: String,
    pub condition: String,
    pub script: String,
    pub active: bool,
}

/// Message the control server sends to the FC.
#[derive(Clone, Debug)]
pub enum FlightControlMessage {
    Mappings(Vec<NodeMapping>),
    Sequence(Sequence),
    Trigger(Trigger),
}

/// A board's datagram endpoint: an IPv4 address and port, as plain values.
#[derive(Clone, Copy, Debug, PartialEq, Eq, Structural)]
pub struct PeerAddress {
    pub ip: u32,
    pub port: u16,
}

/// The FC's authoritative view of the vehicle: latest sensor readings and
/// valve states, each keyed by the mapping's logical name.
pub struct VehicleState {
    pub sensor_readings: StringMap<Measurement>,
    pub valve_states: StringMap<CompositeValveState>,
}

impl VehicleState {
    pub open spec fn wf(&self) -> bool {
        self.sensor_readings.wf() && self.valve_states.wf()
    }

    /// Abstract contents of the sensor table.
    pub open spec fn sensors(&self) -> Map<Seq<char>, Measurement> {
        self.sensor_readings@
    }

    /// Abstract contents of the valve table.
    pub open spec fn valves(&self) -> Map<Seq<char>, CompositeValveState> {
        self.valve_states@
    }

    pub fn new() -> (r: VehicleState)
        ensures
            r.wf(),
            r.sensors() == Map::<Seq<char>, Measurement>::empty(),
            r.valves() == Map::<Seq<char>, CompositeValveState>::empty(),
    {
        VehicleState { sensor_readings: StringMap::new(), valve_states: StringMap::new() }
    }
}

} // verus!
