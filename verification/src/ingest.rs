//! Sensor ingest: unit conversion of raw board samples and the valve-state
//! estimator, together with the routine that folds a `Sam` datagram's data
//! points into the vehicle state.
//!
//! All values are fixed-point integers in thousandths of their unit, so the
//! calibration formulas below are exact integer statements of the linear
//! transfer curves (with division truncated toward zero, and the final value
//! clamped into the `i64` range).
use crate::comm::accepts;
use crate::comm::ChannelType;
use crate::comm::CompositeValveState;
use crate::comm::DataPoint;
use crate::comm::Measurement;
use crate::comm::NodeMapping;
use crate::comm::SensorType;
use crate::comm::Unit;
use crate::comm::ValveState;
use crate::comm::VehicleState;
use vstd::arithmetic::div_mod::{
    lemma_div_is_ordered,
    lemma_div_multiples_vanish,
    lemma_div_nonincreasing,
    lemma_div_pos_is_pos,
};
use vstd::prelude::*;

verus! {

/// Division truncated toward zero, for a positive divisor: the semantics of
/// the machine's signed division.
pub open spec fn tdiv(x: int, d: int) -> int
    recommends
        d >= 1,
{
    if x >= 0 {
        x / d
    } else {
        -((-x) / d)
    }
}

/// Clamp a mathematical integer into the `i64` range.
pub open spec fn clamp_to_i64(x: int) -> i64 {
    if x > i64::MAX {
        i64::MAX
    } else if x < i64::MIN {
        i64::MIN
    } else {
        x as i64
    }
}

/// Pressure-transducer transfer curve, in thousandths: the 0.8 V to 4.0 V
/// loop span maps linearly onto `[min, max]`, less the calibrated offset.
pub open spec fn pt_formula(v: i64, min: i64, max: i64, offset: i64) -> int {
    tdiv((v - 800) * (max - min), 3200) + min - offset
}

/// Load-cell transfer curve, in thousandths: the 30 mV differential span
/// maps linearly onto `[min, max]`, less the calibrated offset.
pub open spec fn load_cell_formula(v: i64, min: i64, max: i64, offset: i64) -> int {
    tdiv((max - min) * (v + 15), 30) + min - offset
}

/// The valve-state estimator's truth table: a function of the latest
/// voltage and current readings, the powered threshold, and the electrical
/// polarity, and of nothing else.
pub open spec fn spec_estimate(
    voltage: i64,
    current: i64,
    powered_threshold: Option<i64>,
    normally_closed: Option<bool>,
) -> ValveState {
    let base = match powered_threshold {
        Option::Some(powered) => if current < powered {
            if voltage < 4000 {
                ValveState::Closed
            } else {
                ValveState::Disconnected
            }
        } else {
            if voltage < 20000 {
                ValveState::Fault
            } else {
                ValveState::Open
            }
        },
        Option::None => ValveState::Fault,
    };
    if normally_closed == Option::Some(false) {
        match base {
            ValveState::Open => ValveState::Closed,
            ValveState::Closed => ValveState::Open,
            other => other,
        }
    } else {
        base
    }
}

/// Estimates the state of a valve from its voltage and current readings and
/// the threshold at which its coil counts as powered.
pub fn estimate_valve_state(
    voltage: i64,
    current: i64,
    powered_threshold: Option<i64>,
    normally_closed: Option<bool>,
) -> (r: ValveState)
    ensures
        r == spec_estimate(voltage, current, powered_threshold, normally_closed),
{
    let estimated = match powered_threshold {
        Some(powered) => {
            if current < powered {
                if voltage < 4000 {
                    ValveState::Closed
                } else {
                    ValveState::Disconnected
                }
            } else {
                if voltage < 20000 {
                    ValveState::Fault
                } else {
                    ValveState::Open
                }
            }
        },
        None => ValveState::Fault,
    };
    if normally_closed == Some(false) {
        match estimated {
            ValveState::Open => ValveState::Closed,
            ValveState::Closed => ValveState::Open,
            other => other,
        }
    } else {
        estimated
    }
}

/// Machine division truncated toward zero, for a positive divisor.
fn tdiv_pos(num: i128, d: i128) -> (r: i128)
    requires
        1 <= d,
    ensures
        r as int == tdiv(num as int, d as int),
        num >= 0 ==> 0 <= r <= num,
        num < 0 ==> num <= r <= 0,
{
    proof {
        let x = num as int;
        let dd = d as int;
        if x >= 0 {
            lemma_div_pos_is_pos(x, dd);
            lemma_div_nonincreasing(x, dd);
        } else {
            lemma_div_pos_is_pos(-x, dd);
            lemma_div_nonincreasing(-x, dd);
        }
    }
    num.checked_div(d).unwrap()
}

/// The sum `q + min - offset`, clamped into `i64`.
fn clamp_sum(q: i128, min: i64, offset: i64) -> (r: i64)
    ensures
        r == clamp_to_i64(q + min - offset),
{
    let m: i128 = (min as i128) - (offset as i128);
    match q.checked_add(m) {
        Some(sum) => {
            if sum > (i64::MAX as i128) {
                i64::MAX
            } else if sum < (i64::MIN as i128) {
                i64::MIN
            } else {
                sum as i64
            }
        },
        None => {
            if q > 0 {
                i64::MAX
            } else {
                i64::MIN
            }
        },
    }
}

/// Proof that a quotient of magnitude at least `2^127 / d` lies far outside
/// the `i64` range once `min` and `offset` are added.
proof fn lemma_overflow_quotient(p: int, d: int, min: i64, offset: i64)
    requires
        2 <= d <= 3200,
        p > i128::MAX || p < i128::MIN,
    ensures
        p > i128::MAX ==> tdiv(p, d) + min - offset > i64::MAX,
        p < i128::MIN ==> tdiv(p, d) + min - offset < i64::MIN,
{
    let big = 0x10000000000000000000000000i128 as int;  // 2^100
    if p > i128::MAX {
        lemma_div_multiples_vanish(big, d);
        lemma_div_is_ordered(big * d, p, d);
        assert(big * d <= p) by (nonlinear_arith)
            requires 2 <= d <= 3200, p > i128::MAX, big == 0x10000000000000000000000000,
        ;
        assert(tdiv(p, d) >= big);
    } else {
        lemma_div_multiples_vanish(big, d);
        lemma_div_is_ordered(big * d, -p, d);
        assert(big * d <= -p) by (nonlinear_arith)
            requires 2 <= d <= 3200, p < i128::MIN, big == 0x10000000000000000000000000,
        ;
        assert((-p) / d >= big);
        assert(tdiv(p, d) <= -big);
    }
}

/// The pressure-transducer conversion, exact but for clamping.
pub fn pt_convert(v: i64, min: i64, max: i64, offset: i64) -> (r: i64)
    ensures
        r == clamp_to_i64(pt_formula(v, min, max, offset)),
{
    let a: i128 = (v as i128) - 800;
    let b: i128 = (max as i128) - (min as i128);
    match a.checked_mul(b) {
        Some(num) => {
            let q = tdiv_pos(num, 3200);
            clamp_sum(q, min, offset)
        },
        None => {
            proof {
                assert(((a > 0) == (b > 0)) ==> (a as int) * (b as int) >= 0)
                    by (nonlinear_arith);
                assert(!((a > 0) == (b > 0)) ==> (a as int) * (b as int) <= 0)
                    by (nonlinear_arith);
                lemma_overflow_quotient((a as int) * (b as int), 3200, min, offset);
            }
            if (a > 0) == (b > 0) {
                i64::MAX
            } else {
                i64::MIN
            }
        },
    }
}

/// The load-cell conversion, exact but for clamping.
pub fn load_cell_convert(v: i64, min: i64, max: i64, offset: i64) -> (r: i64)
    ensures
        r == clamp_to_i64(load_cell_formula(v, min, max, offset)),
{
    let a: i128 = (max as i128) - (min as i128);
    let b: i128 = (v as i128) + 15;
    match a.checked_mul(b) {
        Some(num) => {
            let q = tdiv_pos(num, 30);
            clamp_sum(q, min, offset)
        },
        None => {
            proof {
                assert(((a > 0) == (b > 0)) ==> (a as int) * (b as int) >= 0)
                    by (nonlinear_arith);
                assert(!((a > 0) == (b > 0)) ==> (a as int) * (b as int) <= 0)
                    by (nonlinear_arith);
                lemma_overflow_quotient((a as int) * (b as int), 30, min, offset);
            }
            if (a > 0) == (b > 0) {
                i64::MAX
            } else {
                i64::MIN
            }
        },
    }
}

/// Whether a mapping describes the physical signal a data point came from.
pub open spec fn corresponds(m: NodeMapping, board: Seq<char>, dp: DataPoint) -> bool {
    dp.channel == m.channel && accepts(m.sensor_type, dp.channel_type) && m.board_id@ == board
}

/// The measurement a matching mapping derives from a data point.
pub open spec fn spec_measurement(m: NodeMapping, dp: DataPoint) -> Measurement {
    match m.sensor_type {
        SensorType::RailVoltage => Measurement { value: dp.value, unit: Unit::Volts },
        SensorType::RailCurrent => Measurement { value: dp.value, unit: Unit::Amps },
        SensorType::Rtd => Measurement { value: dp.value, unit: Unit::Kelvin },
        SensorType::Tc => Measurement { value: dp.value, unit: Unit::Kelvin },
        SensorType::Pt => match (m.max, m.min) {
            (Option::Some(max), Option::Some(min)) => Measurement {
                value: clamp_to_i64(pt_formula(dp.value, min, max, m.calibrated_offset)),
                unit: Unit::Psi,
            },
            _ => Measurement { value: dp.value, unit: Unit::Volts },
        },
        SensorType::LoadCell => match (m.max, m.min) {
            (Option::Some(max), Option::Some(min)) => Measurement {
                value: clamp_to_i64(load_cell_formula(dp.value, min, max, m.calibrated_offset)),
                unit: Unit::Pounds,
            },
            _ => Measurement { value: dp.value, unit: Unit::Volts },
        },
        SensorType::Valve => if dp.channel_type == ChannelType::ValveVoltage {
            Measurement { value: dp.value, unit: Unit::Volts }
        } else {
            Measurement { value: dp.value, unit: Unit::Amps }
        },
    }
}

/// The sensor-table key a matching mapping writes: the mapping's own name,
/// except that a valve's two facets go under the `_V` and `_I` suffixes.
pub open spec fn spec_target_key(m: NodeMapping, dp: DataPoint) -> Seq<char> {
    if m.sensor_type == SensorType::Valve {
        if dp.channel_type == ChannelType::ValveVoltage {
            m.text_id@ + "_V"@
        } else {
            m.text_id@ + "_I"@
        }
    } else {
        m.text_id@
    }
}

/// The stored reading under a key, or zero when none is present.
pub open spec fn reading_or_zero(sensors: Map<Seq<char>, Measurement>, key: Seq<char>) -> i64 {
    if sensors.contains_key(key) {
        sensors[key].value
    } else {
        0
    }
}

/// One step of ingest: the effect of a single mapping on the two tables for
/// a single data point.  A mapping that does not correspond changes nothing;
/// a valve mapping also refreshes the valve's estimated state, creating the
/// entry with an undetermined commanded state on first sight.
pub open spec fn apply_mapping(
    sensors: Map<Seq<char>, Measurement>,
    valves: Map<Seq<char>, CompositeValveState>,
    m: NodeMapping,
    board: Seq<char>,
    dp: DataPoint,
) -> (Map<Seq<char>, Measurement>, Map<Seq<char>, CompositeValveState>) {
    if !corresponds(m, board, dp) {
        (sensors, valves)
    } else if m.sensor_type == SensorType::Valve {
        let voltage = if dp.channel_type == ChannelType::ValveVoltage {
            dp.value
        } else {
            reading_or_zero(sensors, m.text_id@ + "_V"@)
        };
        let current = if dp.channel_type == ChannelType::ValveVoltage {
            reading_or_zero(sensors, m.text_id@ + "_I"@)
        } else {
            dp.value
        };
        let actual = spec_estimate(voltage, current, m.powered_threshold, m.normally_closed);
        let commanded = if valves.contains_key(m.text_id@) {
            valves[m.text_id@].commanded
        } else {
            ValveState::Undetermined
        };
        (
            sensors.insert(spec_target_key(m, dp), spec_measurement(m, dp)),
            valves.insert(m.text_id@, CompositeValveState { commanded, actual }),
        )
    } else {
        (sensors.insert(m.text_id@, spec_measurement(m, dp)), valves)
    }
}

/// The effect of one data point under a whole mapping list, first to last.
pub open spec fn ingest_point(
    sensors: Map<Seq<char>, Measurement>,
    valves: Map<Seq<char>, CompositeValveState>,
    mappings: Seq<NodeMapping>,
    board: Seq<char>,
    dp: DataPoint,
) -> (Map<Seq<char>, Measurement>, Map<Seq<char>, CompositeValveState>)
    decreases mappings.len(),
{
    if mappings.len() == 0 {
        (sensors, valves)
    } else {
        let prev = ingest_point(sensors, valves, mappings.drop_last(), board, dp);
        apply_mapping(prev.0, prev.1, mappings.last(), board, dp)
    }
}

/// The effect of a whole `Sam` datagram, data points in arrival order, every
/// point judged against the same mapping list.
pub open spec fn ingest_sam(
    sensors: Map<Seq<char>, Measurement>,
    valves: Map<Seq<char>, CompositeValveState>,
    mappings: Seq<NodeMapping>,
    board: Seq<char>,
    dps: Seq<DataPoint>,
) -> (Map<Seq<char>, Measurement>, Map<Seq<char>, CompositeValveState>)
    decreases dps.len(),
{
    if dps.len() == 0 {
        (sensors, valves)
    } else {
        let prev = ingest_sam(sensors, valves, mappings, board, dps.drop_last());
        ingest_point(prev.0, prev.1, mappings, board, dps.last())
    }
}

/// Applies one mapping to one data point, as `apply_mapping` states.
fn apply_one(vs: &mut VehicleState, m: &NodeMapping, board_id: &String, dp: &DataPoint)
    requires
        old(vs).wf(),
    ensures
        final(vs).wf(),
        final(vs).sensors() == apply_mapping(
            old(vs).sensors(),
            old(vs).valves(),
            *m,
            board_id@,
            *dp,
        ).0,
        final(vs).valves() == apply_mapping(
            old(vs).sensors(),
            old(vs).valves(),
            *m,
            board_id@,
            *dp,
        ).1,
{
    let matches_signal = dp.channel == m.channel && m.sensor_type.accepts_channel(
        dp.channel_type,
    ) && m.board_id == *board_id;
    if !matches_signal {
        return ;
    }
    match m.sensor_type {
        SensorType::RailVoltage => {
            vs.sensor_readings.insert(
                m.text_id.clone(),
                Measurement { value: dp.value, unit: Unit::Volts },
            );
        },
        SensorType::RailCurrent => {
            vs.sensor_readings.insert(
                m.text_id.clone(),
                Measurement { value: dp.value, unit: Unit::Amps },
            );
        },
        SensorType::Rtd => {
            vs.sensor_readings.insert(
                m.text_id.clone(),
                Measurement { value: dp.value, unit: Unit::Kelvin },
            );
        },
        SensorType::Tc => {
            vs.sensor_readings.insert(
                m.text_id.clone(),
                Measurement { value: dp.value, unit: Unit::Kelvin },
            );
        },
        SensorType::Pt => {
            let meas = match (m.max, m.min) {
                (Some(max), Some(min)) => Measurement {
                    value: pt_convert(dp.value, min, max, m.calibrated_offset),
                    unit: Unit::Psi,
                },
                _ => Measurement { value: dp.value, unit: Unit::Volts },
            };
            vs.sensor_readings.insert(m.text_id.clone(), meas);
        },
        SensorType::LoadCell => {
            let meas = match (m.max, m.min) {
                (Some(max), Some(min)) => Measurement {
                    value: load_cell_convert(dp.value, min, max, m.calibrated_offset),
                    unit: Unit::Pounds,
                },
                _ => Measurement { value: dp.value, unit: Unit::Volts },
            };
            vs.sensor_readings.insert(m.text_id.clone(), meas);
        },
        SensorType::Valve => {
            let key_v = m.text_id.clone().concat("_V");
            let key_i = m.text_id.clone().concat("_I");
            let voltage: i64;
            let current: i64;
            let meas: Measurement;
            let key: String;
            if dp.channel_type == ChannelType::ValveVoltage {
                voltage = dp.value;
                current = match vs.sensor_readings.get(&key_i) {
                    Some(other) => other.value,
                    None => 0,
                };
                meas = Measurement { value: dp.value, unit: Unit::Volts };
                key = key_v;
            } else {
                current = dp.value;
                voltage = match vs.sensor_readings.get(&key_v) {
                    Some(other) => other.value,
                    None => 0,
                };
                meas = Measurement { value: dp.value, unit: Unit::Amps };
                key = key_i;
            }
            let actual = estimate_valve_state(
                voltage,
                current,
                m.powered_threshold,
                m.normally_closed,
            );
            let commanded = match vs.valve_states.get(&m.text_id) {
                Some(existing) => existing.commanded,
                None => ValveState::Undetermined,
            };
            vs.valve_states.insert(m.text_id.clone(), CompositeValveState { commanded, actual });
            vs.sensor_readings.insert(key, meas);
        },
    }
}

/// Folds a `Sam` datagram into the vehicle state: every data point is judged
/// against every mapping of the one list given, in order, and each match
/// updates the tables as `ingest_sam` states.
pub fn process_sam_data(
    vs: &mut VehicleState,
    mappings: &Vec<NodeMapping>,
    board_id: &String,
    data_points: &Vec<DataPoint>,
)
    requires
        old(vs).wf(),
    ensures
        final(vs).wf(),
        final(vs).sensors() == ingest_sam(
            old(vs).sensors(),
            old(vs).valves(),
            mappings@,
            board_id@,
            data_points@,
        ).0,
        final(vs).valves() == ingest_sam(
            old(vs).sensors(),
            old(vs).valves(),
            mappings@,
            board_id@,
            data_points@,
        ).1,
{
    let ghost sensors0 = vs.sensors();
    let ghost valves0 = vs.valves();
    let mut j: usize = 0;
    while j < data_points.len()
        invariant
            j <= data_points@.len(),
            vs.wf(),
            vs.sensors() == ingest_sam(
                sensors0,
                valves0,
                mappings@,
                board_id@,
                data_points@.subrange(0, j as int),
            ).0,
            vs.valves() == ingest_sam(
                sensors0,
                valves0,
                mappings@,
                board_id@,
                data_points@.subrange(0, j as int),
            ).1,
        decreases data_points@.len() - j,
    {
        let dp = data_points[j];
        let ghost sensors_j = vs.sensors();
        let ghost valves_j = vs.valves();
        let mut i: usize = 0;
        while i < mappings.len()
            invariant
                i <= mappings@.len(),
                vs.wf(),
                vs.sensors() == ingest_point(
                    sensors_j,
                    valves_j,
                    mappings@.subrange(0, i as int),
                    board_id@,
                    dp,
                ).0,
                vs.valves() == ingest_point(
                    sensors_j,
                    valves_j,
                    mappings@.subrange(0, i as int),
                    board_id@,
                    dp,
                ).1,
            decreases mappings@.len() - i,
        {
            apply_one(vs, &mappings[i], board_id, &dp);
            proof {
                let pre = mappings@.subrange(0, i as int);
                let post = mappings@.subrange(0, i + 1);
                assert(post.drop_last() =~= pre);
                assert(post.last() == mappings@[i as int]);
            }
            i = i + 1;
        }
        proof {
            assert(mappings@.subrange(0, mappings@.len() as int) =~= mappings@);
            let pre = data_points@.subrange(0, j as int);
            let post = data_points@.subrange(0, j + 1);
            assert(post.drop_last() =~= pre);
            assert(post.last() == data_points@[j as int]);
        }
        j = j + 1;
    }
    proof {
        assert(data_points@.subrange(0, data_points@.len() as int) =~= data_points@);
    }
}

/// Ingest correspondence, non-valve case: a mapping whose board and channel
/// match a data point, and whose sensor type accepts its channel type,
/// updates exactly one sensor entry, the one under its own name, to the
/// measurement of the unit table, and touches no valve state.
pub proof fn lemma_ingest_correspondence_sensor(
    sensors: Map<Seq<char>, Measurement>,
    valves: Map<Seq<char>, CompositeValveState>,
    m: NodeMapping,
    board: Seq<char>,
    dp: DataPoint,
)
    requires
        corresponds(m, board, dp),
        m.sensor_type != SensorType::Valve,
    ensures
        apply_mapping(sensors, valves, m, board, dp).0 == sensors.insert(
            m.text_id@,
            spec_measurement(m, dp),
        ),
        apply_mapping(sensors, valves, m, board, dp).1 == valves,
{
}

/// Ingest correspondence, valve case: a matching valve mapping updates
/// exactly two entries, the sensor reading under the `_V` or `_I` suffix of
/// its name and the valve state under the name itself, whose estimate is
/// the estimator applied to this reading and the stored other half.
pub proof fn lemma_ingest_correspondence_valve(
    sensors: Map<Seq<char>, Measurement>,
    valves: Map<Seq<char>, CompositeValveState>,
    m: NodeMapping,
    board: Seq<char>,
    dp: DataPoint,
)
    requires
        corresponds(m, board, dp),
        m.sensor_type == SensorType::Valve,
    ensures
        apply_mapping(sensors, valves, m, board, dp).0 == sensors.insert(
            spec_target_key(m, dp),
            spec_measurement(m, dp),
        ),
        apply_mapping(sensors, valves, m, board, dp).1 == valves.insert(
            m.text_id@,
            CompositeValveState {
                commanded: if valves.contains_key(m.text_id@) {
                    valves[m.text_id@].commanded
                } else {
                    ValveState::Undetermined
                },
                actual: spec_estimate(
                    if dp.channel_type == ChannelType::ValveVoltage {
                        dp.value
                    } else {
                        reading_or_zero(sensors, m.text_id@ + "_V"@)
                    },
                    if dp.channel_type == ChannelType::ValveVoltage {
                        reading_or_zero(sensors, m.text_id@ + "_I"@)
                    } else {
                        dp.value
                    },
                    m.powered_threshold,
                    m.normally_closed,
                ),
            },
        ),
{
}

/// A mapping that does not describe a data point's signal leaves both
/// tables untouched.
pub proof fn lemma_ingest_no_correspondence(
    sensors: Map<Seq<char>, Measurement>,
    valves: Map<Seq<char>, CompositeValveState>,
    m: NodeMapping,
    board: Seq<char>,
    dp: DataPoint,
)
    requires
        !corresponds(m, board, dp),
    ensures
        apply_mapping(sensors, valves, m, board, dp) == (sensors, valves),
{
}

/// Ingest composes over batches: a stream of data points folded under one
/// mapping list equals the fold of its first part followed by the fold of
/// the rest from the state the first part left.  So when the operator swaps
/// the mapping list between two datagrams, the evolution is exactly the old
/// list's fold followed by the new list's fold: no data point sees a
/// mixture of the two lists.
pub proof fn lemma_ingest_append(
    sensors: Map<Seq<char>, Measurement>,
    valves: Map<Seq<char>, CompositeValveState>,
    mappings: Seq<NodeMapping>,
    board: Seq<char>,
    dps1: Seq<DataPoint>,
    dps2: Seq<DataPoint>,
)
    ensures
        ingest_sam(sensors, valves, mappings, board, dps1 + dps2) == ({
            let mid = ingest_sam(sensors, valves, mappings, board, dps1);
            ingest_sam(mid.0, mid.1, mappings, board, dps2)
        }),
    decreases dps2.len(),
{
    if dps2.len() == 0 {
        assert(dps1 + dps2 =~= dps1);
    } else {
        lemma_ingest_append(sensors, valves, mappings, board, dps1, dps2.drop_last());
        assert((dps1 + dps2).drop_last() =~= dps1 + dps2.drop_last());
        assert((dps1 + dps2).last() == dps2.last());
    }
}

} // verus!
