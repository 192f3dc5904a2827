//! The sequence engine's bookkeeping: the pool of active sequences (a
//! name-to-thread bijection), the single-abort discipline, and the device
//! handler that turns a valve command into a routed control message.
//!
//! Running a script is the shell's business; everything here is the decision
//! core the engine consults on each capability call.
use crate::comm::CompositeValveState;
use crate::comm::NodeMapping;
use crate::comm::SamControlMessage;
use crate::comm::ValveState;
use crate::comm::VehicleState;
use vstd::prelude::*;

verus! {

/// The pairs an active-sequence bijection holds, by sequence name.
pub uninterp spec fn bimap_view(m: bimap::BiHashMap<String, u64>) -> Map<Seq<char>, u64>;

/// The contents of a pool with nothing active.
pub open spec fn no_sequences() -> Map<Seq<char>, u64> {
    Map::empty()
}

#[verifier::external_type_specification]
#[verifier::external_body]
#[verifier::reject_recursive_types(L)]
#[verifier::reject_recursive_types(R)]
#[verifier::reject_recursive_types(LS)]
#[verifier::reject_recursive_types(RS)]
pub struct ExBiHashMap<L, R, LS, RS>(bimap::BiHashMap<L, R, LS, RS>);

/// Relies on bimap::BiHashMap::new: creates an empty bimap.
#[verifier::external_body]
fn bimap_new() -> (r: bimap::BiHashMap<String, u64>)
    ensures
        bimap_view(r) == no_sequences(),
{
    bimap::BiHashMap::new()
}

/// Relies on bimap::BiHashMap::insert: the pair is added, and any pair that
/// shares its left or its right value is removed first.
#[verifier::external_body]
fn bimap_insert(m: &mut bimap::BiHashMap<String, u64>, left: String, right: u64)
    ensures
        bimap_view(*final(m)) == bimap_view(*old(m)).remove_keys(
            Set::new(
                |k: Seq<char>|
                    bimap_view(*old(m)).contains_key(k) && bimap_view(*old(m))[k] == right,
            ),
        ).insert(left@, right),
{
    m.insert(left, right);
}

/// Relies on bimap::BiHashMap::get_by_right: the left value paired with
/// `right`, if one exists; the bijection holds at most one.
#[verifier::external_body]
fn bimap_get_by_right(m: &bimap::BiHashMap<String, u64>, right: u64) -> (r: Option<String>)
    ensures
        match r {
            Some(l) => bimap_view(*m).contains_key(l@) && bimap_view(*m)[l@] == right,
            None => forall|k: Seq<char>|
                bimap_view(*m).contains_key(k) ==> bimap_view(*m)[k] != right,
        },
{
    m.get_by_right(&right).cloned()
}

/// Relies on bimap::BiHashMap::contains_left: whether a pair with this left
/// value is present.
#[verifier::external_body]
fn bimap_contains_left(m: &bimap::BiHashMap<String, u64>, left: &String) -> (r: bool)
    ensures
        r == bimap_view(*m).contains_key(left@),
{
    m.contains_left(left)
}

/// Relies on bimap::BiHashMap::remove_by_left: the pair with this left
/// value, if any, is removed.
#[verifier::external_body]
fn bimap_remove_by_left(m: &mut bimap::BiHashMap<String, u64>, left: &String)
    ensures
        bimap_view(*final(m)) == bimap_view(*old(m)).remove(left@),
{
    m.remove_by_left(left);
}

/// Relies on bimap::BiHashMap::clear: every pair is removed.
#[verifier::external_body]
fn bimap_clear(m: &mut bimap::BiHashMap<String, u64>)
    ensures
        bimap_view(*final(m)) == no_sequences(),
{
    m.clear();
}

/// The name of the distinguished abort sequence.
pub fn abort_sequence_name() -> (r: String)
    ensures
        r@ == "abort"@,
{
    String::from_str("abort")
}

/// The pool of active sequences: a bijection from sequence name to the
/// identity of the thread executing it.
pub struct SequencePool {
    active: bimap::BiHashMap<String, u64>,
}

impl View for SequencePool {
    type V = Map<Seq<char>, u64>;

    closed spec fn view(&self) -> Map<Seq<char>, u64> {
        bimap_view(self.active)
    }
}

/// The effect of requesting an abort on the pool's contents: nothing while
/// an abort sequence is already active; otherwise every sequence is
/// cancelled and the abort sequence alone is enqueued.
pub open spec fn spec_request_abort(m: Map<Seq<char>, u64>, abort_thread: u64) -> (
    Map<Seq<char>, u64>,
    bool,
) {
    if m.contains_key("abort"@) {
        (m, false)
    } else {
        (Map::<Seq<char>, u64>::empty().insert("abort"@, abort_thread), true)
    }
}

impl SequencePool {
    pub fn new() -> (r: SequencePool)
        ensures
            r@ == Map::<Seq<char>, u64>::empty(),
    {
        SequencePool { active: bimap_new() }
    }

    /// Record a spawned sequence under its name.  A sequence reusing the
    /// name, or the thread, of a recorded one displaces it.
    pub fn register(&mut self, name: String, thread_id: u64)
        ensures
            final(self)@ == old(self)@.remove_keys(
                Set::new(
                    |k: Seq<char>| old(self)@.contains_key(k) && old(self)@[k] == thread_id,
                ),
            ).insert(name@, thread_id),
    {
        bimap_insert(&mut self.active, name, thread_id);
    }

    /// The name of the sequence the given thread runs, if it is still
    /// active: the engine's per-capability-call abort check.
    pub fn name_of_thread(&self, thread_id: u64) -> (r: Option<String>)
        ensures
            match r {
                Some(name) => self@.contains_key(name@) && self@[name@] == thread_id,
                None => forall|k: Seq<char>| self@.contains_key(k) ==> self@[k] != thread_id,
            },
    {
        bimap_get_by_right(&self.active, thread_id)
    }

    /// Whether a sequence with this name is active.
    pub fn is_active(&self, name: &String) -> (r: bool)
        ensures
            r == self@.contains_key(name@),
    {
        bimap_contains_left(&self.active, name)
    }

    /// Cancel one sequence: the engine sees the removal on that sequence's
    /// next capability call and raises the abort signal in the script.
    pub fn cancel(&mut self, name: &String)
        ensures
            final(self)@ == old(self)@.remove(name@),
    {
        bimap_remove_by_left(&mut self.active, name);
    }

    /// Remove every active sequence.
    pub fn clear(&mut self)
        ensures
            final(self)@ == Map::<Seq<char>, u64>::empty(),
    {
        bimap_clear(&mut self.active);
    }

    /// The abort hook's effect on the pool: unless an abort sequence is
    /// already active, cancel everything and enqueue the abort sequence
    /// alone.  Returns whether the caller should now run it.
    pub fn request_abort(&mut self, abort_thread: u64) -> (started: bool)
        ensures
            (final(self)@, started) == spec_request_abort(old(self)@, abort_thread),
    {
        let name = abort_sequence_name();
        if bimap_contains_left(&self.active, &name) {
            false
        } else {
            bimap_clear(&mut self.active);
            bimap_insert(&mut self.active, name, abort_thread);
            proof {
                assert(self@ =~= spec_request_abort(old(self)@, abort_thread).0);
            }
            true
        }
    }
}

/// Single-abort: once an abort request has gone through, a further request
/// while the abort sequence is still active enqueues nothing and leaves the
/// pool exactly as it was.
pub proof fn lemma_single_abort(m: Map<Seq<char>, u64>, t1: u64, t2: u64)
    ensures
        spec_request_abort(m, t1).1 ==> {
            let after_first = spec_request_abort(m, t1).0;
            !spec_request_abort(after_first, t2).1 && spec_request_abort(after_first, t2).0
                == after_first
        },
{
}

/// The first mapping with the given logical name, if any.
pub open spec fn find_mapping(mappings: Seq<NodeMapping>, name: Seq<char>) -> Option<NodeMapping>
    decreases mappings.len(),
{
    if mappings.len() == 0 {
        Option::None
    } else if mappings.first().text_id@ == name {
        Option::Some(mappings.first())
    } else {
        find_mapping(mappings.drop_first(), name)
    }
}

/// The control message a valve command becomes: the mapping's channel, with
/// the coil powered exactly when the desired state differs from the resting
/// state given by the electrical polarity (normally closed when unstated).
pub open spec fn spec_actuation(m: NodeMapping, state: ValveState) -> SamControlMessage {
    let closed = state == ValveState::Closed;
    let normally_closed = match m.normally_closed {
        Option::Some(b) => b,
        Option::None => true,
    };
    SamControlMessage::ActuateValve { channel: m.channel, powered: closed != normally_closed }
}

/// The device handler behind `Valve.open` and `Valve.close`: finds the
/// named valve's mapping, records the commanded state, and returns the one
/// control message to send, addressed to the mapping's board.  A name with
/// no mapping is reported to the sequence as a no-op.
#[verifier::loop_isolation(false)]
pub fn actuate_valve(
    name: &String,
    state: ValveState,
    mappings: &Vec<NodeMapping>,
    vs: &mut VehicleState,
) -> (r: Option<(String, SamControlMessage)>)
    requires
        old(vs).wf(),
    ensures
        final(vs).wf(),
        final(vs).sensors() == old(vs).sensors(),
        match r {
            Some((board, msg)) => {
                &&& find_mapping(mappings@, name@) matches Some(m)
                &&& board@ == find_mapping(mappings@, name@).unwrap().board_id@
                &&& msg == spec_actuation(find_mapping(mappings@, name@).unwrap(), state)
                &&& final(vs).valves() == old(vs).valves().insert(
                    name@,
                    CompositeValveState {
                        commanded: state,
                        actual: if old(vs).valves().contains_key(name@) {
                            old(vs).valves()[name@].actual
                        } else {
                            ValveState::Undetermined
                        },
                    },
                )
            },
            None => find_mapping(mappings@, name@) is None && final(vs).valves() == old(
                vs,
            ).valves(),
        },
{
    proof {
        assert(mappings@.skip(0) =~= mappings@);
    }
    let mut i: usize = 0;
    while i < mappings.len()
        invariant
            i <= mappings@.len(),
            *vs == *old(vs),
            find_mapping(mappings@, name@) == find_mapping(
                mappings@.skip(i as int),
                name@,
            ),
            forall|j: int| 0 <= j < i ==> (#[trigger] mappings@[j]).text_id@ != name@,
        decreases mappings@.len() - i,
    {
        proof {
            assert(mappings@.skip(i as int).first() == mappings@[i as int]);
            assert(mappings@.skip(i as int).drop_first() =~= mappings@.skip(i + 1));
        }
        if mappings[i].text_id == *name {
            let m = &mappings[i];
            let closed = match state {
                ValveState::Closed => true,
                _ => false,
            };
            let normally_closed = match m.normally_closed {
                Some(b) => b,
                None => true,
            };
            let message = SamControlMessage::ActuateValve {
                channel: m.channel,
                powered: closed != normally_closed,
            };
            let actual = match vs.valve_states.get(name) {
                Some(existing) => existing.actual,
                None => ValveState::Undetermined,
            };
            vs.valve_states.insert(name.clone(), CompositeValveState { commanded: state, actual });
            return Some((m.board_id.clone(), message));
        }
        i = i + 1;
    }
    proof {
        assert(mappings@.skip(mappings@.len() as int).len() == 0);
    }
    None
}

/// A named valve, as a sequence script sees it.
#[derive(Clone, Debug)]
pub struct Valve {
    pub name: String,
}

impl Valve {
    pub fn new(name: String) -> (r: Valve)
        ensures
            r.name == name,
    {
        Valve { name }
    }

    /// Command the valve open: one control message for the mapping's board,
    /// with the commanded state recorded before returning.
    pub fn open(&self, mappings: &Vec<NodeMapping>, vs: &mut VehicleState) -> (r: Option<
        (String, SamControlMessage),
    >)
        requires
            old(vs).wf(),
        ensures
            final(vs).wf(),
            final(vs).sensors() == old(vs).sensors(),
            r is Some <==> find_mapping(mappings@, self.name@) is Some,
            r matches Some((board, msg)) ==> board@ == find_mapping(
                mappings@,
                self.name@,
            ).unwrap().board_id@ && msg == spec_actuation(
                find_mapping(mappings@, self.name@).unwrap(),
                ValveState::Open,
            ) && final(vs).valves().contains_key(self.name@) && final(vs).valves()[self.name@]
                .commanded == ValveState::Open,
            r is None ==> final(vs).valves() == old(vs).valves(),
    {
        actuate_valve(&self.name, ValveState::Open, mappings, vs)
    }

    /// Command the valve closed, as `open` does.
    pub fn close(&self, mappings: &Vec<NodeMapping>, vs: &mut VehicleState) -> (r: Option<
        (String, SamControlMessage),
    >)
        requires
            old(vs).wf(),
        ensures
            final(vs).wf(),
            final(vs).sensors() == old(vs).sensors(),
            r is Some <==> find_mapping(mappings@, self.name@) is Some,
            r matches Some((board, msg)) ==> board@ == find_mapping(
                mappings@,
                self.name@,
            ).unwrap().board_id@ && msg == spec_actuation(
                find_mapping(mappings@, self.name@).unwrap(),
                ValveState::Closed,
            ) && final(vs).valves().contains_key(self.name@) && final(vs).valves()[self.name@]
                .commanded == ValveState::Closed,
            r is None ==> final(vs).valves() == old(vs).valves(),
    {
        actuate_valve(&self.name, ValveState::Closed, mappings, vs)
    }

    /// Whether the estimator last read this valve as open.
    pub fn is_open(&self, vs: &VehicleState) -> (r: bool)
        requires
            vs.wf(),
        ensures
            r == (vs.valves().contains_key(self.name@) && vs.valves()[self.name@].actual
                == ValveState::Open),
    {
        match vs.valve_states.get(&self.name) {
            Some(state) => match state.actual {
                ValveState::Open => true,
                _ => false,
            },
            None => false,
        }
    }

    /// Whether the estimator last read this valve as closed.
    pub fn is_closed(&self, vs: &VehicleState) -> (r: bool)
        requires
            vs.wf(),
        ensures
            r == (vs.valves().contains_key(self.name@) && vs.valves()[self.name@].actual
                == ValveState::Closed),
    {
        match vs.valve_states.get(&self.name) {
            Some(state) => match state.actual {
                ValveState::Closed => true,
                _ => false,
            },
            None => false,
        }
    }
}

/// A named sensor, as a sequence script sees it.
#[derive(Clone, Debug)]
pub struct Sensor {
    pub name: String,
}

impl Sensor {
    pub fn new(name: String) -> (r: Sensor)
        ensures
            r.name == name,
    {
        Sensor { name }
    }

    /// The current reading, in thousandths of its unit, or zero when the
    /// vehicle state holds none.
    pub fn read(&self, vs: &VehicleState) -> (r: i64)
        requires
            vs.wf(),
        ensures
            r == crate::ingest::reading_or_zero(vs.sensors(), self.name@),
    {
        match vs.sensor_readings.get(&self.name) {
            Some(meas) => meas.value,
            None => 0,
        }
    }
}

/// A pressure transducer, read as any sensor is.
#[derive(Clone, Debug)]
pub struct PT {
    pub name: String,
}

impl PT {
    /// The current reading, in milli-psi, or zero when absent.
    pub fn read(&self, vs: &VehicleState) -> (r: i64)
        requires
            vs.wf(),
        ensures
            r == crate::ingest::reading_or_zero(vs.sensors(), self.name@),
    {
        match vs.sensor_readings.get(&self.name) {
            Some(meas) => meas.value,
            None => 0,
        }
    }
}

/// A span of time, in microseconds: the `s`, `ms` and `us` constants of the
/// script environment are 1_000_000, 1_000 and 1 of these.
#[derive(Clone, Copy, Debug, PartialEq, Eq, Structural)]
pub struct Duration {
    pub micros: i64,
}

impl Duration {
    pub fn new(micros: i64) -> (r: Duration)
        ensures
            r.micros == micros,
    {
        Duration { micros }
    }
}

/// A pressure, in milli-psi: the script's `psi` constant is 1_000 of these.
#[derive(Clone, Copy, Debug, PartialEq, Eq, Structural)]
pub struct Pressure {
    pub millipsi: i64,
}

impl Pressure {
    pub fn new(millipsi: i64) -> (r: Pressure)
        ensures
            r.millipsi == millipsi,
    {
        Pressure { millipsi }
    }
}

/// A temperature, in thousandths of a degree Fahrenheit.
#[derive(Clone, Copy, Debug, PartialEq, Eq, Structural)]
pub struct Temperature {
    pub millidegrees: i64,
}

impl Temperature {
    pub fn new(millidegrees: i64) -> (r: Temperature)
        ensures
            r.millidegrees == millidegrees,
    {
        Temperature { millidegrees }
    }
}

/// The polling plan of `wait_until`: the interval between condition checks
/// (ten milliseconds when unstated) and the wall-clock deadline, if a
/// timeout was given.  A non-positive duration polls as fast as allowed or
/// expires at once.
pub fn wait_until_plan(now: u64, interval: Option<Duration>, timeout: Option<Duration>) -> (r: (
    u64,
    Option<u64>,
))
    ensures
        r.0 == match interval {
            Some(iv) => if iv.micros >= 0 {
                iv.micros as u64
            } else {
                0
            },
            None => 10_000u64,
        },
        r.1 == match timeout {
            Some(t) => Some(
                if t.micros >= 0 {
                    if now + t.micros <= u64::MAX {
                        (now + t.micros) as u64
                    } else {
                        u64::MAX
                    }
                } else {
                    now
                },
            ),
            None => None::<u64>,
        },
{
    let step: u64 = match interval {
        Some(iv) => if iv.micros >= 0 {
            iv.micros as u64
        } else {
            0
        },
        None => 10_000,
    };
    let deadline: Option<u64> = match timeout {
        Some(t) => {
            if t.micros >= 0 {
                Some(now.saturating_add(t.micros as u64))
            } else {
                Some(now)
            }
        },
        None => None,
    };
    (step, deadline)
}

} // verus!
