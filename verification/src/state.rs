//! The program's top-level state machine and the shared state it guards:
//! the vehicle state, the mapping list, the server address, the triggers,
//! and the pool of active sequences.
//!
//! Socket reads and thread spawns stay in the shell; each transition here
//! takes what was read and says exactly what changes.
use crate::comm::FlightControlMessage;
use crate::comm::NodeMapping;
use crate::comm::PeerAddress;
use crate::comm::Sequence;
use crate::comm::Trigger;
use crate::comm::VehicleState;
use crate::sequences::SequencePool;
use vstd::prelude::*;

verus! {

/// Everything the components share: the authoritative vehicle state, the
/// operator's mapping list, the server address once discovered, the
/// triggers, and the active sequences.
pub struct SharedState {
    pub vehicle_state: VehicleState,
    pub mappings: Vec<NodeMapping>,
    pub server_address: Option<PeerAddress>,
    pub triggers: Vec<Trigger>,
    pub sequences: SequencePool,
}

/// The top-level states of the flight computer.  A transition consumes a
/// state and the outcome of that state's one blocking step.
pub enum ProgramState {
    /// Starting up: build the shared state and the background tasks.
    Init,
    /// Trying the candidate server hostnames in order.
    ServerDiscovery,
    /// Connected, reading one operator message at a time.
    WaitForOperator,
    /// About to run a sequence; without a server this is the abort path.
    RunSequence { has_server: bool, sequence: Sequence },
    /// A fatal condition was met; next comes the abort sequence.
    Abort,
}

/// What one read on the server stream produced.
pub enum OperatorEvent {
    /// A message was decoded.
    Message(FlightControlMessage),
    /// The read would block or the frame did not decode: stay and retry.
    Nothing,
    /// A zero-byte read or a read error: the server hung up.
    Disconnected,
}

/// The index of the first trigger with the given name.
pub open spec fn find_trigger(ts: Seq<Trigger>, name: Seq<char>) -> Option<int>
    decreases ts.len(),
{
    if ts.len() == 0 {
        Option::None
    } else if ts.first().name@ == name {
        Option::Some(0int)
    } else {
        match find_trigger(ts.drop_first(), name) {
            Option::Some(i) => Option::Some(i + 1),
            Option::None => Option::None,
        }
    }
}

/// A trigger list after an upsert: the first trigger of the same name is
/// replaced, or the new trigger is appended.
pub open spec fn spec_upsert_trigger(ts: Seq<Trigger>, t: Trigger) -> Seq<Trigger> {
    match find_trigger(ts, t.name@) {
        Option::Some(i) => ts.update(i, t),
        Option::None => ts.push(t),
    }
}

/// Pairwise-distinct trigger names: no two triggers bear the same name.
pub open spec fn trigger_names_distinct(ts: Seq<Trigger>) -> bool {
    forall|i: int, j: int|
        0 <= i < j < ts.len() ==> (#[trigger] ts[i]).name@ != (#[trigger] ts[j]).name@
}

/// What `find_trigger` finds: the index it returns bears the name, and a
/// miss means no trigger does.
proof fn lemma_find_trigger(ts: Seq<Trigger>, name: Seq<char>)
    ensures
        match find_trigger(ts, name) {
            Option::Some(i) => 0 <= i < ts.len() && ts[i].name@ == name,
            Option::None => forall|j: int|
                0 <= j < ts.len() ==> (#[trigger] ts[j]).name@ != name,
        },
    decreases ts.len(),
{
    if ts.len() > 0 && ts.first().name@ != name {
        lemma_find_trigger(ts.drop_first(), name);
        match find_trigger(ts.drop_first(), name) {
            Option::Some(i) => {
                assert(ts.drop_first()[i] == ts[i + 1]);
            },
            Option::None => {
                assert forall|j: int| 0 <= j < ts.len() implies (#[trigger] ts[j]).name@
                    != name by {
                    if j > 0 {
                        assert(ts.drop_first()[j - 1] == ts[j]);
                    }
                }
            },
        }
    }
}

/// A by-name upsert keeps trigger names pairwise distinct, and the new
/// trigger stands in the list; with distinctness, exactly one trigger
/// bears the upserted name afterwards.
pub proof fn lemma_upsert_trigger_distinct(ts: Seq<Trigger>, t: Trigger)
    requires
        trigger_names_distinct(ts),
    ensures
        trigger_names_distinct(spec_upsert_trigger(ts, t)),
        exists|i: int|
            0 <= i < spec_upsert_trigger(ts, t).len() && (#[trigger] spec_upsert_trigger(ts, t)[i])
                == t,
{
    lemma_find_trigger(ts, t.name@);
    match find_trigger(ts, t.name@) {
        Option::Some(i) => {
            let after = ts.update(i, t);
            assert(after[i] == t);
            assert forall|a: int, b: int| 0 <= a < b < after.len() implies (#[trigger] after[a])
                .name@ != (#[trigger] after[b]).name@ by {
                assert(ts[i].name@ == t.name@);
                if a != i {
                    assert(after[a] == ts[a]);
                }
                if b != i {
                    assert(after[b] == ts[b]);
                }
            }
        },
        Option::None => {
            let after = ts.push(t);
            assert(after[ts.len() as int] == t);
            assert forall|a: int, b: int| 0 <= a < b < after.len() implies (#[trigger] after[a])
                .name@ != (#[trigger] after[b]).name@ by {
                if b < ts.len() {
                    assert(after[a] == ts[a]);
                    assert(after[b] == ts[b]);
                } else {
                    assert(after[a] == ts[a]);
                    assert(after[b] == t);
                }
            }
        },
    }
}

impl SharedState {
    /// Well-formedness: the vehicle state's tables are well-formed and the
    /// trigger names are pairwise distinct, so the by-name upsert keeps
    /// exactly one trigger per name.
    pub open spec fn wf(&self) -> bool {
        self.vehicle_state.wf() && trigger_names_distinct(self.triggers@)
    }

    pub fn new() -> (r: SharedState)
        ensures
            r.wf(),
            r.vehicle_state.sensors().is_empty(),
            r.vehicle_state.valves().is_empty(),
            r.mappings@.len() == 0,
            r.server_address is None,
            r.triggers@.len() == 0,
            r.sequences@.is_empty(),
    {
        let r = SharedState {
            vehicle_state: VehicleState::new(),
            mappings: Vec::new(),
            server_address: None,
            triggers: Vec::new(),
            sequences: SequencePool::new(),
        };
        proof {
            assert(r.vehicle_state.sensors().is_empty());
            assert(r.sequences@.is_empty());
        }
        r
    }

    /// Replace the mapping list wholesale: after this call every ingest
    /// judgement uses the new list and none of the old one.
    pub fn set_mappings(&mut self, new_mappings: Vec<NodeMapping>)
        ensures
            final(self).mappings == new_mappings,
            final(self).vehicle_state == old(self).vehicle_state,
            final(self).server_address == old(self).server_address,
            final(self).triggers == old(self).triggers,
            final(self).sequences == old(self).sequences,
    {
        self.mappings = new_mappings;
    }

    /// Install a trigger, replacing an existing trigger of the same name.
    #[verifier::loop_isolation(false)]
    pub fn upsert_trigger(&mut self, t: Trigger)
        requires
            old(self).wf(),
        ensures
            final(self).wf(),
            final(self).triggers@ == spec_upsert_trigger(old(self).triggers@, t),
            final(self).vehicle_state == old(self).vehicle_state,
            final(self).mappings == old(self).mappings,
            final(self).server_address == old(self).server_address,
            final(self).sequences == old(self).sequences,
    {
        proof {
            lemma_upsert_trigger_distinct(self.triggers@, t);
            assert(self.triggers@.skip(0) =~= self.triggers@);
        }
        let mut i: usize = 0;
        while i < self.triggers.len()
            invariant
                i <= self.triggers@.len(),
                *self == *old(self),
                forall|j: int| 0 <= j < i ==> (#[trigger] self.triggers@[j]).name@ != t.name@,
                find_trigger(self.triggers@, t.name@) == ({
                    match find_trigger(self.triggers@.skip(i as int), t.name@) {
                        Option::Some(l) => Option::Some(l + i),
                        Option::None => Option::None::<int>,
                    }
                }),
            decreases self.triggers@.len() - i,
        {
            proof {
                assert(self.triggers@.skip(i as int).first() == self.triggers@[i as int]);
                assert(self.triggers@.skip(i as int).drop_first() =~= self.triggers@.skip(i + 1));
            }
            if self.triggers[i].name == t.name {
                self.triggers.set(i, t);
                return ;
            }
            i = i + 1;
        }
        proof {
            assert(self.triggers@.skip(self.triggers@.len() as int).len() == 0);
        }
        self.triggers.push(t);
    }

    /// The `WaitForOperator` step, after the shell has read and decoded:
    /// a `Mappings` message replaces the mapping list, a `Trigger` message
    /// is upserted by name, a `Sequence` message moves to `RunSequence`,
    /// and a hangup returns to `ServerDiscovery`.
    pub fn wait_for_operator(&mut self, event: OperatorEvent) -> (next: ProgramState)
        requires
            old(self).wf(),
        ensures
            final(self).wf(),
            final(self).vehicle_state == old(self).vehicle_state,
            final(self).server_address == old(self).server_address,
            final(self).sequences == old(self).sequences,
            match event {
                OperatorEvent::Message(FlightControlMessage::Mappings(list)) => {
                    &&& final(self).mappings == list
                    &&& final(self).triggers == old(self).triggers
                    &&& next is WaitForOperator
                },
                OperatorEvent::Message(FlightControlMessage::Sequence(seq)) => {
                    &&& final(self).mappings == old(self).mappings
                    &&& final(self).triggers == old(self).triggers
                    &&& next matches ProgramState::RunSequence { has_server, sequence }
                        && has_server && sequence == seq
                },
                OperatorEvent::Message(FlightControlMessage::Trigger(t)) => {
                    &&& final(self).mappings == old(self).mappings
                    &&& final(self).triggers@ == spec_upsert_trigger(old(self).triggers@, t)
                    &&& next is WaitForOperator
                },
                OperatorEvent::Nothing => {
                    &&& final(self).mappings == old(self).mappings
                    &&& final(self).triggers == old(self).triggers
                    &&& next is WaitForOperator
                },
                OperatorEvent::Disconnected => {
                    &&& final(self).mappings == old(self).mappings
                    &&& final(self).triggers == old(self).triggers
                    &&& next is ServerDiscovery
                },
            },
    {
        match event {
            OperatorEvent::Message(message) => match message {
                FlightControlMessage::Mappings(list) => {
                    self.set_mappings(list);
                    ProgramState::WaitForOperator
                },
                FlightControlMessage::Sequence(seq) => ProgramState::RunSequence {
                    has_server: true,
                    sequence: seq,
                },
                FlightControlMessage::Trigger(t) => {
                    self.upsert_trigger(t);
                    ProgramState::WaitForOperator
                },
            },
            OperatorEvent::Nothing => ProgramState::WaitForOperator,
            OperatorEvent::Disconnected => ProgramState::ServerDiscovery,
        }
    }

    /// The `RunSequence` step.  With a server the shell has spawned the
    /// sequence on a thread; it is recorded for cancellation and the
    /// operator is waited on again.  Without one this is the abort path:
    /// every active sequence is cancelled, the sequence runs synchronously
    /// in the shell, and discovery starts over.
    pub fn run_sequence(
        &mut self,
        has_server: bool,
        sequence_name: String,
        thread_id: u64,
    ) -> (next: ProgramState)
        ensures
            final(self).vehicle_state == old(self).vehicle_state,
            final(self).mappings == old(self).mappings,
            final(self).server_address == old(self).server_address,
            final(self).triggers == old(self).triggers,
            has_server ==> final(self).sequences@ == old(self).sequences@.remove_keys(
                Set::new(
                    |k: Seq<char>|
                        old(self).sequences@.contains_key(k) && old(self).sequences@[k]
                            == thread_id,
                ),
            ).insert(sequence_name@, thread_id) && next is WaitForOperator,
            !has_server ==> final(self).sequences@.is_empty() && next is ServerDiscovery,
    {
        if has_server {
            self.sequences.register(sequence_name, thread_id);
            ProgramState::WaitForOperator
        } else {
            self.sequences.clear();
            proof {
                assert(self.sequences@.dom() =~= Set::empty());
            }
            ProgramState::ServerDiscovery
        }
    }
}

/// The `Abort` transition: the distinguished abort sequence, run without a
/// server socket.
pub fn abort_transition() -> (r: ProgramState)
    ensures
        r matches ProgramState::RunSequence { has_server, sequence } && !has_server
            && sequence.name@ == "abort"@ && sequence.script@ == "abort()"@,
{
    ProgramState::RunSequence {
        has_server: false,
        sequence: Sequence {
            name: String::from_str("abort"),
            script: String::from_str("abort()"),
        },
    }
}

/// The shared state a `Mappings` message leaves behind: the new list in
/// place, everything else untouched.
pub open spec fn spec_install_mappings(s: SharedState, l: Vec<NodeMapping>) -> SharedState {
    SharedState { mappings: l, ..s }
}

/// Installing a mapping list is idempotent: the same list sent twice
/// leaves exactly the shared state one send leaves, so the vehicle-state
/// evolution on identical input is the same, ingest being a function of
/// the installed list's value.
pub proof fn lemma_mappings_install_idempotent(s: SharedState, l: Vec<NodeMapping>)
    ensures
        spec_install_mappings(spec_install_mappings(s, l), l) == spec_install_mappings(s, l),
{
}

/// The coarse run-loop states of the earlier single-threaded computer:
/// discovery, connection, command handling and sequence running in turn.
#[derive(Clone, Copy, Debug, PartialEq, Eq, Structural)]
pub enum FCState {
    Init,
    DeviceDiscovery,
    ConnectToServer,
    HandleCommands,
    RunSequence,
}

/// The run loop's transition relation: discovery repeats until the server
/// resolves, connection falls back to discovery on failure, command
/// handling persists, and a sequence run returns to discovery.
pub open spec fn spec_fc_next(state: FCState, server_found: bool, connected: bool) -> FCState {
    match state {
        FCState::Init => FCState::RunSequence,
        FCState::DeviceDiscovery => if server_found {
            FCState::ConnectToServer
        } else {
            FCState::DeviceDiscovery
        },
        FCState::ConnectToServer => if connected {
            FCState::HandleCommands
        } else {
            FCState::DeviceDiscovery
        },
        FCState::HandleCommands => FCState::HandleCommands,
        FCState::RunSequence => FCState::DeviceDiscovery,
    }
}

/// One step of the run loop, given whether discovery resolved the server
/// and whether the connection attempt succeeded.
pub fn fc_next(state: FCState, server_found: bool, connected: bool) -> (r: FCState)
    ensures
        r == spec_fc_next(state, server_found, connected),
{
    match state {
        FCState::Init => FCState::RunSequence,
        FCState::DeviceDiscovery => {
            if server_found {
                FCState::ConnectToServer
            } else {
                FCState::DeviceDiscovery
            }
        },
        FCState::ConnectToServer => {
            if connected {
                FCState::HandleCommands
            } else {
                FCState::DeviceDiscovery
            }
        },
        FCState::HandleCommands => FCState::HandleCommands,
        FCState::RunSequence => FCState::DeviceDiscovery,
    }
}

/// The sequences one evaluation round owes, with each name under the
/// trigger prefix: those of active triggers whose condition held.
pub open spec fn spec_due_sequences(ts: Seq<Trigger>, evaluations: Seq<Option<bool>>) -> Seq<
    (Seq<char>, Seq<char>),
>
    decreases ts.len(),
{
    if ts.len() == 0 || evaluations.len() == 0 {
        Seq::empty()
    } else {
        let head: Seq<(Seq<char>, Seq<char>)> = if ts.first().active && evaluations.first()
            == Option::Some(true) {
            seq![("trigger_"@ + ts.first().name@, ts.first().script@)]
        } else {
            Seq::empty()
        };
        head + spec_due_sequences(ts.drop_first(), evaluations.drop_first())
    }
}

/// The trigger a round leaves behind: an active trigger whose evaluation
/// raised an error is deactivated; every other field stays.
pub open spec fn spec_trigger_after(t: Trigger, evaluation: Option<bool>) -> Trigger {
    if t.active && evaluation is None {
        Trigger { active: false, ..t }
    } else {
        t
    }
}

/// One round of the trigger task, after the shell has evaluated each
/// active trigger's condition: `Some(held)` is the condition's verdict and
/// `None` an evaluation error.  Returns the scripts to run, in trigger
/// order, each as a sequence named under the trigger prefix; an erroring
/// trigger is marked inactive.
#[verifier::loop_isolation(false)]
pub fn trigger_tick(triggers: &mut Vec<Trigger>, evaluations: &Vec<Option<bool>>) -> (to_run: Vec<
    Sequence,
>)
    requires
        old(triggers)@.len() == evaluations@.len(),
    ensures
        final(triggers)@.len() == old(triggers)@.len(),
        forall|i: int|
            0 <= i < final(triggers)@.len() ==> final(triggers)@[i] == spec_trigger_after(
                #[trigger] old(triggers)@[i],
                evaluations@[i],
            ),
        to_run@.map_values(|s: Sequence| (s.name@, s.script@)) == spec_due_sequences(
            old(triggers)@,
            evaluations@,
        ),
{
    let mut to_run: Vec<Sequence> = Vec::new();
    let mut i: usize = 0;
    proof {
        assert(old(triggers)@.skip(0) =~= old(triggers)@);
        assert(evaluations@.skip(0) =~= evaluations@);
    }
    while i < triggers.len()
        invariant
            i <= triggers@.len(),
            triggers@.len() == old(triggers)@.len(),
            forall|j: int|
                0 <= j < i ==> triggers@[j] == spec_trigger_after(
                    #[trigger] old(triggers)@[j],
                    evaluations@[j],
                ),
            forall|j: int| i <= j < triggers@.len() ==> triggers@[j] == old(triggers)@[j],
            spec_due_sequences(old(triggers)@, evaluations@) == to_run@.map_values(
                |s: Sequence| (s.name@, s.script@),
            ) + spec_due_sequences(old(triggers)@.skip(i as int), evaluations@.skip(i as int)),
        decreases triggers@.len() - i,
    {
        proof {
            assert(old(triggers)@.skip(i as int).first() == old(triggers)@[i as int]);
            assert(evaluations@.skip(i as int).first() == evaluations@[i as int]);
            assert(old(triggers)@.skip(i as int).drop_first() =~= old(triggers)@.skip(i + 1));
            assert(evaluations@.skip(i as int).drop_first() =~= evaluations@.skip(i + 1));
        }
        let ghost runs_before = to_run@;
        let active = triggers[i].active;
        match (active, &evaluations[i]) {
            (true, Some(true)) => {
                let name = String::from_str("trigger_").concat(triggers[i].name.as_str());
                let script = triggers[i].script.clone();
                to_run.push(Sequence { name, script });
                proof {
                    assert(to_run@.map_values(|s: Sequence| (s.name@, s.script@))
                        =~= runs_before.map_values(|s: Sequence| (s.name@, s.script@)).push(
                        ("trigger_"@ + old(triggers)@[i as int].name@,
                        old(triggers)@[i as int].script@),
                    ));
                    assert(runs_before.map_values(|s: Sequence| (s.name@, s.script@)).push(
                        ("trigger_"@ + old(triggers)@[i as int].name@,
                        old(triggers)@[i as int].script@),
                    ) =~= runs_before.map_values(|s: Sequence| (s.name@, s.script@)) + seq![
                        ("trigger_"@ + old(triggers)@[i as int].name@,
                        old(triggers)@[i as int].script@),
                    ]);
                }
            },
            (true, None) => {
                let name = triggers[i].name.clone();
                let condition = triggers[i].condition.clone();
                let script = triggers[i].script.clone();
                triggers.set(i, Trigger { name, condition, script, active: false });
                proof {
                    assert(to_run@.map_values(|s: Sequence| (s.name@, s.script@))
                        =~= runs_before.map_values(|s: Sequence| (s.name@, s.script@))
                        + Seq::<(Seq<char>, Seq<char>)>::empty());
                }
            },
            _ => {
                proof {
                    assert(to_run@.map_values(|s: Sequence| (s.name@, s.script@))
                        =~= runs_before.map_values(|s: Sequence| (s.name@, s.script@))
                        + Seq::<(Seq<char>, Seq<char>)>::empty());
                }
            },
        }
        i = i + 1;
    }
    proof {
        assert(spec_due_sequences(
            old(triggers)@.skip(triggers@.len() as int),
            evaluations@.skip(triggers@.len() as int),
        ) =~= Seq::<(Seq<char>, Seq<char>)>::empty());
        assert(to_run@.map_values(|s: Sequence| (s.name@, s.script@)) + Seq::<(
            Seq<char>,
            Seq<char>,
        )>::empty() =~= to_run@.map_values(|s: Sequence| (s.name@, s.script@)));
    }
    to_run
}

} // verus!
