//! The switchboard's bookkeeping: the address book built by the `Identity`
//! handshake, the per-board deadline timers, and the live set.
//!
//! Receiving work and socket I/O stay outside; this module holds the state
//! and the decisions.  A board joins the live set only through a handshake;
//! a data message merely refreshes its timer, and the deadline sweep removes
//! silent boards from the live set.
use crate::comm::DataMessage;
use crate::comm::PeerAddress;
use crate::kv::StringMap;
use vstd::prelude::*;

verus! {

/// Error returned when a control message cannot be routed.
#[derive(Clone, Copy, Debug, PartialEq, Eq, Structural)]
pub enum CommandError {
    UnknownBoard,
}

/// Abstract contents of the switchboard: the address book, the deadline
/// timers (in milliseconds), and the set of live boards.
#[verifier::ext_equal]
pub struct SwitchboardView {
    pub addresses: Map<Seq<char>, PeerAddress>,
    pub timers: Map<Seq<char>, u64>,
    pub live: Set<Seq<char>>,
}

/// Per-board connection state of the switchboard.
pub struct Switchboard {
    sockets: StringMap<PeerAddress>,
    timers: StringMap<u64>,
    alive: StringMap<()>,
}

impl View for Switchboard {
    type V = SwitchboardView;

    closed spec fn view(&self) -> SwitchboardView {
        SwitchboardView {
            addresses: self.sockets@,
            timers: self.timers@,
            live: self.alive@.dom(),
        }
    }
}

/// The effect of an `Identity` handshake: record the peer, mark the board
/// live, and start its deadline timer.
pub open spec fn spec_identity(
    v: SwitchboardView,
    board: Seq<char>,
    addr: PeerAddress,
    now: u64,
) -> SwitchboardView {
    SwitchboardView {
        addresses: v.addresses.insert(board, addr),
        timers: v.timers.insert(board, now),
        live: v.live.insert(board),
    }
}

/// The effect of hearing a data message from a board: its timer is
/// refreshed if the board ever completed a handshake, and the live set is
/// untouched, so a dead board is not revived.
pub open spec fn spec_heard(v: SwitchboardView, board: Seq<char>, now: u64) -> SwitchboardView {
    if v.timers.contains_key(board) {
        SwitchboardView { timers: v.timers.insert(board, now), ..v }
    } else {
        v
    }
}

/// The live boards whose deadline has passed at `now`.
pub open spec fn spec_expired(v: SwitchboardView, now: u64, time_til_death: u64) -> Set<
    Seq<char>,
> {
    Set::new(
        |k: Seq<char>|
            v.live.contains(k) && v.timers.contains_key(k) && v.timers[k] + time_til_death < now,
    )
}

/// The effect of a deadline sweep: expired boards leave the live set and
/// nothing else changes.
pub open spec fn spec_sweep(v: SwitchboardView, now: u64, time_til_death: u64) -> SwitchboardView {
    SwitchboardView { live: v.live.difference(spec_expired(v, now, time_til_death)), ..v }
}

impl Switchboard {
    /// Well-formedness: the three tables are well-formed and every live
    /// board has a deadline timer.
    pub closed spec fn wf(&self) -> bool {
        &&& self.sockets.wf()
        &&& self.timers.wf()
        &&& self.alive.wf()
        &&& forall|k: Seq<char>| self@.live.contains(k) ==> self@.timers.contains_key(k)
    }

    pub fn new() -> (r: Switchboard)
        ensures
            r.wf(),
            r@.addresses == Map::<Seq<char>, PeerAddress>::empty(),
            r@.timers == Map::<Seq<char>, u64>::empty(),
            r@.live == Set::<Seq<char>>::empty(),
    {
        let r = Switchboard {
            sockets: StringMap::new(),
            timers: StringMap::new(),
            alive: StringMap::new(),
        };
        proof {
            assert(r@.live =~= Set::<Seq<char>>::empty());
        }
        r
    }

    /// Handshake bookkeeping for an `Identity` datagram from `addr`.
    pub fn handle_identity(&mut self, board_id: &String, addr: PeerAddress, now: u64)
        requires
            old(self).wf(),
        ensures
            final(self).wf(),
            final(self)@ == spec_identity(old(self)@, board_id@, addr, now),
    {
        self.sockets.insert(board_id.clone(), addr);
        self.timers.insert(board_id.clone(), now);
        self.alive.insert(board_id.clone(), ());
        proof {
            assert(self@.live =~= old(self)@.live.insert(board_id@));
            assert(self@ =~= spec_identity(old(self)@, board_id@, addr, now));
        }
    }

    /// The datagram returned to a board that completed the handshake.
    pub fn handshake_reply() -> (r: DataMessage)
        ensures
            r matches DataMessage::Identity(id) && id@ == "flight-01"@,
    {
        DataMessage::Identity(crate::fc_board_id())
    }

    /// Timer bookkeeping for a `Sam` or `Bms` datagram.  Returns whether the
    /// board was known; an unknown board is the caller's fatal condition.
    pub fn heard_from(&mut self, board_id: &String, now: u64) -> (known: bool)
        requires
            old(self).wf(),
        ensures
            final(self).wf(),
            known == old(self)@.timers.contains_key(board_id@),
            final(self)@ == spec_heard(old(self)@, board_id@, now),
    {
        if self.timers.contains_key(board_id) {
            self.timers.insert(board_id.clone(), now);
            proof {
                assert(self@ =~= spec_heard(old(self)@, board_id@, now));
            }
            true
        } else {
            proof {
                assert(self@ =~= spec_heard(old(self)@, board_id@, now));
            }
            false
        }
    }

    /// Remove from the live set every board whose deadline has passed, and
    /// return their names.  The first death is the caller's abort trigger.
    pub fn check_deadlines(&mut self, now: u64, time_til_death: u64) -> (dead: Vec<String>)
        requires
            old(self).wf(),
        ensures
            final(self).wf(),
            final(self)@ == spec_sweep(old(self)@, now, time_til_death),
            forall|i: int|
                0 <= i < dead@.len() ==> spec_expired(old(self)@, now, time_til_death).contains(
                    (#[trigger] dead@[i])@,
                ),
            forall|k: Seq<char>|
                spec_expired(old(self)@, now, time_til_death).contains(k) ==> exists|i: int|
                    0 <= i < dead@.len() && (#[trigger] dead@[i])@ == k,
    {
        let ghost v0 = self@;
        let mut expired_boards: Vec<String> = Vec::new();
        let pairs = self.timers.pairs();
        let mut i: usize = 0;
        while i < pairs.len()
            invariant
                i <= pairs@.len(),
                self.wf(),
                self@ == v0,
                forall|j: int|
                    0 <= j < expired_boards@.len() ==> spec_expired(v0, now, time_til_death)
                        .contains((#[trigger] expired_boards@[j])@),
                forall|j: int|
                    0 <= j < i && spec_expired(v0, now, time_til_death).contains(
                        (#[trigger] pairs@[j]).0@,
                    ) ==> exists|l: int|
                        0 <= l < expired_boards@.len() && (#[trigger] expired_boards@[l])@
                            == pairs@[j].0@,
                forall|j: int|
                    0 <= j < pairs@.len() ==> v0.timers.contains_key((#[trigger] pairs@[j]).0@)
                        && v0.timers[pairs@[j].0@] == pairs@[j].1,
                forall|k: Seq<char>|
                    v0.timers.contains_key(k) ==> exists|l: int|
                        0 <= l < pairs@.len() && (#[trigger] pairs@[l]).0@ == k,
            decreases pairs@.len() - i,
        {
            let ghost before = expired_boards@;
            let name = &pairs[i].0;
            let last = pairs[i].1;
            if self.alive.contains_key(name) {
                let deadline = last.checked_add(time_til_death);
                let is_dead = match deadline {
                    Some(d) => d < now,
                    None => false,
                };
                if is_dead {
                    expired_boards.push(name.clone());
                }
            }
            proof {
                assert forall|j: int|
                    0 <= j < i + 1 && spec_expired(v0, now, time_til_death).contains(
                        (#[trigger] pairs@[j]).0@,
                    ) implies exists|l: int|
                    0 <= l < expired_boards@.len() && (#[trigger] expired_boards@[l])@
                        == pairs@[j].0@ by {
                    if j < i {
                        let l0 = choose|l: int|
                            0 <= l < before.len() && (#[trigger] before[l])@ == pairs@[j].0@;
                        assert(expired_boards@[l0]@ == pairs@[j].0@);
                    } else {
                        let l0 = expired_boards@.len() - 1;
                        assert(expired_boards@[l0]@ == pairs@[j].0@);
                    }
                }
            }
            i = i + 1;
        }
        proof {
            assert forall|k: Seq<char>|
                spec_expired(v0, now, time_til_death).contains(k) implies exists|l: int|
                0 <= l < expired_boards@.len() && (#[trigger] expired_boards@[l])@ == k by {
                let j = choose|j: int|
                    0 <= j < pairs@.len() && (#[trigger] pairs@[j]).0@ == k;
            }
        }
        let ghost all_expired = spec_expired(v0, now, time_til_death);
        let mut r: usize = 0;
        while r < expired_boards.len()
            invariant
                r <= expired_boards@.len(),
                self.sockets.wf(),
                self.timers.wf(),
                self.alive.wf(),
                self@.addresses == v0.addresses,
                self@.timers == v0.timers,
                forall|j: int|
                    0 <= j < expired_boards@.len() ==> all_expired.contains(
                        (#[trigger] expired_boards@[j])@,
                    ),
                forall|k: Seq<char>|
                    all_expired.contains(k) ==> exists|l: int|
                        0 <= l < expired_boards@.len() && (#[trigger] expired_boards@[l])@ == k,
                forall|k: Seq<char>|
                    self@.live.contains(k) <==> v0.live.contains(k) && !(exists|l: int|
                        0 <= l < r && (#[trigger] expired_boards@[l])@ == k),
            decreases expired_boards@.len() - r,
        {
            let ghost live_before = self@.live;
            self.alive.remove(&expired_boards[r]);
            proof {
                let key = expired_boards@[r as int]@;
                assert(self@.live =~= live_before.remove(key));
                assert(forall|k: Seq<char>|
                    live_before.contains(k) <==> v0.live.contains(k) && !(exists|l: int|
                        0 <= l < r && (#[trigger] expired_boards@[l])@ == k));
                assert forall|k: Seq<char>|
                    self@.live.contains(k) <==> v0.live.contains(k) && !(exists|l: int|
                        0 <= l < r + 1 && (#[trigger] expired_boards@[l])@ == k) by {
                    if k == expired_boards@[r as int]@ {
                        assert(expired_boards@[r as int]@ == k);
                        assert(!self@.live.contains(k));
                    } else {
                        assert(self@.live.contains(k) == live_before.contains(k));
                        assert forall|l: int|
                            0 <= l < r + 1 && (#[trigger] expired_boards@[l])@ == k implies l
                            < r by {}
                    }
                }
            }
            r = r + 1;
        }
        proof {
            assert(self@.live =~= spec_sweep(v0, now, time_til_death).live);
            assert(self@ =~= spec_sweep(v0, now, time_til_death));
            assert forall|k: Seq<char>| self@.live.contains(k) implies self@.timers.contains_key(
                k,
            ) by {}
        }
        expired_boards
    }

    /// The boards a heartbeat is owed to: those with a known address that
    /// are currently live.
    pub fn heartbeat_targets(&self) -> (targets: Vec<String>)
        requires
            self.wf(),
        ensures
            forall|i: int|
                0 <= i < targets@.len() ==> self@.addresses.contains_key((#[trigger] targets@[i])@)
                    && self@.live.contains(targets@[i]@),
            forall|k: Seq<char>|
                self@.addresses.contains_key(k) && self@.live.contains(k) ==> exists|i: int|
                    0 <= i < targets@.len() && (#[trigger] targets@[i])@ == k,
    {
        let mut targets: Vec<String> = Vec::new();
        let pairs = self.sockets.pairs();
        let mut i: usize = 0;
        while i < pairs.len()
            invariant
                i <= pairs@.len(),
                self.wf(),
                forall|j: int|
                    0 <= j < targets@.len() ==> self@.addresses.contains_key(
                        (#[trigger] targets@[j])@,
                    ) && self@.live.contains(targets@[j]@),
                forall|j: int|
                    0 <= j < i && self@.live.contains((#[trigger] pairs@[j]).0@) ==> exists|l: int|
                        0 <= l < targets@.len() && (#[trigger] targets@[l])@ == pairs@[j].0@,
                forall|j: int|
                    0 <= j < pairs@.len() ==> self@.addresses.contains_key(
                        (#[trigger] pairs@[j]).0@,
                    ),
                forall|k: Seq<char>|
                    self@.addresses.contains_key(k) ==> exists|l: int|
                        0 <= l < pairs@.len() && (#[trigger] pairs@[l]).0@ == k,
            decreases pairs@.len() - i,
        {
            let ghost before = targets@;
            let name = &pairs[i].0;
            if self.alive.contains_key(name) {
                targets.push(name.clone());
            }
            proof {
                assert forall|j: int|
                    0 <= j < i + 1 && self@.live.contains((#[trigger] pairs@[j]).0@) implies exists|l: int|
                    0 <= l < targets@.len() && (#[trigger] targets@[l])@ == pairs@[j].0@ by {
                    if j < i {
                        let l0 = choose|l: int|
                            0 <= l < before.len() && (#[trigger] before[l])@ == pairs@[j].0@;
                        assert(targets@[l0]@ == pairs@[j].0@);
                    } else {
                        let l0 = targets@.len() - 1;
                        assert(targets@[l0]@ == pairs@[j].0@);
                    }
                }
            }
            i = i + 1;
        }
        proof {
            assert forall|k: Seq<char>|
                self@.addresses.contains_key(k) && self@.live.contains(k) implies exists|l: int|
                0 <= l < targets@.len() && (#[trigger] targets@[l])@ == k by {
                let j = choose|j: int| 0 <= j < pairs@.len() && (#[trigger] pairs@[j]).0@ == k;
            }
        }
        targets
    }

    /// Where to send a control message for a board: the handshake address's
    /// host, on the boards' command port.  An unknown board is an error
    /// returned to the caller, never a fatal condition.
    pub fn route_command(&self, board_id: &String) -> (r: Result<PeerAddress, CommandError>)
        requires
            self.wf(),
        ensures
            match r {
                Ok(addr) => self@.addresses.contains_key(board_id@) && addr == (PeerAddress {
                    ip: self@.addresses[board_id@].ip,
                    port: crate::SAM_PORT,
                }),
                Err(e) => !self@.addresses.contains_key(board_id@) && e
                    == CommandError::UnknownBoard,
            },
    {
        match self.sockets.get(board_id) {
            Some(addr) => Ok(PeerAddress { ip: addr.ip, port: crate::SAM_PORT }),
            None => Err(CommandError::UnknownBoard),
        }
    }
}

/// A second `Identity` from the same peer leaves the address book and the
/// live set exactly as the first left them; only the deadline timer is
/// refreshed to the later time.
pub proof fn lemma_identity_idempotent(
    v: SwitchboardView,
    board: Seq<char>,
    addr: PeerAddress,
    n1: u64,
    n2: u64,
)
    ensures
        spec_identity(spec_identity(v, board, addr, n1), board, addr, n2) == spec_identity(
            v,
            board,
            addr,
            n2,
        ),
{
    assert(spec_identity(spec_identity(v, board, addr, n1), board, addr, n2) =~= spec_identity(
        v,
        board,
        addr,
        n2,
    ));
}

/// Liveness monotonicity: a board outside the live set stays outside under
/// both a data-message refresh and a deadline sweep; only an `Identity`
/// handshake puts a board into the live set.
pub proof fn lemma_liveness_monotonic(
    v: SwitchboardView,
    board: Seq<char>,
    k: Seq<char>,
    now: u64,
    time_til_death: u64,
)
    requires
        !v.live.contains(k),
    ensures
        !spec_heard(v, board, now).live.contains(k),
        !spec_sweep(v, now, time_til_death).live.contains(k),
{
}

} // verus!
