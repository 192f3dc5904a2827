//! The telemetry forwarder's cadence: when a vehicle-state snapshot is owed
//! to the control server.
//!
//! Serialization and the datagram send live in the shell; the agent only
//! decides, from the clock, whether a send is due, and reschedules the same
//! way whether or not the send succeeded.
use vstd::prelude::*;

verus! {

/// Decides when vehicle-state snapshots are sent.
#[derive(Clone, Copy, Debug, PartialEq, Eq, Structural)]
pub struct ForwardingAgent {
    /// Milliseconds between sends.
    pub frequency: u64,
    /// When the last send happened, in milliseconds.
    pub last_sent: u64,
}

/// Whether a snapshot is owed at `now`: a full period has passed since the
/// last send.
pub open spec fn spec_due(agent: ForwardingAgent, now: u64) -> bool {
    agent.last_sent + agent.frequency <= now
}

impl ForwardingAgent {
    /// A fresh agent on the fixed ten-millisecond cadence, as if it had
    /// just sent at time zero.
    pub fn new() -> (r: ForwardingAgent)
        ensures
            r.frequency == 10,
            r.last_sent == 0,
    {
        ForwardingAgent { frequency: 10, last_sent: 0 }
    }

    /// One tick: whether to send a snapshot now.  When a send is due the
    /// clock advances whatever becomes of the send, so a failed or dropped
    /// datagram never shifts the cadence; the next tick supersedes it.
    pub fn tick(&mut self, now: u64) -> (send: bool)
        ensures
            send == spec_due(*old(self), now),
            final(self).frequency == old(self).frequency,
            final(self).last_sent == if send {
                now
            } else {
                old(self).last_sent
            },
    {
        let due = match self.last_sent.checked_add(self.frequency) {
            Some(next_at) => next_at <= now,
            None => false,
        };
        if due {
            self.last_sent = now;
        }
        due
    }
}

/// Forwarder cadence: sends fall due one period apart independent of
/// whether any send succeeds.  After a send at `now`, the next is owed
/// exactly when a full period has passed, and a tick that sends leaves the
/// agent the same whether the shell's send then succeeds or fails, since
/// the agent never hears of the outcome.
pub proof fn lemma_forwarder_cadence(agent: ForwardingAgent, now: u64, later: u64)
    requires
        spec_due(agent, now),
    ensures
        ({
            let after = ForwardingAgent { last_sent: now, ..agent };
            spec_due(after, later) <==> now + agent.frequency <= later
        }),
{
}

} // verus!
