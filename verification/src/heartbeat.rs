//! The periodic liveness sweep over discovered peers.
//!
//! The application sends the encrypted heartbeats and closes the
//! connections of the peers that this sweep reports.

use vstd::prelude::*;
use crate::connection_registry::{prune_inactive_peers, update_connection_status, PeerRegistry};
use crate::sync_engine::{emit_event, EventSink, SyncEvent};

verus! {

/// Peers silent for longer than this many seconds are dropped.
pub const HEARTBEAT_TIMEOUT_SECS: u64 = 30;

/// The status message reported for a peer that timed out.
pub open spec fn timeout_message(id: Seq<char>) -> Seq<char> {
    "Peer timed out: "@ + id
}

/// Drops the peers that stopped announcing themselves, marks them
/// disconnected and reports each one; returns their device IDs.
pub fn prune_timed_out_peers(registry: &mut PeerRegistry, sink: &mut EventSink) -> (r: Vec<String>)
    requires
        old(registry).wf(),
    ensures
        final(registry).wf(),
        final(sink).attached == old(sink).attached,
        exists|now: u64|
            #[trigger] crate::connection_registry::pruned_at(
                old(registry).records(),
                final(registry).records(),
                r@,
                now,
                HEARTBEAT_TIMEOUT_SECS,
            ),
        crate::connection_registry::pruned_at(
            old(registry).records(),
            final(registry).records(),
            r@,
            crate::connection_registry::raised(
                old(registry).records(),
                (final(registry).clock_reading() / 1000) as u64,
            ),
            HEARTBEAT_TIMEOUT_SECS,
        ),
        crate::connection_registry::texts(r@).no_duplicates(),
        !old(sink).attached ==> final(sink).events@ == old(sink).events@,
        old(sink).attached ==> final(sink).events@.len() == old(sink).events@.len() + r@.len(),
        old(sink).attached ==> forall|i: int|
            0 <= i < r@.len() ==> (#[trigger] final(sink).events@[old(sink).events@.len() + i] matches SyncEvent::ConnectionStatus {
                connected,
                message,
            } && !connected && message@ == timeout_message(r@[i]@)),
{
    let ghost old_reg = *old(registry);
    let pruned = prune_inactive_peers(registry, HEARTBEAT_TIMEOUT_SECS);
    let ghost after_prune = registry.records();
    let ghost after_clock = registry.clock_reading();
    proof {
        {
            let now = choose|now: u64|
                #[trigger] crate::connection_registry::pruned_at(
                    old_reg.records(),
                    registry.records(),
                    pruned@,
                    now,
                    HEARTBEAT_TIMEOUT_SECS,
                );
            crate::connection_registry::lemma_pruned_ids_absent(old_reg, *registry, pruned@, now, HEARTBEAT_TIMEOUT_SECS);
        }
    }
    let ghost base = sink.events@;
    let mut i: usize = 0;
    while i < pruned.len()
        invariant
            i <= pruned.len(),
            registry.wf(),
            registry.records() == after_prune,
            registry.clock_reading() == after_clock,
            forall|k: int| 0 <= k < pruned@.len() ==> !registry@.contains_key(#[trigger] pruned@[k]@),
            sink.attached == old(sink).attached,
            !sink.attached ==> sink.events@ == base,
            sink.attached ==> sink.events@.len() == base.len() + i,
            sink.attached ==> sink.events@.subrange(0, base.len() as int) == base,
            sink.attached ==> forall|k: int|
                0 <= k < i ==> (#[trigger] sink.events@[base.len() + k] matches SyncEvent::ConnectionStatus {
                    connected,
                    message,
                } && !connected && message@ == timeout_message(pruned@[k]@)),
        decreases pruned.len() - i,
    {
        let id = &pruned[i];
        proof {
            assert(!registry@.contains_key(pruned@[i as int]@));
        }
        update_connection_status(registry, id.as_str(), "Disconnected");
        let mut message = String::from_str("Peer timed out: ");
        message.append(id.as_str());
        let ghost prev_events = sink.events@;
        emit_event(sink, SyncEvent::ConnectionStatus { connected: false, message });
        proof {
            if sink.attached {
                assert(sink.events@ == prev_events.push(sink.events@[base.len() + i]));
                assert(sink.events@.subrange(0, base.len() as int) =~= prev_events.subrange(0, base.len() as int));
                assert forall|k: int| 0 <= k < i + 1 implies (#[trigger] sink.events@[base.len() + k] matches SyncEvent::ConnectionStatus {
                    connected,
                    message,
                } && !connected && message@ == timeout_message(pruned@[k]@)) by {
                    if k < i {
                        assert(sink.events@[base.len() + k] == prev_events[base.len() + k]);
                    }
                }
            }
        }
        i = i + 1;
    }
    pruned
}

} // verus!
