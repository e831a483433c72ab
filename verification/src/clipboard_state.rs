//! The latest clipboard value known to this device, resolved last writer
//! wins by timestamp.

use vstd::prelude::*;

verus! {

/// The current clipboard value with its timestamp and packet ID.
#[derive(Clone, Debug, PartialEq, Eq)]
pub struct ClipboardState {
    pub content: String,
    pub timestamp: i64,
    pub packet_id: String,
}

impl ClipboardState {
    /// The empty state, older than any update.
    pub fn new() -> (r: ClipboardState)
        ensures
            r.content@ == Seq::<char>::empty(),
            r.timestamp == 0,
            r.packet_id@ == Seq::<char>::empty(),
    {
        ClipboardState { content: String::new(), timestamp: 0, packet_id: String::new() }
    }
}

/// The state after an update: a strictly newer timestamp replaces the
/// value, anything else leaves it.
pub open spec fn lww(current: ClipboardState, update: ClipboardState) -> ClipboardState {
    if update.timestamp > current.timestamp {
        update
    } else {
        current
    }
}

/// A copy of the current state.
pub fn get_clipboard_state(state: &ClipboardState) -> (r: ClipboardState)
    ensures
        r == *state,
{
    ClipboardState {
        content: state.content.clone(),
        timestamp: state.timestamp,
        packet_id: state.packet_id.clone(),
    }
}

/// Applies an update if its timestamp is newer than the current one.
pub fn update_clipboard_state(state: &mut ClipboardState, content: String, timestamp: i64, packet_id: String)
    ensures
        *final(state) == lww(*old(state), ClipboardState { content, timestamp, packet_id }),
{
    if timestamp > state.timestamp {
        state.content = content;
        state.timestamp = timestamp;
        state.packet_id = packet_id;
    }
}

/// The timestamp of the state never decreases.
pub proof fn law_timestamp_monotone(current: ClipboardState, update: ClipboardState)
    ensures
        lww(current, update).timestamp >= current.timestamp,
        lww(current, update).timestamp >= update.timestamp || lww(current, update) == current,
{
}

/// Updates with distinct timestamps converge to the same state whatever
/// order they arrive in.
pub proof fn law_updates_commute(current: ClipboardState, a: ClipboardState, b: ClipboardState)
    requires
        a.timestamp != b.timestamp,
    ensures
        lww(lww(current, a), b) == lww(lww(current, b), a),
{
}

/// Applying the same update twice is the same as applying it once.
pub proof fn law_update_idempotent(current: ClipboardState, a: ClipboardState)
    ensures
        lww(lww(current, a), a) == lww(current, a),
{
}

} // verus!
