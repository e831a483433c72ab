//! The plain clipboard-update message.

use vstd::prelude::*;
use crate::sync_engine::unix_time_millis;

verus! {

/// A clipboard update as announced to peers.
#[derive(Clone, Debug, PartialEq, Eq)]
pub struct ClipboardUpdate {
    pub msg_type: String,
    pub device_id: String,
    pub content: String,
    pub timestamp: i64,
}

impl ClipboardUpdate {
    /// An update of `content` from `device_id`, stamped with the current
    /// time in seconds since the Unix epoch.
    pub fn new(device_id: String, content: String) -> (r: ClipboardUpdate)
        ensures
            r.msg_type@ == "clipboard_update"@,
            r.device_id == device_id,
            r.content == content,
            r.timestamp >= 0,
    {
        let secs = unix_time_millis() / 1000;
        ClipboardUpdate {
            msg_type: String::from_str("clipboard_update"),
            device_id,
            content,
            timestamp: secs as i64,
        }
    }
}

} // verus!
