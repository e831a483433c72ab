//! Foreground and background transitions of the app.
//!
//! The application owns the background tasks; these functions decide what
//! it must do with them on each transition.

use vstd::prelude::*;

verus! {

/// The TCP port peers connect to.
pub const PEER_PORT: u16 = 45455;

/// Whether this device only makes outgoing connections (iOS/iPadOS), and
/// whether the app is currently active.
pub struct Lifecycle {
    pub is_client_only: bool,
    pub is_active: bool,
}

impl Lifecycle {
    /// The state at start: active, not client-only.
    pub fn new() -> (r: Lifecycle)
        ensures
            !r.is_client_only,
            r.is_active,
    {
        Lifecycle { is_client_only: false, is_active: true }
    }
}

/// What the application must do when it comes to the foreground.
#[derive(Clone, Debug, PartialEq, Eq)]
pub enum ForegroundAction {
    /// The app was already active: nothing to do.
    AlreadyActive,
    /// Abort stale tasks, restart discovery announcing `platform` with the
    /// peer port `ws_port`, restart listening, heartbeat and reconnection,
    /// then reconnect at once.
    Restart { platform: String, ws_port: u16 },
}

/// The platform a restarted announcer reports.
pub open spec fn restart_platform(client_only: bool, is_android: bool) -> Seq<char> {
    if client_only {
        "ios"@
    } else if is_android {
        "android"@
    } else {
        "linux"@
    }
}

/// Records whether this device is client-only.
pub fn set_client_only(lifecycle: &mut Lifecycle, client_only: bool)
    ensures
        final(lifecycle).is_client_only == client_only,
        final(lifecycle).is_active == old(lifecycle).is_active,
{
    lifecycle.is_client_only = client_only;
}

/// The app came to the foreground; `is_android` tells the build target.
pub fn handle_app_foreground(lifecycle: &mut Lifecycle, is_android: bool) -> (r: ForegroundAction)
    ensures
        final(lifecycle).is_active,
        final(lifecycle).is_client_only == old(lifecycle).is_client_only,
        (!(r is AlreadyActive), final(lifecycle).is_active) == foreground_step(old(lifecycle).is_active),
        old(lifecycle).is_active ==> r is AlreadyActive,
        !old(lifecycle).is_active ==> (r matches ForegroundAction::Restart { platform, ws_port }
            && platform@ == restart_platform(old(lifecycle).is_client_only, is_android) && ws_port
            == (if old(lifecycle).is_client_only { 0 } else { PEER_PORT })),
{
    if lifecycle.is_active {
        return ForegroundAction::AlreadyActive;
    }
    lifecycle.is_active = true;
    let platform = if lifecycle.is_client_only {
        String::from_str("ios")
    } else if is_android {
        String::from_str("android")
    } else {
        String::from_str("linux")
    };
    let ws_port = if lifecycle.is_client_only {
        0
    } else {
        PEER_PORT
    };
    ForegroundAction::Restart { platform, ws_port }
}

/// The app went to the background. Returns whether the application must
/// abort its tasks and close every peer connection (false when it was
/// already paused).
pub fn handle_app_background(lifecycle: &mut Lifecycle) -> (r: bool)
    ensures
        !final(lifecycle).is_active,
        final(lifecycle).is_client_only == old(lifecycle).is_client_only,
        r == old(lifecycle).is_active,
        (r, final(lifecycle).is_active) == background_step(old(lifecycle).is_active),
{
    if !lifecycle.is_active {
        return false;
    }
    lifecycle.is_active = false;
    true
}

/// Whether a background transition from `active` stops the tasks, and the
/// activity after it.
pub open spec fn background_step(active: bool) -> (bool, bool) {
    (active, false)
}

/// Whether a foreground transition from `active` restarts the tasks, and
/// the activity after it.
pub open spec fn foreground_step(active: bool) -> (bool, bool) {
    (!active, true)
}

/// Repeated transitions are idempotent: a second background (or
/// foreground) in a row does nothing, and every pause is undone by exactly
/// one restart at the next foreground.
pub proof fn law_transitions_idempotent(active: bool)
    ensures
        !background_step(background_step(active).1).0,
        !foreground_step(foreground_step(active).1).0,
        foreground_step(background_step(active).1).0,
        background_step(foreground_step(active).1).0,
{
}

} // verus!
