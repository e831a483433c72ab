//! Platform clipboard decisions: what a desktop poll or an Android hand-off
//! contributes to synchronization. Synchronization carries text only: a
//! clipboard holding an image, a file or nothing contributes nothing.
//! Reading and writing the clipboard itself stays with the application.

use vstd::prelude::*;
use vstd::string::StrSliceExecFns;
use crate::api::MAX_CLIPBOARD_BYTES;
use crate::clipboard_state::{lww, update_clipboard_state, ClipboardState};
use crate::sync_engine::{content_hash, emit_event, EventSink, SyncEngine, SyncEvent};

verus! {

/// A local clipboard value to broadcast under a fresh packet ID.
#[derive(Clone, Debug, PartialEq, Eq)]
pub struct Broadcast {
    pub packet_id: String,
    pub content: String,
}

/// `String::from_utf8`: the text when the bytes are valid UTF-8.
#[verifier::external_body]
fn string_from_utf8(bytes: Vec<u8>) -> (r: Option<String>)
    ensures
        r is Some <==> vstd::utf8::valid_utf8(bytes@),
        r is Some ==> r->0@ == vstd::utf8::decode_utf8(bytes@),
{
    String::from_utf8(bytes).ok()
}

/// What a desktop clipboard poll found.
#[derive(Clone, Debug, PartialEq, Eq)]
pub enum Observed {
    /// The clipboard holds text.
    Text { content: String },
    /// The clipboard holds no text (an image, a file, or nothing).
    NotText,
}

/// The text an observation contributes to synchronization: non-empty text;
/// nothing for empty text or a clipboard without text.
pub open spec fn observed_content(o: Observed) -> Option<Seq<char>> {
    match o {
        Observed::Text { content } => if content@.len() > 0 {
            Some(content@)
        } else {
            None
        },
        Observed::NotText => None,
    }
}

/// The text of a desktop observation, when it contributes one.
pub fn observed_text(o: Observed) -> (r: Option<String>)
    ensures
        r is Some <==> observed_content(o) is Some,
        r is Some ==> r->0@ == observed_content(o)->0,
{
    match o {
        Observed::Text { content } => {
            if content.as_str().is_empty() {
                None
            } else {
                Some(content)
            }
        },
        Observed::NotText => None,
    }
}

/// Records a new local clipboard value: when it differs from the last
/// synchronized content it becomes the clipboard state, is reported to the
/// user interface as a local update, and is returned with its packet ID for
/// broadcast.
pub fn record_local_clipboard(
    engine: &mut SyncEngine,
    clipboard: &mut ClipboardState,
    sink: &mut EventSink,
    content: String,
    notify: bool,
) -> (r: Option<Broadcast>)
    requires
        old(engine).wf(),
    ensures
        final(engine).wf(),
        final(sink).attached == old(sink).attached,
        r is Some <==> content_hash(content@) != old(engine).view().last_synced_hash,
        r is None ==> final(engine).view() == old(engine).view() && *final(clipboard) == *old(
            clipboard,
        ) && final(sink).events@ == old(sink).events@,
        r matches Some(b) ==> b.content == content && final(engine).view() == crate::sync_engine::remember(
            crate::sync_engine::SyncEngineView {
                last_synced_hash: content_hash(content@),
                ..old(engine).view()
            },
            b.packet_id@,
        ),
        r matches Some(b) ==> exists|t: i64|
            t >= 0 && *final(clipboard) == #[trigger] lww(
                *old(clipboard),
                ClipboardState { content: b.content, timestamp: t, packet_id: b.packet_id },
            ),
        r matches Some(b) ==> *final(clipboard) == lww(
            *old(clipboard),
            ClipboardState {
                content: b.content,
                timestamp: crate::sync_engine::local_stamp(final(engine).clock_reading()),
                packet_id: b.packet_id,
            },
        ),
        r is Some && notify && old(sink).attached ==> final(sink).events@ == old(sink).events@.push(
            SyncEvent::ClipboardUpdated { content: content, is_local: true },
        ),
        !(r is Some && notify && old(sink).attached) ==> final(sink).events@ == old(sink).events@,
{
    let (is_new, packet_id, timestamp) = engine.process_local_change(content.as_str());
    if !is_new {
        return None;
    }
    update_clipboard_state(clipboard, content.clone(), timestamp, packet_id.clone());
    if notify {
        emit_event(sink, SyncEvent::ClipboardUpdated { content: content.clone(), is_local: true });
    }
    Some(Broadcast { packet_id, content })
}

/// One desktop clipboard poll: a value that differs from the last one
/// polled (and is not empty) becomes the last polled value and is recorded
/// as a local change, reported to the user interface. Returns what to
/// broadcast.
pub fn desktop_monitor_step(
    engine: &mut SyncEngine,
    clipboard: &mut ClipboardState,
    sink: &mut EventSink,
    last_content: &mut String,
    observed: Observed,
) -> (r: Option<Broadcast>)
    requires
        old(engine).wf(),
    ensures
        final(engine).wf(),
        final(sink).attached == old(sink).attached,
        observed_content(observed) is None || observed_content(observed) == Some(old(last_content)@)
            ==> r is None && final(last_content)@ == old(last_content)@ && final(engine).view()
            == old(engine).view(),
        observed_content(observed) is Some && observed_content(observed)->0 != old(last_content)@ ==> {
            &&& final(last_content)@ == observed_content(observed)->0
            &&& (r is Some <==> content_hash(observed_content(observed)->0) != old(
                engine,
            ).view().last_synced_hash)
            &&& r matches Some(b) ==> b.content@ == observed_content(observed)->0
        },
        r is None ==> *final(clipboard) == *old(clipboard) && final(sink).events@ == old(sink).events@,
        r matches Some(b) ==> exists|t: i64|
            t >= 0 && *final(clipboard) == #[trigger] lww(
                *old(clipboard),
                ClipboardState { content: b.content, timestamp: t, packet_id: b.packet_id },
            ),
        r matches Some(b) ==> *final(clipboard) == lww(
            *old(clipboard),
            ClipboardState {
                content: b.content,
                timestamp: crate::sync_engine::local_stamp(final(engine).clock_reading()),
                packet_id: b.packet_id,
            },
        ),
        r matches Some(b) ==> (old(sink).attached ==> final(sink).events@ == old(sink).events@.push(
            SyncEvent::ClipboardUpdated { content: b.content, is_local: true },
        )),
        r is Some && !old(sink).attached ==> final(sink).events@ == old(sink).events@,
{
    let ghost oc = observed_content(observed);
    match observed_text(observed) {
        None => None,
        Some(content) => {
            if content == *last_content {
                return None;
            }
            *last_content = content.clone();
            record_local_clipboard(engine, clipboard, sink, content, true)
        },
    }
}

/// Bytes handed over by the Android clipboard bridge: text within the size
/// limit that is valid UTF-8 and not empty is recorded as a local change.
/// Returns what to broadcast.
pub fn android_received_clip(
    engine: &mut SyncEngine,
    clipboard: &mut ClipboardState,
    sink: &mut EventSink,
    bytes: Vec<u8>,
) -> (r: Option<Broadcast>)
    requires
        old(engine).wf(),
    ensures
        final(engine).wf(),
        final(sink).events@ == old(sink).events@,
        (bytes@.len() > MAX_CLIPBOARD_BYTES || !vstd::utf8::valid_utf8(bytes@) || bytes@.len() == 0)
            ==> r is None && final(engine).view() == old(engine).view(),
        r matches Some(b) ==> vstd::utf8::valid_utf8(bytes@) && b.content@ == vstd::utf8::decode_utf8(bytes@)
            && content_hash(b.content@) != old(engine).view().last_synced_hash,
        (bytes@.len() <= MAX_CLIPBOARD_BYTES && vstd::utf8::valid_utf8(bytes@) && bytes@.len() > 0
            && content_hash(vstd::utf8::decode_utf8(bytes@)) != old(engine).view().last_synced_hash)
            ==> r is Some,
        r is None ==> *final(clipboard) == *old(clipboard) && final(engine).view() == old(engine).view(),
        r matches Some(b) ==> exists|t: i64|
            t >= 0 && *final(clipboard) == #[trigger] lww(
                *old(clipboard),
                ClipboardState { content: b.content, timestamp: t, packet_id: b.packet_id },
            ),
        r matches Some(b) ==> *final(clipboard) == lww(
            *old(clipboard),
            ClipboardState {
                content: b.content,
                timestamp: crate::sync_engine::local_stamp(final(engine).clock_reading()),
                packet_id: b.packet_id,
            },
        ),
        r matches Some(b) ==> final(engine).view() == crate::sync_engine::remember(
            crate::sync_engine::SyncEngineView {
                last_synced_hash: content_hash(b.content@),
                ..old(engine).view()
            },
            b.packet_id@,
        ),
{
    if bytes.len() > MAX_CLIPBOARD_BYTES {
        return None;
    }
    let ghost b = bytes@;
    match string_from_utf8(bytes) {
        None => None,
        Some(content) => {
            if content.as_str().is_empty() {
                proof {
                    if b.len() > 0 {
                        vstd::utf8::decode_utf8_encode_utf8(b);
                    }
                }
                return None;
            }
            proof {
                if b.len() == 0 {
                    assert(vstd::utf8::decode_utf8(b) =~= Seq::<char>::empty());
                }
            }
            record_local_clipboard(engine, clipboard, sink, content, false)
        },
    }
}

/// Which clipboard task a platform runs while synchronizing.
#[derive(Clone, Copy, Debug, PartialEq, Eq)]
pub enum ClipboardTask {
    /// Poll the desktop clipboard.
    DesktopMonitor,
    /// Accept values that the Android activity hands over.
    AndroidReceiver,
    /// No clipboard task (iOS/iPadOS syncs in the foreground only).
    NoTask,
}

/// The clipboard task of a platform name.
pub open spec fn clipboard_task_of(platform: Seq<char>) -> ClipboardTask {
    if platform == "linux"@ || platform == "windows"@ || platform == "macos"@ {
        ClipboardTask::DesktopMonitor
    } else if platform == "android"@ {
        ClipboardTask::AndroidReceiver
    } else {
        ClipboardTask::NoTask
    }
}

/// Chooses the clipboard task for `platform`: the desktop monitor on Linux,
/// Windows and macOS, the local receiver on Android, none elsewhere.
pub fn clipboard_task_for(platform: &str) -> (r: ClipboardTask)
    ensures
        r == clipboard_task_of(platform@),
{
    let p = String::from_str(platform);
    if p == String::from_str("linux") || p == String::from_str("windows") || p == String::from_str("macos") {
        ClipboardTask::DesktopMonitor
    } else if p == String::from_str("android") {
        ClipboardTask::AndroidReceiver
    } else {
        ClipboardTask::NoTask
    }
}

/// The status line reported when synchronization starts.
pub fn sync_started_message(is_ios: bool, bound_port: u16) -> (r: String)
    ensures
        is_ios ==> r@ == "AirBoard networking started in iPadOS/iOS client mode. Pair from this device using the other device's LAN IP."@,
        !is_ios ==> r@ == "AirBoard is listening for trusted peers on TCP "@ + crate::text::dec_digits(
            bound_port as nat,
        ) + " and discovery on UDP 45454."@,
{
    if is_ios {
        String::from_str(
            "AirBoard networking started in iPadOS/iOS client mode. Pair from this device using the other device's LAN IP.",
        )
    } else {
        let mut m = String::from_str("AirBoard is listening for trusted peers on TCP ");
        crate::text::push_decimal(&mut m, bound_port as u64);
        m.append(" and discovery on UDP 45454.");
        m
    }
}

} // verus!
