//! Clipboard deduplication: the hash of the last synchronized content and a
//! bounded cache of packet IDs already seen.

use vstd::prelude::*;
use vstd::string::StringSliceAdditionalSpecFns;
use crate::crypto::{compute_hash, hex_text, sha256_digest};

verus! {

/// How many packet IDs the deduplication cache remembers.
pub const PACKET_CACHE_CAPACITY: usize = 4096;

/// An event reported to the user interface.
#[derive(Clone, Debug, PartialEq, Eq)]
pub enum SyncEvent {
    ClipboardUpdated { content: String, is_local: bool },
    ConnectionStatus { connected: bool, message: String },
    Error { message: String },
}

/// The user interface's event stream: while attached, every emitted event
/// is queued for delivery in order.
pub struct EventSink {
    pub attached: bool,
    pub events: Vec<SyncEvent>,
}

impl EventSink {
    /// A sink that nobody listens to yet.
    pub fn new() -> (r: EventSink)
        ensures
            !r.attached,
            r.events@ == Seq::<SyncEvent>::empty(),
    {
        EventSink { attached: false, events: Vec::new() }
    }
}

/// The event stream after reporting an error with text `text`: one more
/// event while the user interface listens, none otherwise.
pub open spec fn error_reported(before: Seq<SyncEvent>, after: Seq<SyncEvent>, attached: bool, text: Seq<char>) -> bool {
    if attached {
        &&& after.len() == before.len() + 1
        &&& after.drop_last() == before
        &&& after.last() matches SyncEvent::Error { message }
        &&& message@ == text
    } else {
        after == before
    }
}

/// Delivers `event` if the user interface is listening.
pub fn emit_event(sink: &mut EventSink, event: SyncEvent)
    ensures
        final(sink).attached == old(sink).attached,
        old(sink).attached ==> final(sink).events@ == old(sink).events@.push(event),
        !old(sink).attached ==> final(sink).events@ == old(sink).events@,
{
    if sink.attached {
        sink.events.push(event);
    }
}

/// The device ID, settable once.
pub struct DeviceIdCell {
    pub value: Option<String>,
}

impl DeviceIdCell {
    pub fn new() -> (r: DeviceIdCell)
        ensures
            r.value is None,
    {
        DeviceIdCell { value: None }
    }
}

/// Sets the device ID unless it was already set.
pub fn set_my_device_id(cell: &mut DeviceIdCell, id: String)
    ensures
        old(cell).value is None ==> final(cell).value == Some(id),
        old(cell).value is Some ==> final(cell).value == old(cell).value,
{
    if cell.value.is_none() {
        cell.value = Some(id);
    }
}

/// `uuid::Uuid::new_v4().to_string()`: a fresh random packet ID in the
/// 36-character hyphenated form that uuid's `Display` writes; its value is
/// random and not stated.
#[verifier::external_body]
pub(crate) fn new_packet_id() -> (r: String)
    ensures
        r@.len() == 36,
{
    uuid::Uuid::new_v4().to_string()
}

/// `SystemTime::now()` since the Unix epoch, in milliseconds (zero before
/// the epoch); nothing is stated of its value.
#[verifier::external_body]
pub(crate) fn unix_time_millis() -> (r: u64)
{
    std::time::SystemTime::now().duration_since(std::time::UNIX_EPOCH).unwrap_or_default().as_millis() as u64
}

/// Reads the clock (milliseconds since the Unix epoch) and keeps the reading
/// in `clock`, so that contracts can speak of the time an operation used.
pub(crate) fn read_clock(clock: &mut Ghost<u64>) -> (r: u64)
    ensures
        final(clock)@ == r,
{
    let r = unix_time_millis();
    proof {
        *clock = Ghost(r);
    }
    r
}

/// The abstract state of the engine.
pub struct SyncEngineView {
    pub device_id: Seq<char>,
    pub last_synced_hash: Seq<char>,
    pub seen: Set<Seq<char>>,
    pub order: Seq<Seq<char>>,
}

/// The engine after it remembers `packet_id`: the ID joins the set and the
/// back of the queue, and when the queue outgrows the capacity its oldest ID
/// leaves both.
pub open spec fn remember(v: SyncEngineView, packet_id: Seq<char>) -> SyncEngineView {
    let seen = v.seen.insert(packet_id);
    let order = v.order.push(packet_id);
    if order.len() > PACKET_CACHE_CAPACITY {
        SyncEngineView { seen: seen.remove(order[0]), order: order.drop_first(), ..v }
    } else {
        SyncEngineView { seen, order, ..v }
    }
}

/// The engine after an incoming packet with `packet_id`, and whether the
/// packet is new.
pub open spec fn incoming_step(v: SyncEngineView, packet_id: Seq<char>) -> (bool, SyncEngineView) {
    if v.seen.contains(packet_id) {
        (false, v)
    } else {
        (true, remember(v, packet_id))
    }
}

/// The engine after a local clipboard change whose content hashes to
/// `hash`, and whether the change is new.
pub open spec fn local_step(v: SyncEngineView, hash: Seq<char>, packet_id: Seq<char>) -> (
    bool,
    SyncEngineView,
) {
    if hash == v.last_synced_hash {
        (false, v)
    } else {
        (true, remember(SyncEngineView { last_synced_hash: hash, ..v }, packet_id))
    }
}

/// The timestamp of a local change read at clock time `millis`: the
/// milliseconds since the Unix epoch, capped at `i64::MAX`.
pub open spec fn local_stamp(millis: u64) -> i64 {
    if millis <= i64::MAX as u64 { millis as i64 } else { i64::MAX }
}

/// The content hash of clipboard text.
pub open spec fn content_hash(content: Seq<char>) -> Seq<char> {
    hex_text(sha256_digest(vstd::utf8::encode_utf8(content)))
}

/// Deduplication state of the clipboard synchronization.
pub struct SyncEngine {
    pub device_id: String,
    last_synced_hash: String,
    seen_packet_ids: Vec<String>,
    packet_order: Vec<String>,
    clock: Ghost<u64>,
}

pub open spec fn string_views(v: Seq<String>) -> Seq<Seq<char>> {
    v.map_values(|s: String| s@)
}

fn find_string(v: &Vec<String>, s: &String) -> (r: Option<usize>)
    ensures
        r matches Some(i) ==> i < v.len() && v@[i as int]@ == s@,
        r is None ==> !string_views(v@).contains(s@),
{
    let mut i: usize = 0;
    while i < v.len()
        invariant
            i <= v.len(),
            forall|j: int| 0 <= j < i ==> v@[j]@ != s@,
        decreases v.len() - i,
    {
        if v[i] == *s {
            return Some(i);
        }
        i = i + 1;
    }
    None
}

impl SyncEngine {
    /// The cache holds each ID once in its set, knows only IDs that are
    /// queued, and never queues more than the capacity.
    pub closed spec fn wf(&self) -> bool {
        &&& string_views(self.seen_packet_ids@).no_duplicates()
        &&& string_views(self.seen_packet_ids@).to_set().subset_of(
            string_views(self.packet_order@).to_set(),
        )
        &&& self.packet_order@.len() <= PACKET_CACHE_CAPACITY
    }

    pub closed spec fn view(&self) -> SyncEngineView {
        SyncEngineView {
            device_id: self.device_id@,
            last_synced_hash: self.last_synced_hash@,
            seen: string_views(self.seen_packet_ids@).to_set(),
            order: string_views(self.packet_order@),
        }
    }

    /// The clock reading, in milliseconds since the Unix epoch, taken by the
    /// latest call of `process_local_change`.
    pub closed spec fn clock_reading(&self) -> u64 {
        self.clock@
    }

    /// A fresh engine for `device_id` that has seen nothing.
    pub fn new(device_id: String) -> (r: SyncEngine)
        ensures
            r.wf(),
            r.view() == (SyncEngineView {
                device_id: device_id@,
                last_synced_hash: Seq::empty(),
                seen: Set::empty(),
                order: Seq::empty(),
            }),
    {
        let r = SyncEngine {
            device_id,
            last_synced_hash: String::new(),
            seen_packet_ids: Vec::new(),
            packet_order: Vec::new(),
            clock: Ghost(0),
        };
        assert(string_views(r.seen_packet_ids@) =~= Seq::<Seq<char>>::empty());
        assert(string_views(r.packet_order@) =~= Seq::<Seq<char>>::empty());
        assert(r.view().seen =~= Set::<Seq<char>>::empty());
        r
    }

    /// This device's ID.
    pub fn id(&self) -> (r: &String)
        ensures
            r@ == self.view().device_id,
    {
        &self.device_id
    }

    fn remember_packet(&mut self, packet_id: String)
        requires
            old(self).wf(),
        ensures
            final(self).wf(),
            final(self).view() == remember(old(self).view(), packet_id@),
            final(self).clock_reading() == old(self).clock_reading(),
    {
        let ghost v0 = self.view();
        let ghost pid = packet_id@;
        let copy = packet_id.clone();
        let ghost old_seen = string_views(self.seen_packet_ids@);
        match find_string(&self.seen_packet_ids, &packet_id) {
            Some(i) => {
                proof {
                    assert(old_seen[i as int] == pid);
                    assert(old_seen.contains(pid));
                    assert(old_seen.to_set().insert(pid) =~= old_seen.to_set());
                }
            },
            None => {
                self.seen_packet_ids.push(packet_id);
                proof {
                    assert(string_views(self.seen_packet_ids@) =~= old_seen.push(pid));
                    old_seen.lemma_push_to_set_commute(pid);
                    let s2 = old_seen.push(pid);
                    assert forall|a: int, b: int|
                        0 <= a < s2.len() && 0 <= b < s2.len() && a != b implies s2[a] != s2[b] by {
                        if a == old_seen.len() {
                            assert(old_seen.contains(s2[b]));
                        } else if b == old_seen.len() {
                            assert(old_seen.contains(s2[a]));
                        }
                    }
                }
            },
        }
        self.packet_order.push(copy);
        proof {
            assert(string_views(self.packet_order@) =~= v0.order.push(pid));
            assert(string_views(self.seen_packet_ids@).to_set() =~= v0.seen.insert(pid));
            assert(string_views(self.seen_packet_ids@).no_duplicates());
            let s2 = string_views(self.seen_packet_ids@);
            let o2 = string_views(self.packet_order@);
            assert forall|x: Seq<char>| s2.to_set().contains(x) implies o2.to_set().contains(x) by {
                if x == pid {
                    assert(o2[o2.len() - 1] == pid);
                } else {
                    assert(string_views(old(self).seen_packet_ids@).to_set().contains(x));
                    assert(string_views(old(self).packet_order@).contains(x));
                    let k = choose|k: int|
                        0 <= k < string_views(old(self).packet_order@).len() && string_views(
                            old(self).packet_order@,
                        )[k] == x;
                    assert(o2[k] == x);
                }
            }
        }
        if self.packet_order.len() > PACKET_CACHE_CAPACITY {
            let ghost before_seen = string_views(self.seen_packet_ids@);
            let ghost before_order = string_views(self.packet_order@);
            let expired = self.packet_order.remove(0);
            match find_string(&self.seen_packet_ids, &expired) {
                Some(j) => {
                    let _ = self.seen_packet_ids.remove(j);
                    proof {
                        assert(before_seen[j as int] == expired@);
                        assert(string_views(self.seen_packet_ids@) =~= before_seen.remove(j as int));
                        let s2 = before_seen.remove(j as int);
                        assert forall|a: int, b: int|
                            0 <= a < s2.len() && 0 <= b < s2.len() && a != b implies s2[a] != s2[b] by {
                            let a0 = if a < j { a } else { a + 1 };
                            let b0 = if b < j { b } else { b + 1 };
                            assert(s2[a] == before_seen[a0]);
                            assert(s2[b] == before_seen[b0]);
                        }
                        assert(string_views(self.seen_packet_ids@).to_set() =~= before_seen.to_set().remove(
                            expired@,
                        )) by {
                            assert forall|x: Seq<char>| #[trigger] before_seen.remove(j as int).contains(x)
                                <==> before_seen.contains(x) && x != expired@ by {
                                if before_seen.remove(j as int).contains(x) {
                                    let k = choose|k: int| 0 <= k < before_seen.len() - 1 && before_seen.remove(j as int)[k] == x;
                                    let k0 = if k < j { k } else { k + 1 };
                                    assert(before_seen[k0] == x);
                                    assert(k0 != j as int);
                                    assert(before_seen[k0] != before_seen[j as int]);
                                }
                                if before_seen.contains(x) && x != expired@ {
                                    let k = choose|k: int| 0 <= k < before_seen.len() && before_seen[k] == x;
                                    assert(k != j as int);
                                    let k2 = if k < j { k } else { k - 1 };
                                    assert(before_seen.remove(j as int)[k2] == x);
                                }
                            }
                        }
                    }
                },
                None => {
                    proof {
                        assert(before_seen.to_set() =~= before_seen.to_set().remove(expired@));
                    }
                },
            }
            proof {
                assert(string_views(self.packet_order@) =~= before_order.drop_first());
                assert(before_order[0] == expired@);
                let s2 = string_views(self.seen_packet_ids@);
                assert forall|x: Seq<char>| s2.to_set().contains(x) implies string_views(
                    self.packet_order@,
                ).to_set().contains(x) by {
                    assert(before_seen.to_set().contains(x));
                    assert(before_order.to_set().contains(x));
                    assert(before_order.contains(x));
                    let k = choose|k: int| 0 <= k < before_order.len() && before_order[k] == x;
                    assert(k != 0);
                    assert(before_order.drop_first()[k - 1] == x);
                }
            }
        }
    }

    /// Decides whether an incoming packet is new, remembering its ID if so.
    pub fn process_incoming_packet(&mut self, packet_id: &str) -> (r: bool)
        requires
            old(self).wf(),
        ensures
            final(self).wf(),
            (r, final(self).view()) == incoming_step(old(self).view(), packet_id@),
    {
        let id = packet_id.to_owned();
        match find_string(&self.seen_packet_ids, &id) {
            Some(i) => {
                proof {
                    assert(string_views(self.seen_packet_ids@)[i as int] == id@);
                }
                false
            },
            None => {
                self.remember_packet(id);
                true
            },
        }
    }

    /// Records a local clipboard change whose content hashes to `hash`,
    /// under the fresh `packet_id` taken at time `now`. Returns whether the
    /// change is new, with its packet ID and timestamp (an empty ID and zero
    /// when it repeats the last synchronized content).
    pub fn record_local_change(&mut self, hash: String, packet_id: String, now: i64) -> (r: (
        bool,
        String,
        i64,
    ))
        requires
            old(self).wf(),
        ensures
            final(self).wf(),
            (r.0, final(self).view()) == local_step(old(self).view(), hash@, packet_id@),
            final(self).clock_reading() == old(self).clock_reading(),
            r.0 ==> r.1@ == packet_id@ && r.2 == now,
            !r.0 ==> r.1@ == Seq::<char>::empty() && r.2 == 0,
    {
        if hash == self.last_synced_hash {
            return (false, String::new(), 0);
        }
        self.last_synced_hash = hash;
        let copy = packet_id.clone();
        self.remember_packet(copy);
        (true, packet_id, now)
    }

    /// Hashes local clipboard text and, when it differs from the last
    /// synchronized content, records it under a fresh random packet ID with
    /// the current time in milliseconds.
    pub fn process_local_change(&mut self, content: &str) -> (r: (bool, String, i64))
        requires
            old(self).wf(),
        ensures
            final(self).wf(),
            content_hash(content@) == old(self).view().last_synced_hash ==> !r.0 && final(self).view()
                == old(self).view() && r.1@ == Seq::<char>::empty() && r.2 == 0,
            content_hash(content@) != old(self).view().last_synced_hash ==> r.0 && final(self).view()
                == remember(
                SyncEngineView { last_synced_hash: content_hash(content@), ..old(self).view() },
                r.1@,
            ) && r.2 >= 0 && r.1@.len() == 36,
            content_hash(content@).len() == 64,
            r.0 ==> r.2 == local_stamp(final(self).clock_reading()),
    {
        let hash = compute_hash(content);
        let packet_id = new_packet_id();
        let millis = read_clock(&mut self.clock);
        let now: i64 = if millis <= 0x7fff_ffff_ffff_ffff {
            millis as i64
        } else {
            0x7fff_ffff_ffff_ffff
        };
        self.record_local_change(hash, packet_id, now)
    }
}

/// The engine after incoming packets with the IDs `ids`, in order.
pub open spec fn incoming_all(v: SyncEngineView, ids: Seq<Seq<char>>) -> SyncEngineView
    decreases ids.len(),
{
    if ids.len() == 0 {
        v
    } else {
        incoming_all(incoming_step(v, ids[0]).1, ids.drop_first())
    }
}

/// `p` is remembered, and its first place in the queue is among the last
/// `k + 1` places.
spec fn near_back(w: SyncEngineView, p: Seq<char>, k: int) -> bool {
    &&& w.seen.contains(p)
    &&& w.order.len() <= PACKET_CACHE_CAPACITY
    &&& exists|idx: int|
        #![trigger w.order[idx]]
        0 <= idx < w.order.len() && w.order[idx] == p && idx >= w.order.len() - 1 - k && forall|j: int|
            0 <= j < idx ==> w.order[j] != p
}

proof fn lemma_near_back_remember(w: SyncEngineView, p: Seq<char>, k: int, q: Seq<char>)
    requires
        near_back(w, p, k),
        0 <= k,
        k + 1 < PACKET_CACHE_CAPACITY,
    ensures
        near_back(remember(w, q), p, k + 1),
{
    let idx = choose|idx: int|
        #![trigger w.order[idx]]
        0 <= idx < w.order.len() && w.order[idx] == p && idx >= w.order.len() - 1 - k && forall|j: int|
            0 <= j < idx ==> w.order[j] != p;
    let order = w.order.push(q);
    assert(order[idx] == p);
    assert(forall|j: int| 0 <= j < idx ==> order[j] == w.order[j]);
    let r = remember(w, q);
    if order.len() > PACKET_CACHE_CAPACITY {
        assert(idx >= 1);
        assert(order[0] != p);
        assert(r.order == order.drop_first());
        assert(r.seen.contains(p));
        assert(r.order[idx - 1] == p);
        assert(forall|j: int| 0 <= j < idx - 1 ==> r.order[j] == order[j + 1]);
        assert(forall|j: int| 0 <= j < idx - 1 ==> r.order[j] != p);
    } else {
        assert(r.order == order);
        assert(r.order[idx] == p);
        assert(forall|j: int| 0 <= j < idx ==> r.order[j] != p);
    }
}

proof fn lemma_near_back_all(w: SyncEngineView, p: Seq<char>, k: int, ids: Seq<Seq<char>>)
    requires
        near_back(w, p, k),
        0 <= k,
        k + ids.len() < PACKET_CACHE_CAPACITY,
    ensures
        near_back(incoming_all(w, ids), p, k + ids.len()),
    decreases ids.len(),
{
    if ids.len() > 0 {
        let next = incoming_step(w, ids[0]).1;
        if w.seen.contains(ids[0]) {
            assert(next == w);
            let idx = choose|idx: int|
                #![trigger w.order[idx]]
                0 <= idx < w.order.len() && w.order[idx] == p && idx >= w.order.len() - 1 - k
                    && forall|j: int| 0 <= j < idx ==> w.order[j] != p;
            assert(near_back(next, p, k + 1));
        } else {
            lemma_near_back_remember(w, p, k, ids[0]);
        }
        lemma_near_back_all(next, p, k + 1, ids.drop_first());
    }
}

/// Deduplication holds across the cache's span: a packet accepted once is
/// rejected when it arrives again within the next `PACKET_CACHE_CAPACITY
/// - 1` incoming packets, whatever they are. (The packet's ID must not be
/// queued already, which holds for every ID the engine has not remembered
/// or has fully forgotten.)
pub proof fn law_accepted_packet_rejected_within_window(
    v: SyncEngineView,
    p: Seq<char>,
    later: Seq<Seq<char>>,
)
    requires
        v.order.len() <= PACKET_CACHE_CAPACITY,
        forall|x: Seq<char>| #[trigger] v.seen.contains(x) ==> v.order.contains(x),
        !v.order.contains(p),
        later.len() < PACKET_CACHE_CAPACITY,
    ensures
        incoming_step(v, p).0,
        !incoming_step(incoming_all(incoming_step(v, p).1, later), p).0,
{
    assert(!v.seen.contains(p));
    let w = remember(v, p);
    let order = v.order.push(p);
    assert(order[v.order.len() as int] == p);
    assert(forall|j: int| 0 <= j < v.order.len() ==> order[j] != p) by {
        assert forall|j: int| 0 <= j < v.order.len() implies order[j] != p by {
            assert(order[j] == v.order[j]);
            if v.order[j] == p {
                assert(v.order.contains(p));
            }
        }
    }
    if order.len() > PACKET_CACHE_CAPACITY {
        assert(order[0] != p);
        assert(w.order[v.order.len() - 1] == p);
        assert(forall|j: int| 0 <= j < v.order.len() - 1 ==> w.order[j] == order[j + 1]);
    } else {
        assert(w.order[v.order.len() as int] == p);
    }
    assert(near_back(w, p, 0));
    lemma_near_back_all(w, p, 0, later);
}

/// The packet IDs recorded most recently, at most `PACKET_CACHE_CAPACITY`
/// of them: the tail of the recording history `h`.
pub open spec fn recent(h: Seq<Seq<char>>) -> Seq<Seq<char>> {
    if h.len() > PACKET_CACHE_CAPACITY {
        h.subrange(h.len() - PACKET_CACHE_CAPACITY, h.len() as int)
    } else {
        h
    }
}

/// The cache holds exactly the most recent recorded IDs: when every
/// recorded ID was distinct, the remembered set is the queue's contents and
/// the queue is the tail of the history.
pub open spec fn holds_recent(v: SyncEngineView, h: Seq<Seq<char>>) -> bool {
    &&& h.no_duplicates()
    &&& v.order == recent(h)
    &&& v.seen == v.order.to_set()
}

/// Recording a new ID `p` keeps the cache equal to the most recent IDs of
/// the history extended by `p`.
proof fn lemma_remember_recent(v: SyncEngineView, h: Seq<Seq<char>>, p: Seq<char>)
    requires
        holds_recent(v, h),
        !h.contains(p),
    ensures
        holds_recent(remember(v, p), h.push(p)),
{
    let h2 = h.push(p);
    assert forall|a: int, b: int| 0 <= a < h2.len() && 0 <= b < h2.len() && a != b implies h2[a] != h2[b] by {
        if a == h.len() {
            assert(h.contains(h2[b]));
        } else if b == h.len() {
            assert(h.contains(h2[a]));
        }
    }
    let order = v.order.push(p);
    let r = remember(v, p);
    if h.len() >= PACKET_CACHE_CAPACITY {
        assert(v.order.len() == PACKET_CACHE_CAPACITY);
        assert(order.drop_first() =~= recent(h2));
        let gone = order[0];
        assert(gone == h[h.len() - PACKET_CACHE_CAPACITY]);
        assert forall|x: Seq<char>| r.seen.contains(x) <==> r.order.to_set().contains(x) by {
            if x == gone {
                assert forall|k: int| 0 <= k < r.order.len() implies r.order[k] != gone by {
                    assert(r.order[k] == h2[h2.len() - PACKET_CACHE_CAPACITY + k]);
                    assert(h2[h.len() - PACKET_CACHE_CAPACITY] == gone);
                }
            }
            if r.order.contains(x) {
                let k = choose|k: int| 0 <= k < r.order.len() && r.order[k] == x;
                assert(order[k + 1] == x);
                if k + 1 < v.order.len() {
                    assert(v.order.contains(x));
                }
                assert(x != gone) by {
                    assert(r.order[k] == h2[h2.len() - PACKET_CACHE_CAPACITY + k]);
                }
            }
            if v.seen.insert(p).contains(x) && x != gone {
                if x != p {
                    assert(v.order.contains(x));
                    let k = choose|k: int| 0 <= k < v.order.len() && v.order[k] == x;
                    assert(k != 0);
                    assert(r.order[k - 1] == x);
                } else {
                    assert(r.order[r.order.len() - 1] == p);
                }
            }
        }
        assert(r.seen =~= r.order.to_set());
    } else {
        assert(order =~= recent(h2));
        assert forall|x: Seq<char>| r.seen.contains(x) <==> r.order.to_set().contains(x) by {
            if x == p {
                assert(order[order.len() - 1] == p);
            } else if order.contains(x) {
                let k = choose|k: int| 0 <= k < order.len() && order[k] == x;
                assert(v.order[k] == x);
            } else if v.seen.contains(x) {
                let k = choose|k: int| 0 <= k < v.order.len() && v.order[k] == x;
                assert(order[k] == x);
            }
        }
        assert(r.seen =~= r.order.to_set());
    }
}

/// Deduplication over a history of distinct IDs: an incoming packet is new
/// exactly when its ID is not among the most recent recorded IDs, and
/// recording a never-seen ID keeps the cache equal to the most recent IDs.
pub proof fn law_incoming_window(v: SyncEngineView, h: Seq<Seq<char>>, p: Seq<char>)
    requires
        holds_recent(v, h),
    ensures
        incoming_step(v, p).0 == !recent(h).contains(p),
        incoming_step(v, p).0 && !h.contains(p) ==> holds_recent(incoming_step(v, p).1, h.push(p)),
        !incoming_step(v, p).0 ==> incoming_step(v, p).1 == v,
{
    if !recent(h).contains(p) {
        assert(!v.seen.contains(p));
        if !h.contains(p) {
            lemma_remember_recent(v, h, p);
        }
    } else {
        let k = choose|k: int| 0 <= k < v.order.len() && v.order[k] == p;
        assert(v.order.to_set().contains(p));
    }
}

/// A local change under a fresh ID keeps the cache equal to the most recent
/// recorded IDs, and a later incoming packet with that ID is not applied.
pub proof fn law_local_packet_not_reapplied(v: SyncEngineView, h: Seq<Seq<char>>, hash: Seq<char>, p: Seq<char>)
    requires
        holds_recent(v, h),
        !h.contains(p),
        hash != v.last_synced_hash,
    ensures
        local_step(v, hash, p).0,
        holds_recent(local_step(v, hash, p).1, h.push(p)),
        !incoming_step(local_step(v, hash, p).1, p).0,
{
    let w = SyncEngineView { last_synced_hash: hash, ..v };
    assert(holds_recent(w, h));
    lemma_remember_recent(w, h, p);
    let r = remember(w, p);
    assert(r.order[r.order.len() - 1] == p);
    assert(r.order.to_set().contains(p));
}

/// A fresh engine holds the most recent IDs of the empty history.
pub proof fn law_new_engine_holds_recent(device_id: Seq<char>)
    ensures
        holds_recent(
            SyncEngineView {
                device_id,
                last_synced_hash: Seq::empty(),
                seen: Set::empty(),
                order: Seq::empty(),
            },
            Seq::empty(),
        ),
{
    let e = Seq::<Seq<char>>::empty();
    assert(e.to_set() =~= Set::<Seq<char>>::empty());
}

/// Local changes are stamped in milliseconds of the clock: the stamp is the
/// reading itself (below the cap), so stamps follow the clock's order and
/// agree with it to the second, and a change read later than the current
/// clipboard state's timestamp replaces that state while one read no later
/// leaves it.
pub proof fn law_local_stamp_is_clock_millis(
    m1: u64,
    m2: u64,
    current: crate::clipboard_state::ClipboardState,
    content: String,
    packet_id: String,
)
    requires
        m1 <= i64::MAX,
        m2 <= i64::MAX,
    ensures
        local_stamp(m1) == m1,
        local_stamp(m1) / 1000 == m1 / 1000,
        m1 <= m2 ==> local_stamp(m1) <= local_stamp(m2),
        (crate::clipboard_state::lww(
            current,
            crate::clipboard_state::ClipboardState { content, timestamp: local_stamp(m1), packet_id },
        ) == (crate::clipboard_state::ClipboardState {
            content,
            timestamp: local_stamp(m1),
            packet_id,
        })) <== m1 > current.timestamp,
        m1 <= current.timestamp ==> crate::clipboard_state::lww(
            current,
            crate::clipboard_state::ClipboardState { content, timestamp: local_stamp(m1), packet_id },
        ) == current,
{
}

/// The cache never holds more IDs than its capacity.
pub proof fn law_cache_bounded(engine: &SyncEngine)
    requires
        engine.wf(),
    ensures
        engine.view().seen.len() <= PACKET_CACHE_CAPACITY,
        engine.view().seen.finite(),
        engine.view().order.len() <= PACKET_CACHE_CAPACITY,
        forall|x: Seq<char>| #[trigger] engine.view().seen.contains(x) ==> engine.view().order.contains(x),
{
    let s = string_views(engine.seen_packet_ids@);
    let o = string_views(engine.packet_order@);
    s.unique_seq_to_set();
    vstd::seq_lib::seq_to_set_is_finite(o);
    o.lemma_cardinality_of_set();
    vstd::set_lib::lemma_len_subset(s.to_set(), o.to_set());
}

/// A packet whose ID the engine has seen is never applied again while the
/// ID is remembered.
pub proof fn law_seen_packet_rejected(v: SyncEngineView, packet_id: Seq<char>)
    requires
        v.seen.contains(packet_id),
    ensures
        incoming_step(v, packet_id) == (false, v),
{
}

/// Copying the content that was just synchronized does not produce a second
/// broadcast.
pub proof fn law_repeated_content_suppressed(
    v: SyncEngineView,
    hash: Seq<char>,
    first_id: Seq<char>,
    second_id: Seq<char>,
)
    requires
        hash != v.last_synced_hash,
    ensures
        local_step(v, hash, first_id).0,
        !local_step(local_step(v, hash, first_id).1, hash, second_id).0,
{
}

} // verus!
