//! Per-peer session state: the session key, the send sequence counter and
//! the replay window over received sequence numbers.

use std::collections::HashSet;
use vstd::prelude::*;
use crate::keyed::{
    find_key, has_key, key_index, key_of, keyed_map, keys_unique, lemma_keyed_index, lemma_keyed_push,
    lemma_keyed_remove, lemma_keyed_update, KeyedRecord,
};

verus! {

broadcast use vstd::std_specs::hash::group_hash_axioms;

/// How far below the highest accepted sequence a sequence may still arrive.
pub const REPLAY_WINDOW: u64 = 1024;

/// The state of one authenticated session.
///
/// `received_sequences` holds the accepted sequence numbers that are still
/// inside the replay window.
pub struct SessionState {
    pub key: [u8; 32],
    pub next_send_sequence: u64,
    pub highest_received_sequence: u64,
    pub received_sequences: HashSet<u64>,
}

/// The abstract state of a session.
pub struct SessionView {
    pub key: Seq<u8>,
    pub next_send_sequence: u64,
    pub highest_received_sequence: u64,
    pub received_sequences: Set<u64>,
}

impl SessionState {
    pub open spec fn view(&self) -> SessionView {
        SessionView {
            key: self.key@,
            next_send_sequence: self.next_send_sequence,
            highest_received_sequence: self.highest_received_sequence,
            received_sequences: self.received_sequences@,
        }
    }
}

/// The lowest sequence number that is already outside the replay window.
pub open spec fn window_floor(highest: u64) -> u64 {
    if highest >= REPLAY_WINDOW { (highest - REPLAY_WINDOW) as u64 } else { 0 }
}

/// Whether a session accepts `sequence`.
pub open spec fn accepts(v: SessionView, sequence: u64) -> bool {
    &&& sequence != 0
    &&& sequence > window_floor(v.highest_received_sequence)
    &&& !v.received_sequences.contains(sequence)
}

pub open spec fn max_u64(a: u64, b: u64) -> u64 {
    if a >= b { a } else { b }
}

/// The session after it accepted `sequence`.
pub open spec fn accept_step(v: SessionView, sequence: u64) -> SessionView {
    let highest = max_u64(v.highest_received_sequence, sequence);
    SessionView {
        highest_received_sequence: highest,
        received_sequences: v.received_sequences.insert(sequence).filter(
            |seen: u64| seen > window_floor(highest),
        ),
        ..v
    }
}

/// The session after one call to `accept_received_sequence` with `sequence`.
pub open spec fn receive_step(v: SessionView, sequence: u64) -> SessionView {
    if accepts(v, sequence) { accept_step(v, sequence) } else { v }
}

/// The session after receiving each sequence of `seqs` in turn.
pub open spec fn receive_all(v: SessionView, seqs: Seq<u64>) -> SessionView
    decreases seqs.len(),
{
    if seqs.len() == 0 {
        v
    } else {
        receive_all(receive_step(v, seqs[0]), seqs.drop_first())
    }
}

/// A fresh session with `key`.
pub open spec fn fresh_session(key: Seq<u8>) -> SessionView {
    SessionView {
        key,
        next_send_sequence: 1,
        highest_received_sequence: 0,
        received_sequences: Set::empty(),
    }
}

/// The remembered sequences are finitely many, each nonzero and inside
/// the window.
pub open spec fn window_wf(v: SessionView) -> bool {
    &&& v.received_sequences.finite()
    &&& forall|s: u64|
        #[trigger] v.received_sequences.contains(s) ==> s != 0 && window_floor(
            v.highest_received_sequence,
        ) < s <= v.highest_received_sequence
}

impl KeyedRecord for (String, SessionState) {
    open spec fn spec_key(&self) -> Seq<char> {
        self.0@
    }

    fn record_key(&self) -> (k: &String) {
        &self.0
    }
}

/// All sessions, keyed by peer device ID.
pub struct Sessions {
    entries: Vec<(String, SessionState)>,
}

impl Sessions {
    pub closed spec fn wf(&self) -> bool {
        &&& keys_unique(self.entries@, key_of::<(String, SessionState)>())
        &&& forall|i: int|
            0 <= i < self.entries@.len() ==> window_wf(#[trigger] self.entries@[i].1.view())
    }

    pub fn new() -> (r: Sessions)
        ensures
            r.wf(),
            r@ == Map::<Seq<char>, SessionView>::empty(),
    {
        let r = Sessions { entries: Vec::new() };
        assert(r@ =~= Map::<Seq<char>, SessionView>::empty());
        r
    }

    proof fn lemma_view_index(&self, i: int)
        requires
            self.wf(),
            0 <= i < self.entries@.len(),
        ensures
            self@.contains_key(self.entries@[i].0@),
            self@[self.entries@[i].0@] == self.entries@[i].1.view(),
    {
        lemma_keyed_index(self.entries@, key_of::<(String, SessionState)>(), i);
    }

    proof fn lemma_view_all(&self, k: Seq<char>)
        requires
            self.wf(),
            self@.contains_key(k),
        ensures
            window_wf(self@[k]),
            self@[k].received_sequences.finite(),
    {
        let i = key_index(self.entries@, key_of::<(String, SessionState)>(), k);
        lemma_keyed_index(self.entries@, key_of::<(String, SessionState)>(), i);
    }

    /// Replaces the entry at `i` by one with the same key.
    fn replace_at(&mut self, i: usize, entry: (String, SessionState))
        requires
            old(self).wf(),
            i < old(self).entries@.len(),
            entry.0@ == old(self).entries@[i as int].0@,
            window_wf(entry.1.view()),
        ensures
            final(self).wf(),
            final(self)@ == old(self)@.insert(entry.0@, entry.1.view()),
    {
        let ghost s = self.entries@;
        let _ = self.entries.remove(i);
        self.entries.insert(i, entry);
        proof {
            assert(self.entries@ =~= s.update(i as int, entry));
            lemma_keyed_update(s, key_of::<(String, SessionState)>(), i as int, entry);
            assert(self@ =~= old(self)@.insert(entry.0@, entry.1.view()));
        }
    }
}

impl Sessions {
    /// Puts a session back at `i` after it was taken out of `s` and updated
    /// under the same key.
    fn restore_at(&mut self, i: usize, entry: (String, SessionState), Ghost(s): Ghost<Seq<(String, SessionState)>>)
        requires
            i < s.len(),
            old(self).entries@ == s.remove(i as int),
            keys_unique(s, key_of::<(String, SessionState)>()),
            forall|j: int| 0 <= j < s.len() ==> window_wf(#[trigger] s[j].1.view()),
            entry.0@ == s[i as int].0@,
            window_wf(entry.1.view()),
        ensures
            final(self).wf(),
            final(self)@ == keyed_map(s, key_of::<(String, SessionState)>()).map_values(
                |e: (String, SessionState)| e.1.view(),
            ).insert(entry.0@, entry.1.view()),
    {
        self.entries.insert(i, entry);
        proof {
            assert(self.entries@ =~= s.update(i as int, entry));
            lemma_keyed_update(s, key_of::<(String, SessionState)>(), i as int, entry);
            assert forall|j: int| 0 <= j < self.entries@.len() implies window_wf(
                #[trigger] self.entries@[j].1.view(),
            ) by {
                if j != i {
                    assert(self.entries@[j] == s[j]);
                }
            }
            assert(self@ =~= keyed_map(s, key_of::<(String, SessionState)>()).map_values(
                |e: (String, SessionState)| e.1.view(),
            ).insert(entry.0@, entry.1.view()));
        }
    }
}

impl View for Sessions {
    type V = Map<Seq<char>, SessionView>;

    /// The sessions, as a map from device ID to session.
    closed spec fn view(&self) -> Map<Seq<char>, SessionView> {
        keyed_map(self.entries@, key_of::<(String, SessionState)>()).map_values(
            |e: (String, SessionState)| e.1.view(),
        )
    }
}


/// Every remembered sequence stays inside the window when a sequence is
/// received.
pub proof fn lemma_window_preserved(v: SessionView, sequence: u64)
    requires
        window_wf(v),
    ensures
        window_wf(receive_step(v, sequence)),
{
}

/// A sequence that a session rejects stays rejected after the session
/// receives any further sequence.
pub proof fn lemma_rejection_persists(v: SessionView, s: u64, t: u64)
    requires
        !accepts(v, s),
    ensures
        !accepts(receive_step(v, t), s),
{
}

/// Replay protection: once a session accepted a sequence number, it rejects
/// that number on every later delivery, whatever else it receives between.
pub proof fn law_no_replay(v: SessionView, s: u64, later: Seq<u64>)
    requires
        accepts(v, s),
    ensures
        !accepts(receive_all(accept_step(v, s), later), s),
    decreases later.len(),
{
    lemma_rejection_stays(accept_step(v, s), s, later);
}

/// A rejected sequence stays rejected through any run of deliveries.
pub proof fn lemma_rejection_stays(v: SessionView, s: u64, later: Seq<u64>)
    requires
        !accepts(v, s),
    ensures
        !accepts(receive_all(v, later), s),
    decreases later.len(),
{
    if later.len() > 0 {
        lemma_rejection_persists(v, s, later[0]);
        lemma_rejection_stays(receive_step(v, later[0]), s, later.drop_first());
    }
}

/// The replay window never remembers more than `REPLAY_WINDOW` sequences.
pub proof fn law_window_bounded(v: SessionView)
    requires
        window_wf(v),
        v.received_sequences.finite(),
    ensures
        v.received_sequences.len() <= REPLAY_WINDOW,
{
    let f = |x: u64| x as int;
    let m = v.received_sequences.map(f);
    let lo = window_floor(v.highest_received_sequence) + 1;
    let hi = v.highest_received_sequence + 1;
    assert(vstd::relations::injective_on(f, v.received_sequences));
    vstd::set_lib::lemma_map_size(v.received_sequences, m, f);
    vstd::set_lib::lemma_int_range(lo, hi);
    assert forall|x: int| m.contains(x) implies vstd::set_lib::set_int_range(lo, hi).contains(x) by {
        let y = choose|y: u64| v.received_sequences.contains(y) && f(y) == x;
    }
    vstd::set_lib::lemma_len_subset(m, vstd::set_lib::set_int_range(lo, hi));
}

/// One send-sequence allocation: the current counter, which then advances;
/// nothing when the counter cannot advance.
pub open spec fn send_step(v: SessionView) -> (Option<u64>, SessionView) {
    if v.next_send_sequence < u64::MAX {
        (Some(v.next_send_sequence), SessionView { next_send_sequence: (v.next_send_sequence + 1) as u64, ..v })
    } else {
        (None, v)
    }
}

/// The numbers handed out by `n` allocations in a row.
pub open spec fn sends(v: SessionView, n: nat) -> Seq<Option<u64>>
    decreases n,
{
    if n == 0 {
        seq![]
    } else {
        seq![send_step(v).0] + sends(send_step(v).1, (n - 1) as nat)
    }
}

/// Consecutive allocations count up from the session's counter: the `k`-th
/// hands out the counter plus `k` while that stays below `u64::MAX`.
pub proof fn lemma_sends_count_up(v: SessionView, n: nat, k: int)
    requires
        0 <= k < n,
        v.next_send_sequence + k < u64::MAX,
    ensures
        sends(v, n).len() == n,
        sends(v, n)[k] == Some((v.next_send_sequence + k) as u64),
    decreases n,
{
    lemma_sends_len(v, n);
    if k > 0 {
        lemma_sends_count_up(send_step(v).1, (n - 1) as nat, k - 1);
    }
}

proof fn lemma_sends_len(v: SessionView, n: nat)
    ensures
        sends(v, n).len() == n,
    decreases n,
{
    if n > 0 {
        lemma_sends_len(send_step(v).1, (n - 1) as nat);
    }
}

/// Send sequence numbers strictly increase: of two allocations in a row of
/// one session, the later hands out a larger number, and a fresh session
/// starts at 1 (a number receivers accept).
pub proof fn law_send_sequences_increase(v: SessionView, n: nat, i: int, j: int)
    requires
        0 <= i < j < n,
        v.next_send_sequence + j < u64::MAX,
    ensures
        sends(v, n)[i] matches Some(a) && sends(v, n)[j] matches Some(b) && a < b,
        sends(fresh_session(v.key), n)[0] == Some(1u64),
{
    lemma_sends_count_up(v, n, i);
    lemma_sends_count_up(v, n, j);
    lemma_sends_count_up(fresh_session(v.key), n, 0);
}

/// What `accept_received_sequence` answers for each of `seqs`, delivered in
/// turn to a session in state `v`.
pub open spec fn receive_results(v: SessionView, seqs: Seq<u64>) -> Seq<bool>
    decreases seqs.len(),
{
    if seqs.len() == 0 {
        seq![]
    } else {
        seq![accepts(v, seqs[0])] + receive_results(receive_step(v, seqs[0]), seqs.drop_first())
    }
}

proof fn lemma_receive_results_len(v: SessionView, seqs: Seq<u64>)
    ensures
        receive_results(v, seqs).len() == seqs.len(),
    decreases seqs.len(),
{
    if seqs.len() > 0 {
        lemma_receive_results_len(receive_step(v, seqs[0]), seqs.drop_first());
    }
}

/// The answer to the `j`-th delivery is that of the session after the first
/// `j` deliveries.
proof fn lemma_receive_result_at(v: SessionView, seqs: Seq<u64>, j: int)
    requires
        0 <= j < seqs.len(),
    ensures
        receive_results(v, seqs)[j] == accepts(receive_all(v, seqs.take(j)), seqs[j]),
    decreases j,
{
    lemma_receive_results_len(receive_step(v, seqs[0]), seqs.drop_first());
    if j > 0 {
        lemma_receive_result_at(receive_step(v, seqs[0]), seqs.drop_first(), j - 1);
        assert(seqs.take(j).drop_first() =~= seqs.drop_first().take(j - 1));
        assert(seqs.take(j)[0] == seqs[0]);
    } else {
        assert(seqs.take(0) =~= Seq::<u64>::empty());
    }
}

/// Replay protection over any run of deliveries: within one session no
/// sequence number is accepted twice, however late it is replayed.
pub proof fn law_accepted_at_most_once(v: SessionView, seqs: Seq<u64>, i: int, j: int)
    requires
        0 <= i < j < seqs.len(),
        receive_results(v, seqs)[i],
        receive_results(v, seqs)[j],
    ensures
        seqs[i] != seqs[j],
    decreases i,
{
    lemma_receive_results_len(v, seqs);
    lemma_receive_results_len(receive_step(v, seqs[0]), seqs.drop_first());
    if i > 0 {
        assert(receive_results(v, seqs)[i] == receive_results(receive_step(v, seqs[0]), seqs.drop_first())[i - 1]);
        assert(receive_results(v, seqs)[j] == receive_results(receive_step(v, seqs[0]), seqs.drop_first())[j - 1]);
        law_accepted_at_most_once(receive_step(v, seqs[0]), seqs.drop_first(), i - 1, j - 1);
    } else {
        let s0 = seqs[0];
        assert(accepts(v, s0));
        let later = seqs.subrange(1, j);
        law_no_replay(v, s0, later);
        lemma_receive_result_at(receive_step(v, s0), seqs.drop_first(), j - 1);
        assert(seqs.drop_first().take(j - 1) =~= later);
        assert(seqs.drop_first()[j - 1] == seqs[j]);
        assert(receive_results(v, seqs)[j] == receive_results(receive_step(v, s0), seqs.drop_first())[j - 1]);
    }
}

/// A fresh session hands out 1, 2, ..., n on its first n allocations.
pub proof fn law_fresh_session_counts_from_one(key: Seq<u8>, n: nat, k: int)
    requires
        0 <= k < n,
        n < u64::MAX,
    ensures
        sends(fresh_session(key), n).len() == n,
        sends(fresh_session(key), n)[k] == Some((k + 1) as u64),
{
    lemma_sends_count_up(fresh_session(key), n, k);
}

/// Every session of a store keeps its replay memory within the window.
pub proof fn law_sessions_bounded(sessions: &Sessions, device_id: Seq<char>)
    requires
        sessions.wf(),
        sessions@.contains_key(device_id),
    ensures
        sessions@[device_id].received_sequences.len() <= REPLAY_WINDOW,
{
    sessions.lemma_view_all(device_id);
    law_window_bounded(sessions@[device_id]);
}

fn window_floor_exec(highest: u64) -> (r: u64)
    ensures
        r == window_floor(highest),
{
    highest.saturating_sub(REPLAY_WINDOW)
}

/// Forgets the sequences at or below `new_floor`: the set holds sequences
/// above `old_floor` (and at most `old_highest`, but for one sequence above
/// `new_floor`), so only the values between the two floors are removed, or
/// everything when the window moved past `old_highest`.
fn slide_window(set: &mut HashSet<u64>, old_floor: u64, old_highest: u64, new_floor: u64)
    requires
        old_floor <= new_floor,
        old_floor <= old_highest,
        forall|x: u64|
            #[trigger] old(set)@.contains(x) ==> old_floor < x && (x <= old_highest || x > new_floor),
        old(set)@.finite(),
        old_highest - old_floor <= REPLAY_WINDOW,
    ensures
        final(set)@ == old(set)@.filter(|x: u64| x > new_floor),
        final(set)@.finite(),
{
    let ghost start = set@;
    if new_floor >= old_highest {
        let mut k: u64 = old_floor;
        let ghost keep = start.filter(|x: u64| x > new_floor);
        proof {
            assert forall|x: u64| start.contains(x) && x <= new_floor implies x <= old_highest by {}
        }
        // Everything at or below the old highest sequence leaves.
        while k < old_highest
            invariant
                old_floor <= k <= old_highest,
                old_highest <= new_floor,
                forall|x: u64| #[trigger] set@.contains(x) <==> start.contains(x) && !(old_floor < x <= k),
                forall|x: u64|
                    #[trigger] start.contains(x) ==> old_floor < x && (x <= old_highest || x > new_floor),
            decreases old_highest - k,
        {
            k = k + 1;
            set.remove(&k);
        }
        assert(set@ =~= keep);
    } else {
        let mut k: u64 = old_floor;
        while k < new_floor
            invariant
                old_floor <= k <= new_floor,
                forall|x: u64| #[trigger] set@.contains(x) <==> start.contains(x) && !(old_floor < x <= k),
                forall|x: u64| #[trigger] start.contains(x) ==> old_floor < x,
            decreases new_floor - k,
        {
            k = k + 1;
            set.remove(&k);
        }
        assert(set@ =~= start.filter(|x: u64| x > new_floor));
    }
    proof {
        vstd::set_lib::lemma_len_subset(set@, start);
    }
}

/// Installs a fresh session with `key` for `device_id`, replacing any
/// previous one.
pub fn register_session_key(sessions: &mut Sessions, device_id: String, key: [u8; 32])
    requires
        old(sessions).wf(),
    ensures
        final(sessions).wf(),
        final(sessions)@ == old(sessions)@.insert(device_id@, fresh_session(key@)),
{
    let state = SessionState {
        key,
        next_send_sequence: 1,
        highest_received_sequence: 0,
        received_sequences: HashSet::new(),
    };
    proof {
        assert(state.view().received_sequences =~= Set::<u64>::empty());
        assert(window_wf(state.view()));
    }
    match find_key(&sessions.entries, &device_id) {
        Some(i) => {
            sessions.replace_at(i, (device_id, state));
        },
        None => {
            let ghost s = sessions.entries@;
            let ghost id = device_id@;
            let entry = (device_id, state);
            sessions.entries.push(entry);
            proof {
                lemma_keyed_push(s, key_of::<(String, SessionState)>(), entry);
                assert(sessions@ =~= old(sessions)@.insert(id, fresh_session(key@)));
            }
        },
    }
}

/// The session key of `device_id`, if a session exists.
pub fn get_session_key(sessions: &Sessions, device_id: &str) -> (r: Option<[u8; 32]>)
    requires
        sessions.wf(),
    ensures
        r matches Some(k) ==> sessions@.contains_key(device_id@) && k@ == sessions@[device_id@].key,
        r is None ==> !sessions@.contains_key(device_id@),
{
    let id = device_id.to_owned();
    match find_key(&sessions.entries, &id) {
        Some(i) => {
            proof {
                sessions.lemma_view_index(i as int);
            }
            Some(sessions.entries[i].1.key)
        },
        None => None,
    }
}

/// Allocates the next send sequence number of `device_id`'s session.
///
/// Returns `None` when there is no session, or when the counter cannot be
/// advanced without overflow (the session is then left unchanged).
pub fn next_send_sequence(sessions: &mut Sessions, device_id: &str) -> (r: Option<u64>)
    requires
        old(sessions).wf(),
    ensures
        final(sessions).wf(),
        !old(sessions)@.contains_key(device_id@) ==> r is None && final(sessions)@ == old(
            sessions,
        )@,
        old(sessions)@.contains_key(device_id@) ==> {
            &&& r == send_step(old(sessions)@[device_id@]).0
            &&& final(sessions)@ == old(sessions)@.insert(
                device_id@,
                send_step(old(sessions)@[device_id@]).1,
            )
        },
{
    let id = device_id.to_owned();
    match find_key(&sessions.entries, &id) {
        None => None,
        Some(i) => {
            proof {
                sessions.lemma_view_index(i as int);
            }
            let current = sessions.entries[i].1.next_send_sequence;
            match current.checked_add(1) {
                None => {
                    proof {
                        assert(sessions@ =~= old(sessions)@.insert(
                            device_id@,
                            send_step(old(sessions)@[device_id@]).1,
                        ));
                    }
                    None
                },
                Some(next) => {
                    let ghost s = sessions.entries@;
                    let ghost v = s[i as int].1.view();
                    let (name, mut st) = sessions.entries.remove(i);
                    st.next_send_sequence = next;
                    proof {
                        assert(st.view() == SessionView { next_send_sequence: next, ..v });
                    }
                    sessions.restore_at(i, (name, st), Ghost(s));
                    Some(current)
                },
            }
        },
    }
}

/// Decides whether an authenticated message with `sequence` from
/// `device_id` is fresh, and records it if so.
///
/// A sequence is accepted when it is nonzero, lies above the replay window
/// below the highest accepted sequence, and was not accepted before; the
/// window then slides up to the new highest sequence.
pub fn accept_received_sequence(sessions: &mut Sessions, device_id: &str, sequence: u64) -> (r:
    bool)
    requires
        old(sessions).wf(),
    ensures
        final(sessions).wf(),
        !old(sessions)@.contains_key(device_id@) ==> !r && final(sessions)@ == old(sessions)@,
        old(sessions)@.contains_key(device_id@) ==> {
            &&& r == accepts(old(sessions)@[device_id@], sequence)
            &&& final(sessions)@ == old(sessions)@.insert(
                device_id@,
                receive_step(old(sessions)@[device_id@], sequence),
            )
        },
{
    let id = device_id.to_owned();
    match find_key(&sessions.entries, &id) {
        None => false,
        Some(i) => {
            proof {
                sessions.lemma_view_index(i as int);
            }
            let ghost s = sessions.entries@;
            let ghost v = s[i as int].1.view();
            let st = &sessions.entries[i].1;
            let floor = window_floor_exec(st.highest_received_sequence);
            if sequence == 0 || sequence <= floor || st.received_sequences.contains(&sequence) {
                proof {
                    assert(sessions@ =~= old(sessions)@.insert(device_id@, v));
                }
                return false;
            }
            let (name, mut st) = sessions.entries.remove(i);
            let previous_highest = st.highest_received_sequence;
            let highest = if previous_highest >= sequence {
                previous_highest
            } else {
                sequence
            };
            st.received_sequences.insert(sequence);
            st.highest_received_sequence = highest;
            slide_window(&mut st.received_sequences, floor, previous_highest, window_floor_exec(highest));
            proof {
                assert(st.view().received_sequences =~= accept_step(v, sequence).received_sequences);
                assert(st.view() == accept_step(v, sequence));
                lemma_window_preserved(v, sequence);
            }
            sessions.restore_at(i, (name, st), Ghost(s));
            true
        },
    }
}

/// Ends the session with `device_id`, if any.
pub fn remove_session(sessions: &mut Sessions, device_id: &str)
    requires
        old(sessions).wf(),
    ensures
        final(sessions).wf(),
        final(sessions)@ == old(sessions)@.remove(device_id@),
{
    let id = device_id.to_owned();
    match find_key(&sessions.entries, &id) {
        None => {
            proof {
                assert(sessions@ =~= old(sessions)@.remove(device_id@));
            }
        },
        Some(i) => {
            let ghost s = sessions.entries@;
            let _ = sessions.entries.remove(i);
            proof {
                lemma_keyed_remove(s, key_of::<(String, SessionState)>(), i as int);
                assert(sessions@ =~= old(sessions)@.remove(device_id@));
            }
        },
    }
}

/// Ends every session.
pub fn clear_all_sessions(sessions: &mut Sessions)
    ensures
        final(sessions).wf(),
        final(sessions)@ == Map::<Seq<char>, SessionView>::empty(),
{
    sessions.entries.clear();
    proof {
        assert(sessions@ =~= Map::<Seq<char>, SessionView>::empty());
    }
}

} // verus!
