//! The store of paired devices and their public identities.
//!
//! Persisting the store to `trust_store.json` is file I/O and stays with the
//! application; this module holds the records and the operations on them.

use vstd::prelude::*;
use crate::keyed::{
    find_key, has_key, key_index, key_of, keyed_map, keys_unique, lemma_keyed_index,
    lemma_keyed_push, lemma_keyed_remove, lemma_keyed_update, KeyedRecord,
};

verus! {

/// A paired device: its identity keys and its last known LAN address.
#[derive(Clone, Debug, PartialEq, Eq)]
pub struct TrustedDevice {
    pub device_id: String,
    pub device_name: String,
    pub public_signing_key: [u8; 32],
    pub public_dh_key: [u8; 32],
    pub paired_at: u64,
    pub last_ip: Option<String>,
    pub last_port: Option<u16>,
}

impl KeyedRecord for TrustedDevice {
    open spec fn spec_key(&self) -> Seq<char> {
        self.device_id@
    }

    fn record_key(&self) -> (k: &String) {
        &self.device_id
    }
}

pub(crate) fn clone_opt_string(s: &Option<String>) -> (r: Option<String>)
    ensures
        r == *s,
{
    match s {
        Some(x) => Some(x.clone()),
        None => None,
    }
}

/// A copy of a trusted-device record.
pub fn clone_trusted_device(d: &TrustedDevice) -> (r: TrustedDevice)
    ensures
        r == *d,
{
    TrustedDevice {
        device_id: d.device_id.clone(),
        device_name: d.device_name.clone(),
        public_signing_key: d.public_signing_key,
        public_dh_key: d.public_dh_key,
        paired_at: d.paired_at,
        last_ip: clone_opt_string(&d.last_ip),
        last_port: d.last_port,
    }
}

/// The map that inserting `records` in order builds: a later record
/// replaces an earlier one with the same device ID.
pub open spec fn loaded_map(records: Seq<TrustedDevice>) -> Map<Seq<char>, TrustedDevice>
    decreases records.len(),
{
    if records.len() == 0 {
        Map::empty()
    } else {
        loaded_map(records.drop_last()).insert(records.last().device_id@, records.last())
    }
}

/// The device IDs of a list of trusted devices, in order.
pub open spec fn device_ids(s: Seq<TrustedDevice>) -> Seq<Seq<char>> {
    s.map_values(|d: TrustedDevice| d.device_id@)
}

/// The trusted devices, one record per device ID.
pub struct TrustStore {
    devices: Vec<TrustedDevice>,
    clock: Ghost<u64>,
}

impl TrustStore {
    pub closed spec fn wf(&self) -> bool {
        keys_unique(self.devices@, key_of::<TrustedDevice>())
    }

    /// The records in their stored order.
    pub closed spec fn records(&self) -> Seq<TrustedDevice> {
        self.devices@
    }

    /// The clock reading, in milliseconds since the Unix epoch, taken by the
    /// latest pairing completed into this store (0 before any).
    pub closed spec fn clock_reading(&self) -> u64 {
        self.clock@
    }

    /// Reads the clock for a pairing about to complete and keeps the reading
    /// as this store's clock reading; the records are untouched.
    pub(crate) fn read_clock(&mut self) -> (r: u64)
        ensures
            final(self).records() == old(self).records(),
            final(self)@ == old(self)@,
            final(self).wf() == old(self).wf(),
            final(self).clock_reading() == r,
    {
        crate::sync_engine::read_clock(&mut self.clock)
    }

    /// An empty store.
    pub fn new() -> (r: TrustStore)
        ensures
            r.wf(),
            r@ == Map::<Seq<char>, TrustedDevice>::empty(),
    {
        let r = TrustStore { devices: Vec::new(), clock: Ghost(0) };
        assert(r@ =~= Map::<Seq<char>, TrustedDevice>::empty());
        r
    }

    /// A store holding `devices`, of which a later record replaces an
    /// earlier one with the same device ID (the order a map loader sees).
    pub fn from_records(devices: Vec<TrustedDevice>) -> (r: TrustStore)
        ensures
            r.wf(),
            r@ == loaded_map(devices@),
    {
        let mut store = TrustStore::new();
        let mut i: usize = 0;
        while i < devices.len()
            invariant
                i <= devices.len(),
                store.wf(),
                store@ == loaded_map(devices@.subrange(0, i as int)),
            decreases devices.len() - i,
        {
            let d = clone_trusted_device(&devices[i]);
            add_trusted_device(&mut store, d);
            assert(devices@.subrange(0, i + 1).drop_last() =~= devices@.subrange(0, i as int));
            i = i + 1;
        }
        assert(devices@.subrange(0, i as int) =~= devices@);
        store
    }

    /// The records, exposed for persistence.
    pub fn records_vec(&self) -> (r: &Vec<TrustedDevice>)
        ensures
            r@ == self.records(),
    {
        &self.devices
    }

    pub proof fn lemma_records_view(&self)
        requires
            self.wf(),
        ensures
            forall|i: int|
                0 <= i < self.records().len() ==> #[trigger] self@.contains_key(
                    self.records()[i].device_id@,
                ) && self@[self.records()[i].device_id@] == self.records()[i],
            forall|k: Seq<char>|
                #[trigger] self@.contains_key(k) ==> exists|i: int|
                    0 <= i < self.records().len() && self.records()[i].device_id@ == k,
    {
        assert forall|i: int| 0 <= i < self.records().len() implies #[trigger] self@.contains_key(
            self.records()[i].device_id@,
        ) && self@[self.records()[i].device_id@] == self.records()[i] by {
            lemma_keyed_index(self.devices@, key_of::<TrustedDevice>(), i);
        }
        assert forall|k: Seq<char>| #[trigger] self@.contains_key(k) implies exists|i: int|
            0 <= i < self.records().len() && self.records()[i].device_id@ == k by {
            let i = key_index(self.devices@, key_of::<TrustedDevice>(), k);
            assert(key_of::<TrustedDevice>()(self.devices@[i]) == k);
        }
    }
}

impl View for TrustStore {
    type V = Map<Seq<char>, TrustedDevice>;

    /// The store as a map from device ID to record.
    closed spec fn view(&self) -> Map<Seq<char>, TrustedDevice> {
        keyed_map(self.devices@, key_of::<TrustedDevice>())
    }
}

/// Adds `device`, replacing any record with the same device ID.
pub fn add_trusted_device(store: &mut TrustStore, device: TrustedDevice)
    requires
        old(store).wf(),
    ensures
        final(store).wf(),
        final(store)@ == old(store)@.insert(device.device_id@, device),
        final(store).clock_reading() == old(store).clock_reading(),
{
    let ghost s = store.devices@;
    match find_key(&store.devices, &device.device_id) {
        Some(i) => {
            let _ = store.devices.remove(i);
            store.devices.insert(i, device);
            proof {
                assert(store.devices@ =~= s.update(i as int, device));
                lemma_keyed_update(s, key_of::<TrustedDevice>(), i as int, device);
            }
        },
        None => {
            store.devices.push(device);
            proof {
                lemma_keyed_push(s, key_of::<TrustedDevice>(), device);
            }
        },
    }
}

/// Removes the record of `device_id`, if any.
pub fn remove_trusted_device(store: &mut TrustStore, device_id: &str)
    requires
        old(store).wf(),
    ensures
        final(store).wf(),
        final(store)@ == old(store)@.remove(device_id@),
{
    let id = device_id.to_owned();
    let ghost s = store.devices@;
    match find_key(&store.devices, &id) {
        Some(i) => {
            let _ = store.devices.remove(i);
            proof {
                lemma_keyed_remove(s, key_of::<TrustedDevice>(), i as int);
            }
        },
        None => {
            assert(store@ =~= old(store)@.remove(device_id@));
        },
    }
}

/// Whether `device_id` is paired.
pub fn is_device_trusted(store: &TrustStore, device_id: &str) -> (r: bool)
    requires
        store.wf(),
    ensures
        r == store@.contains_key(device_id@),
{
    let id = device_id.to_owned();
    match find_key(&store.devices, &id) {
        Some(i) => {
            proof {
                lemma_keyed_index(store.devices@, key_of::<TrustedDevice>(), i as int);
            }
            true
        },
        None => false,
    }
}

/// The record of `device_id`, if paired.
pub fn get_trusted_device(store: &TrustStore, device_id: &str) -> (r: Option<TrustedDevice>)
    requires
        store.wf(),
    ensures
        r matches Some(d) ==> store@.contains_key(device_id@) && d == store@[device_id@],
        r is None ==> !store@.contains_key(device_id@),
{
    let id = device_id.to_owned();
    match find_key(&store.devices, &id) {
        Some(i) => {
            proof {
                lemma_keyed_index(store.devices@, key_of::<TrustedDevice>(), i as int);
            }
            Some(clone_trusted_device(&store.devices[i]))
        },
        None => None,
    }
}

/// Every record, in stored order.
pub fn get_all_trusted_devices(store: &TrustStore) -> (r: Vec<TrustedDevice>)
    requires
        store.wf(),
    ensures
        r@ == store.records(),
        device_ids(r@).no_duplicates(),
{
    proof {
        crate::keyed::lemma_unique_keys_no_duplicates(store.devices@, key_of::<TrustedDevice>());
        assert(device_ids(store.devices@) =~= store.devices@.map_values(key_of::<TrustedDevice>()));
    }
    let mut out: Vec<TrustedDevice> = Vec::new();
    let mut i: usize = 0;
    while i < store.devices.len()
        invariant
            i <= store.devices.len(),
            out@ == store.devices@.subrange(0, i as int),
        decreases store.devices.len() - i,
    {
        out.push(clone_trusted_device(&store.devices[i]));
        i = i + 1;
        assert(out@ =~= store.devices@.subrange(0, i as int));
    }
    assert(out@ =~= store.devices@);
    out
}

/// A device read back after being added is the device that was added.
pub proof fn law_trusted_read_after_add(before: Map<Seq<char>, TrustedDevice>, device: TrustedDevice)
    ensures
        before.insert(device.device_id@, device).contains_key(device.device_id@),
        before.insert(device.device_id@, device)[device.device_id@] == device,
{
}

/// A removed device is no longer trusted, and other records are untouched.
pub proof fn law_trusted_remove(before: Map<Seq<char>, TrustedDevice>, id: Seq<char>, other: Seq<char>)
    requires
        other != id,
    ensures
        !before.remove(id).contains_key(id),
        before.remove(id).contains_key(other) == before.contains_key(other),
        before.contains_key(other) ==> before.remove(id)[other] == before[other],
{
}

} // verus!
