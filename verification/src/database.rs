use vstd::prelude::*;
use vstd::slice::slice_to_vec;
use crate::assoc::{
    assoc_map, distinct_keys, lemma_assoc_map_at, lemma_assoc_map_contains, lemma_assoc_map_remove,
    lemma_assoc_map_update, lemma_distinct_remove, lemma_distinct_update,
};
use crate::broadcast::{broadcast_channel, sender_send, sender_subscribe};

verus! {

/// How many published payloads a channel keeps for a slow subscriber before
/// the oldest unreceived ones are dropped (the channel may round this up).
/// Publishing never blocks on a slow subscriber.
pub const CHANNEL_CAPACITY: usize = 1000;

/// One registered pub/sub channel: its id, how many subscriptions are
/// currently held on it, and the broadcast sender that delivers to them.
struct ChannelEntry {
    id: u32,
    subscribers: usize,
    sender: tokio::sync::broadcast::Sender<Vec<u8>>,
}

/// The shared store: a byte-key/byte-value map, plus the registry of pub/sub
/// channels. Its model is two finite maps: `kv`, key to value, and `subs`,
/// channel id to subscriber count.
pub struct Database {
    data: Vec<(Vec<u8>, Vec<u8>)>,
    channels: Vec<ChannelEntry>,
}

/// The subscriber-count map after one more subscription to `id`: a new
/// channel starts at one subscriber; an existing one gains one, to the count
/// the machine word can hold.
pub open spec fn spec_acquire(m: Map<u32, nat>, id: u32) -> Map<u32, nat> {
    if m.contains_key(id) {
        if m[id] < usize::MAX {
            m.insert(id, (m[id] + 1) as nat)
        } else {
            m
        }
    } else {
        m.insert(id, 1nat)
    }
}

/// The subscriber-count map after one subscription to `id` is given up: the
/// last subscriber's departure removes the channel from the registry; on an
/// unregistered id nothing changes.
pub open spec fn spec_release(m: Map<u32, nat>, id: u32) -> Map<u32, nat> {
    if m.contains_key(id) {
        if m[id] > 1 {
            m.insert(id, (m[id] - 1) as nat)
        } else {
            m.remove(id)
        }
    } else {
        m
    }
}

impl Database {
    /// The key/value entries as byte sequences.
    pub closed spec fn data_entries(&self) -> Seq<(Seq<u8>, Seq<u8>)> {
        self.data@.map_values(|p: (Vec<u8>, Vec<u8>)| (p.0@, p.1@))
    }

    /// The registry entries as id/count pairs.
    pub closed spec fn sub_entries(&self) -> Seq<(u32, nat)> {
        self.channels@.map_values(|e: ChannelEntry| (e.id, e.subscribers as nat))
    }

    /// The key/value map this store holds.
    pub closed spec fn kv(&self) -> Map<Seq<u8>, Seq<u8>> {
        assoc_map(self.data_entries())
    }

    /// The registry: each registered channel id with its subscriber count.
    /// A channel is registered exactly while it has at least one subscriber.
    pub closed spec fn subs(&self) -> Map<u32, nat> {
        assoc_map(self.sub_entries())
    }

    /// Well-formedness: keys and channel ids are stored once each, and a
    /// registered channel has at least one subscriber.
    pub closed spec fn wf(&self) -> bool {
        &&& distinct_keys(self.data_entries())
        &&& distinct_keys(self.sub_entries())
        &&& forall|i: int| 0 <= i < self.channels@.len() ==> (#[trigger] self.channels@[i]).subscribers >= 1
    }

    /// An empty store: no keys, no channels.
    pub fn new() -> (db: Database)
        ensures
            db.wf(),
            db.kv() == Map::<Seq<u8>, Seq<u8>>::empty(),
            db.subs() == Map::<u32, nat>::empty(),
    {
        let db = Database { data: Vec::new(), channels: Vec::new() };
        proof {
            assert(db.data_entries() =~= Seq::<(Seq<u8>, Seq<u8>)>::empty());
            assert(db.sub_entries() =~= Seq::<(u32, nat)>::empty());
        }
        db
    }

    /// The index of the entry holding `key`, if one does.
    fn find_key(&self, key: &[u8]) -> (r: Option<usize>)
        requires
            self.wf(),
        ensures
            match r {
                Some(i) => i < self.data@.len() && self.data_entries()[i as int].0 == key@,
                None => !self.kv().contains_key(key@),
            },
    {
        let mut i: usize = 0;
        while i < self.data.len()
            invariant
                self.wf(),
                i <= self.data@.len(),
                forall|j: int| 0 <= j < i ==> (#[trigger] self.data_entries()[j]).0 != key@,
            decreases self.data@.len() - i,
        {
            if bytes_eq(self.data[i].0.as_slice(), key) {
                return Some(i);
            }
            i = i + 1;
        }
        proof {
            lemma_assoc_map_contains(self.data_entries(), key@);
        }
        None
    }

    /// The index of the registry entry for channel `id`, if one exists.
    fn find_channel(&self, id: u32) -> (r: Option<usize>)
        requires
            self.wf(),
        ensures
            match r {
                Some(i) => i < self.channels@.len() && self.sub_entries()[i as int].0 == id,
                None => !self.subs().contains_key(id),
            },
    {
        let mut i: usize = 0;
        while i < self.channels.len()
            invariant
                self.wf(),
                i <= self.channels@.len(),
                forall|j: int| 0 <= j < i ==> (#[trigger] self.sub_entries()[j]).0 != id,
            decreases self.channels@.len() - i,
        {
            if self.channels[i].id == id {
                return Some(i);
            }
            i = i + 1;
        }
        proof {
            lemma_assoc_map_contains(self.sub_entries(), id);
        }
        None
    }

    /// Reads the current value of `key`, or nothing when the key is absent.
    pub fn get(&self, key: &[u8]) -> (r: Option<Vec<u8>>)
        requires
            self.wf(),
        ensures
            match r {
                Some(value) => self.kv().contains_key(key@) && value@ == self.kv()[key@],
                None => !self.kv().contains_key(key@),
            },
    {
        match self.find_key(key) {
            Some(i) => {
                proof {
                    lemma_assoc_map_at(self.data_entries(), i as int);
                }
                Some(slice_to_vec(self.data[i].1.as_slice()))
            }
            None => None,
        }
    }

    /// Upserts `key` to `value`: the last writer wins.
    pub fn set(&mut self, key: Vec<u8>, value: Vec<u8>)
        requires
            old(self).wf(),
        ensures
            final(self).wf(),
            final(self).kv() == old(self).kv().insert(key@, value@),
            final(self).subs() == old(self).subs(),
    {
        let _ = self.delete(key.as_slice());
        let ghost mid = self.data_entries();
        proof {
            lemma_assoc_map_contains(mid, key@);
        }
        self.data.push((key, value));
        proof {
            assert(self.data_entries() =~= mid.push((key@, value@)));
            assert(self.data_entries().drop_last() =~= mid);
            assert(self.kv() =~= old(self).kv().insert(key@, value@));
        }
    }

    /// Removes `key`; tells whether it was present.
    pub fn delete(&mut self, key: &[u8]) -> (r: bool)
        requires
            old(self).wf(),
        ensures
            final(self).wf(),
            r == old(self).kv().contains_key(key@),
            final(self).kv() == old(self).kv().remove(key@),
            final(self).subs() == old(self).subs(),
    {
        match self.find_key(key) {
            Some(i) => {
                proof {
                    lemma_assoc_map_at(self.data_entries(), i as int);
                    lemma_assoc_map_remove(self.data_entries(), i as int);
                    lemma_distinct_remove(self.data_entries(), i as int);
                }
                let ghost pre = self.data_entries();
                self.data.remove(i);
                proof {
                    assert(self.data_entries() =~= pre.remove(i as int));
                }
                true
            }
            None => {
                proof {
                    assert(old(self).kv().remove(key@) =~= old(self).kv());
                }
                false
            }
        }
    }

    /// Delivers `payload` to every current subscriber of channel `id`; tells
    /// whether the channel is registered. On an unregistered channel nothing
    /// is sent; on a registered one each subscriber's receiver sees payloads
    /// in publish order, the oldest dropped once its bounded queue overflows.
    pub fn publish(&self, id: u32, payload: Vec<u8>) -> (r: bool)
        requires
            self.wf(),
        ensures
            r == self.subs().contains_key(id),
    {
        match self.find_channel(id) {
            Some(i) => {
                proof {
                    lemma_assoc_map_at(self.sub_entries(), i as int);
                }
                sender_send(&self.channels[i].sender, payload);
                true
            }
            None => false,
        }
    }

    /// Opens one more subscription to channel `id`, creating the channel when
    /// it is not registered yet, and returns a fresh receiver attached to it.
    /// The receiver sees every payload published to the channel from now on.
    pub fn subscribe(&mut self, id: u32) -> (rx: tokio::sync::broadcast::Receiver<Vec<u8>>)
        requires
            old(self).wf(),
        ensures
            final(self).wf(),
            final(self).kv() == old(self).kv(),
            final(self).subs() == spec_acquire(old(self).subs(), id),
    {
        match self.find_channel(id) {
            Some(i) => {
                proof {
                    lemma_assoc_map_at(self.sub_entries(), i as int);
                }
                let rx = sender_subscribe(&self.channels[i].sender);
                let count = self.channels[i].subscribers;
                if count < usize::MAX {
                    proof {
                        lemma_assoc_map_update(self.sub_entries(), i as int, (count + 1) as nat);
                        lemma_distinct_update(self.sub_entries(), i as int, (count + 1) as nat);
                    }
                    let ghost pre = self.sub_entries();
                    let mut entry = self.channels.remove(i);
                    entry.subscribers = count + 1;
                    self.channels.insert(i, entry);
                    proof {
                        assert(self.sub_entries() =~= pre.update(i as int, (id, (count + 1) as nat)));
                    }
                }
                rx
            }
            None => {
                let (tx, rx) = broadcast_channel(CHANNEL_CAPACITY);
                let ghost pre = self.sub_entries();
                proof {
                    lemma_assoc_map_contains(pre, id);
                }
                self.channels.push(ChannelEntry { id, subscribers: 1, sender: tx });
                proof {
                    assert(self.sub_entries() =~= pre.push((id, 1nat)));
                    assert(self.sub_entries().drop_last() =~= pre);
                }
                rx
            }
        }
    }

    /// Gives up one subscription to channel `id`: the count drops by one, and
    /// the last subscriber's departure removes the channel from the registry.
    /// On an unregistered id this is a no-op.
    pub fn unsubscribe(&mut self, id: u32)
        requires
            old(self).wf(),
        ensures
            final(self).wf(),
            final(self).kv() == old(self).kv(),
            final(self).subs() == spec_release(old(self).subs(), id),
    {
        match self.find_channel(id) {
            Some(i) => {
                proof {
                    lemma_assoc_map_at(self.sub_entries(), i as int);
                }
                let count = self.channels[i].subscribers;
                if count > 1 {
                    proof {
                        lemma_assoc_map_update(self.sub_entries(), i as int, (count - 1) as nat);
                        lemma_distinct_update(self.sub_entries(), i as int, (count - 1) as nat);
                    }
                    let ghost pre = self.sub_entries();
                    let mut entry = self.channels.remove(i);
                    entry.subscribers = count - 1;
                    self.channels.insert(i, entry);
                    proof {
                        assert(self.sub_entries() =~= pre.update(i as int, (id, (count - 1) as nat)));
                    }
                } else {
                    proof {
                        lemma_assoc_map_remove(self.sub_entries(), i as int);
                        lemma_distinct_remove(self.sub_entries(), i as int);
                    }
                    let ghost pre = self.sub_entries();
                    self.channels.remove(i);
                    proof {
                        assert(self.sub_entries() =~= pre.remove(i as int));
                    }
                }
            }
            None => {}
        }
    }
}

impl Default for Database {
    /// An empty store, as `Database::new` gives.
    fn default() -> (db: Database)
        ensures
            db.wf(),
            db.kv() == Map::<Seq<u8>, Seq<u8>>::empty(),
            db.subs() == Map::<u32, nat>::empty(),
    {
        Database::new()
    }
}

/// Byte-for-byte equality of two slices.
fn bytes_eq(a: &[u8], b: &[u8]) -> (r: bool)
    ensures
        r == (a@ == b@),
{
    if a.len() != b.len() {
        return false;
    }
    let mut i: usize = 0;
    while i < a.len()
        invariant
            i <= a@.len(),
            a@.len() == b@.len(),
            forall|j: int| 0 <= j < i ==> a@[j] == b@[j],
        decreases a@.len() - i,
    {
        if a[i] != b[i] {
            return false;
        }
        i = i + 1;
    }
    proof {
        assert(a@ =~= b@);
    }
    true
}


// ---------------------------------------------------------------------------
// Laws of the store
// ---------------------------------------------------------------------------

/// Law: setting a key then reading it gives the value just written, for every
/// key and value; reading goes by the last write.
pub proof fn lemma_set_then_get(kv: Map<Seq<u8>, Seq<u8>>, key: Seq<u8>, value: Seq<u8>)
    ensures
        kv.insert(key, value).contains_key(key),
        kv.insert(key, value)[key] == value,
{
}

/// Law: a second write to the same key overwrites the first; reading returns
/// the newer value.
pub proof fn lemma_set_overwrites(
    kv: Map<Seq<u8>, Seq<u8>>,
    key: Seq<u8>,
    first: Seq<u8>,
    second: Seq<u8>,
)
    ensures
        kv.insert(key, first).insert(key, second)[key] == second,
{
}

/// Law: after a delete the key reads as absent; deleting an absent key leaves
/// the store unchanged (and `delete` itself reports presence).
pub proof fn lemma_delete_then_get(kv: Map<Seq<u8>, Seq<u8>>, key: Seq<u8>)
    ensures
        !kv.remove(key).contains_key(key),
        !kv.contains_key(key) ==> kv.remove(key) == kv,
{
    if !kv.contains_key(key) {
        assert(kv.remove(key) =~= kv);
    }
}

/// Law: giving up a subscription undoes taking it, so a channel subscribed to
/// once and then unsubscribed from is reclaimed: the registry is as before,
/// and publishing to it reports an unregistered channel again. Holds for
/// every registry whose count for `id`, if one is registered, is at least one
/// (as `lemma_registry_counts` gives for a store's registry) and below the
/// machine word's cap, where one more subscription saturates.
pub proof fn lemma_release_undoes_acquire(subs: Map<u32, nat>, id: u32)
    requires
        subs.contains_key(id) ==> 1 <= subs[id] < usize::MAX,
    ensures
        spec_release(spec_acquire(subs, id), id) == subs,
{
    if subs.contains_key(id) {
        assert(spec_release(spec_acquire(subs, id), id) =~= subs);
    } else {
        assert(spec_release(spec_acquire(subs, id), id) =~= subs);
    }
}

/// A well-formed store registers a channel only while it has at least one
/// subscriber.
pub proof fn lemma_registry_counts(db: &Database)
    requires
        db.wf(),
    ensures
        forall|id: u32| #[trigger] db.subs().contains_key(id) ==> 1 <= db.subs()[id],
{
    assert forall|id: u32| #[trigger] db.subs().contains_key(id) implies 1 <= db.subs()[id] by {
        lemma_assoc_map_contains(db.sub_entries(), id);
        let i = choose|i: int| 0 <= i < db.sub_entries().len() && (#[trigger] db.sub_entries()[i]).0
            == id;
        lemma_assoc_map_at(db.sub_entries(), i);
    }
}

} // verus!
