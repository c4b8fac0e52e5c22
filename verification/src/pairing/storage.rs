//! Storage of pairing keys: the interface that persistent stores implement,
//! and an in-memory store.
use vstd::prelude::*;
use crate::text::str_eq;

verus! {

/// Stored pairing keys for a device.
#[derive(Debug)]
pub struct PairingKeys {
    /// Our identifier (e.g., "airplay2-rs")
    pub identifier: Vec<u8>,
    /// Our Ed25519 secret key (32 bytes)
    pub secret_key: [u8; 32],
    /// Our Ed25519 public key (32 bytes)
    pub public_key: [u8; 32],
    /// Device's Ed25519 public key (32 bytes)
    pub device_public_key: [u8; 32],
}

/// Pairing keys as the contracts see them.
pub struct KeysModel {
    /// Our identifier.
    pub identifier: Seq<u8>,
    /// Our secret key.
    pub secret_key: Seq<u8>,
    /// Our public key.
    pub public_key: Seq<u8>,
    /// The device's public key.
    pub device_public_key: Seq<u8>,
}

impl View for PairingKeys {
    type V = KeysModel;

    open spec fn view(&self) -> KeysModel {
        KeysModel {
            identifier: self.identifier@,
            secret_key: self.secret_key@,
            public_key: self.public_key@,
            device_public_key: self.device_public_key@,
        }
    }
}

impl PairingKeys {
    /// A copy of the keys.
    pub fn duplicate(&self) -> (r: PairingKeys)
        ensures
            r@ == self@,
    {
        PairingKeys {
            identifier: crate::bytes::copy_bytes(self.identifier.as_slice()),
            secret_key: self.secret_key,
            public_key: self.public_key,
            device_public_key: self.device_public_key,
        }
    }
}

impl Clone for PairingKeys {
    fn clone(&self) -> (r: Self)
        ensures
            r@ == self@,
    {
        self.duplicate()
    }
}

#[verifier::external_type_specification]
#[verifier::external_body]
pub struct ExIoError(std::io::Error);

/// Storage errors.
#[derive(Debug)]
pub enum StorageError {
    /// I/O error
    Io(std::io::Error),
    /// Serialization error
    Serialization(String),
    /// Storage not available
    NotAvailable,
}

/// Abstract storage interface for pairing keys.
pub trait PairingStorage {
    /// The stored keys, by device ID.
    spec fn stored(&self) -> Map<Seq<char>, KeysModel>;

    /// Load keys for a device.
    fn load(&self, device_id: &str) -> (r: Option<PairingKeys>)
        ensures
            r matches Some(k) ==> self.stored().contains_key(device_id@) && self.stored()[device_id@]
                == k@,
            r is None ==> !self.stored().contains_key(device_id@),
    ;

    /// Save keys for a device (replacing any keys stored for it).
    fn save(&mut self, device_id: &str, keys: &PairingKeys) -> (r: Result<(), StorageError>)
        ensures
            r is Ok ==> final(self).stored() == old(self).stored().insert(device_id@, keys@),
    ;

    /// Remove keys for a device.
    fn remove(&mut self, device_id: &str) -> (r: Result<(), StorageError>)
        ensures
            r is Ok ==> final(self).stored() == old(self).stored().remove(device_id@),
    ;

    /// List all stored device IDs.
    fn list_devices(&self) -> (r: Vec<String>)
        ensures
            r@.map_values(|s: String| s@).to_set() == self.stored().dom(),
    ;
}

/// The map that a list of (ID, keys) entries with distinct IDs stands for.
pub open spec fn entries_map(es: Seq<(Seq<char>, KeysModel)>) -> Map<Seq<char>, KeysModel>
    decreases es.len(),
{
    if es.len() == 0 {
        Map::empty()
    } else {
        entries_map(es.drop_last()).insert(es.last().0, es.last().1)
    }
}

/// Whether no two entries share an ID.
pub open spec fn distinct_ids(es: Seq<(Seq<char>, KeysModel)>) -> bool {
    forall|i: int, j: int| 0 <= i < j < es.len() ==> (#[trigger] es[i]).0 != (#[trigger] es[j]).0
}

/// In-memory pairing storage (non-persistent).
#[derive(Debug)]
pub struct MemoryStorage {
    keys: Vec<(String, PairingKeys)>,
}

impl MemoryStorage {
    /// The entries as the contracts see them.
    pub closed spec fn entries(&self) -> Seq<(Seq<char>, KeysModel)> {
        self.keys@.map_values(|e: (String, PairingKeys)| (e.0@, e.1@))
    }

    /// The stored entries have distinct IDs.
    #[verifier::type_invariant]
    spec fn ids_distinct(&self) -> bool {
        distinct_ids(self.entries())
    }

    /// Create a new, empty in-memory storage.
    pub fn new() -> (r: Self)
        ensures
            r.stored() == Map::<Seq<char>, KeysModel>::empty(),
    {
        let r = MemoryStorage { keys: Vec::new() };
        assert(r.entries() =~= Seq::<(Seq<char>, KeysModel)>::empty());
        r
    }

    fn find(&self, device_id: &str) -> (r: Option<usize>)
        ensures
            r matches Some(i) ==> i < self.entries().len() && self.entries()[i as int].0
                == device_id@,
            r is None ==> forall|j: int|
                0 <= j < self.entries().len() ==> (#[trigger] self.entries()[j]).0 != device_id@,
    {
        let mut i: usize = 0;
        while i < self.keys.len()
            invariant
                i <= self.keys@.len(),
                forall|j: int| 0 <= j < i ==> (#[trigger] self.entries()[j]).0 != device_id@,
            decreases self.keys@.len() - i,
        {
            if str_eq(self.keys[i].0.as_str(), device_id) {
                return Some(i);
            }
            i = i + 1;
        }
        None
    }
}

proof fn lemma_entries_map_index(es: Seq<(Seq<char>, KeysModel)>, i: int)
    requires
        distinct_ids(es),
        0 <= i < es.len(),
    ensures
        entries_map(es).contains_key(es[i].0),
        entries_map(es)[es[i].0] == es[i].1,
    decreases es.len(),
{
    if i < es.len() - 1 {
        let d = es.drop_last();
        assert(distinct_ids(d)) by {
            assert forall|a: int, b: int| 0 <= a < b < d.len() implies (#[trigger] d[a]).0
                != (#[trigger] d[b]).0 by {
                assert(d[a] == es[a] && d[b] == es[b]);
            }
        }
        assert(d[i] == es[i]);
        lemma_entries_map_index(d, i);
        assert(es[i].0 != es.last().0);
    }
}

proof fn lemma_entries_map_absent(es: Seq<(Seq<char>, KeysModel)>, id: Seq<char>)
    requires
        forall|j: int| 0 <= j < es.len() ==> (#[trigger] es[j]).0 != id,
    ensures
        !entries_map(es).contains_key(id),
    decreases es.len(),
{
    if es.len() > 0 {
        let d = es.drop_last();
        assert forall|j: int| 0 <= j < d.len() implies (#[trigger] d[j]).0 != id by {
            assert(d[j] == es[j]);
        }
        lemma_entries_map_absent(d, id);
        assert(es[es.len() - 1].0 != id);
    }
}

proof fn lemma_entries_map_dom(es: Seq<(Seq<char>, KeysModel)>)
    ensures
        entries_map(es).dom() == es.map_values(|e: (Seq<char>, KeysModel)| e.0).to_set(),
    decreases es.len(),
{
    let ids = es.map_values(|e: (Seq<char>, KeysModel)| e.0);
    if es.len() == 0 {
        assert(ids.to_set() =~= Set::<Seq<char>>::empty());
        assert(entries_map(es).dom() =~= Set::<Seq<char>>::empty());
    } else {
        let d = es.drop_last();
        lemma_entries_map_dom(d);
        let dids = d.map_values(|e: (Seq<char>, KeysModel)| e.0);
        assert(ids =~= dids.push(es.last().0));
        assert(ids.to_set() =~= dids.to_set().insert(es.last().0)) by {
            assert forall|x: Seq<char>| ids.to_set().contains(x) <==> dids.to_set().insert(
                es.last().0,
            ).contains(x) by {
                if ids.to_set().contains(x) {
                    let k = choose|k: int| 0 <= k < ids.len() && ids[k] == x;
                    if k < dids.len() {
                        assert(dids[k] == x);
                    }
                }
                if dids.to_set().contains(x) {
                    let k = choose|k: int| 0 <= k < dids.len() && dids[k] == x;
                    assert(ids[k] == x);
                }
                if x == es.last().0 {
                    assert(ids[ids.len() - 1] == x);
                }
            }
        }
        assert(entries_map(es).dom() =~= entries_map(d).dom().insert(es.last().0));
    }
}

proof fn lemma_entries_map_update(es: Seq<(Seq<char>, KeysModel)>, i: int, k: KeysModel)
    requires
        distinct_ids(es),
        0 <= i < es.len(),
    ensures
        distinct_ids(es.update(i, (es[i].0, k))),
        entries_map(es.update(i, (es[i].0, k))) == entries_map(es).insert(es[i].0, k),
{
    let es2 = es.update(i, (es[i].0, k));
    assert(distinct_ids(es2)) by {
        assert forall|a: int, b: int| 0 <= a < b < es2.len() implies (#[trigger] es2[a]).0
            != (#[trigger] es2[b]).0 by {
            assert(es2[a].0 == es[a].0 && es2[b].0 == es[b].0);
        }
    }
    let m1 = entries_map(es2);
    let m2 = entries_map(es).insert(es[i].0, k);
    assert forall|id: Seq<char>| #[trigger] m1.dom().contains(id) == m2.dom().contains(id) by {
        lemma_update_at(es, i, k, id);
    }
    assert(m1.dom() =~= m2.dom());
    assert forall|id: Seq<char>| #[trigger] m1.dom().contains(id) implies m1[id] == m2[id] by {
        lemma_update_at(es, i, k, id);
    }
    assert(m1 =~= m2);
}

proof fn lemma_update_at(es: Seq<(Seq<char>, KeysModel)>, i: int, k: KeysModel, id: Seq<char>)
    requires
        distinct_ids(es),
        distinct_ids(es.update(i, (es[i].0, k))),
        0 <= i < es.len(),
    ensures
        entries_map(es.update(i, (es[i].0, k))).contains_key(id) == entries_map(es).insert(
            es[i].0,
            k,
        ).contains_key(id),
        entries_map(es.update(i, (es[i].0, k))).contains_key(id) ==> entries_map(
            es.update(i, (es[i].0, k)),
        )[id] == entries_map(es).insert(es[i].0, k)[id],
{
    let es2 = es.update(i, (es[i].0, k));
    if exists|j: int| 0 <= j < es.len() && es[j].0 == id {
        let j = choose|j: int| 0 <= j < es.len() && es[j].0 == id;
        lemma_entries_map_index(es2, j);
        lemma_entries_map_index(es, j);
    } else {
        assert forall|j: int| 0 <= j < es2.len() implies (#[trigger] es2[j]).0 != id by {
            assert(es2[j].0 == es[j].0);
        }
        assert forall|j: int| 0 <= j < es.len() implies (#[trigger] es[j]).0 != id by {}
        lemma_entries_map_absent(es2, id);
        lemma_entries_map_absent(es, id);
    }
}

proof fn lemma_entries_map_remove(es: Seq<(Seq<char>, KeysModel)>, i: int)
    requires
        distinct_ids(es),
        0 <= i < es.len(),
    ensures
        distinct_ids(es.remove(i)),
        entries_map(es.remove(i)) == entries_map(es).remove(es[i].0),
{
    let es2 = es.remove(i);
    assert(distinct_ids(es2)) by {
        assert forall|a: int, b: int| 0 <= a < b < es2.len() implies (#[trigger] es2[a]).0
            != (#[trigger] es2[b]).0 by {
            let a0 = if a < i {
                a
            } else {
                a + 1
            };
            let b0 = if b < i {
                b
            } else {
                b + 1
            };
            assert(es2[a] == es[a0] && es2[b] == es[b0]);
        }
    }
    let m1 = entries_map(es2);
    let m2 = entries_map(es).remove(es[i].0);
    assert forall|id: Seq<char>| #[trigger] m1.dom().contains(id) == m2.dom().contains(id) by {
        lemma_remove_at(es, i, id);
    }
    assert(m1.dom() =~= m2.dom());
    assert forall|id: Seq<char>| #[trigger] m1.dom().contains(id) implies m1[id] == m2[id] by {
        lemma_remove_at(es, i, id);
    }
    assert(m1 =~= m2);
}

proof fn lemma_remove_at(es: Seq<(Seq<char>, KeysModel)>, i: int, id: Seq<char>)
    requires
        distinct_ids(es),
        distinct_ids(es.remove(i)),
        0 <= i < es.len(),
    ensures
        entries_map(es.remove(i)).contains_key(id) == entries_map(es).remove(es[i].0).contains_key(
            id,
        ),
        entries_map(es.remove(i)).contains_key(id) ==> entries_map(es.remove(i))[id] == entries_map(
            es,
        ).remove(es[i].0)[id],
{
    let es2 = es.remove(i);
    if id == es[i].0 {
        assert forall|j: int| 0 <= j < es2.len() implies (#[trigger] es2[j]).0 != id by {
            let j0 = if j < i {
                j
            } else {
                j + 1
            };
            assert(es2[j] == es[j0]);
        }
        lemma_entries_map_absent(es2, id);
    } else if exists|j: int| 0 <= j < es.len() && es[j].0 == id {
        let j = choose|j: int| 0 <= j < es.len() && es[j].0 == id;
        let j2 = if j < i {
            j
        } else {
            j - 1
        };
        assert(es2[j2] == es[j]);
        lemma_entries_map_index(es2, j2);
        lemma_entries_map_index(es, j);
    } else {
        assert forall|j: int| 0 <= j < es2.len() implies (#[trigger] es2[j]).0 != id by {
            let j0 = if j < i {
                j
            } else {
                j + 1
            };
            assert(es2[j] == es[j0]);
        }
        assert forall|j: int| 0 <= j < es.len() implies (#[trigger] es[j]).0 != id by {}
        lemma_entries_map_absent(es2, id);
        lemma_entries_map_absent(es, id);
    }
}

proof fn lemma_entries_map_push(es: Seq<(Seq<char>, KeysModel)>, id: Seq<char>, k: KeysModel)
    requires
        distinct_ids(es),
        forall|j: int| 0 <= j < es.len() ==> (#[trigger] es[j]).0 != id,
    ensures
        distinct_ids(es.push((id, k))),
        entries_map(es.push((id, k))) == entries_map(es).insert(id, k),
{
    let es2 = es.push((id, k));
    assert(distinct_ids(es2)) by {
        assert forall|a: int, b: int| 0 <= a < b < es2.len() implies (#[trigger] es2[a]).0
            != (#[trigger] es2[b]).0 by {
            assert(es2[a] == es[a]);
            if b < es.len() {
                assert(es2[b] == es[b]);
            }
        }
    }
    assert(es2.drop_last() =~= es);
}

impl PairingStorage for MemoryStorage {
    closed spec fn stored(&self) -> Map<Seq<char>, KeysModel> {
        entries_map(self.entries())
    }

    fn load(&self, device_id: &str) -> (r: Option<PairingKeys>) {
        proof {
            use_type_invariant(self);
        }
        match self.find(device_id) {
            Some(i) => {
                proof {
                    lemma_entries_map_index(self.entries(), i as int);
                }
                Some(self.keys[i].1.duplicate())
            },
            None => {
                proof {
                    lemma_entries_map_absent(self.entries(), device_id@);
                }
                None
            },
        }
    }

    fn save(&mut self, device_id: &str, keys: &PairingKeys) -> (r: Result<(), StorageError>)
        ensures
            r is Ok,
    {
        proof {
            use_type_invariant(&*self);
        }
        let ghost es = self.entries();
        match self.find(device_id) {
            Some(i) => {
                proof {
                    lemma_entries_map_update(es, i as int, keys@);
                }
                let mut entries = Vec::new();
                std::mem::swap(&mut entries, &mut self.keys);
                let id = String::from_str(device_id);
                entries.set(i, (id, keys.duplicate()));
                proof {
                    assert(entries@.map_values(|e: (String, PairingKeys)| (e.0@, e.1@)) =~= es.update(
                        i as int,
                        (es[i as int].0, keys@),
                    ));
                }
                self.keys = entries;
            },
            None => {
                proof {
                    lemma_entries_map_push(es, device_id@, keys@);
                }
                let mut entries = Vec::new();
                std::mem::swap(&mut entries, &mut self.keys);
                entries.push((String::from_str(device_id), keys.duplicate()));
                proof {
                    assert(entries@.map_values(|e: (String, PairingKeys)| (e.0@, e.1@)) =~= es.push(
                        (device_id@, keys@),
                    ));
                }
                self.keys = entries;
            },
        }
        Ok(())
    }

    fn remove(&mut self, device_id: &str) -> (r: Result<(), StorageError>)
        ensures
            r is Ok,
    {
        proof {
            use_type_invariant(&*self);
        }
        let ghost es = self.entries();
        match self.find(device_id) {
            Some(i) => {
                proof {
                    lemma_entries_map_remove(es, i as int);
                }
                let mut entries = Vec::new();
                std::mem::swap(&mut entries, &mut self.keys);
                let _removed = entries.remove(i);
                proof {
                    assert(entries@.map_values(|e: (String, PairingKeys)| (e.0@, e.1@)) =~= es.remove(
                        i as int,
                    ));
                }
                self.keys = entries;
            },
            None => {
                proof {
                    lemma_entries_map_absent(es, device_id@);
                    assert(entries_map(es).remove(device_id@) =~= entries_map(es));
                }
            },
        }
        Ok(())
    }

    fn list_devices(&self) -> (r: Vec<String>) {
        let mut out: Vec<String> = Vec::new();
        let mut i: usize = 0;
        while i < self.keys.len()
            invariant
                i <= self.keys@.len(),
                out@.map_values(|s: String| s@) == self.entries().subrange(0, i as int).map_values(
                    |e: (Seq<char>, KeysModel)| e.0,
                ),
            decreases self.keys@.len() - i,
        {
            let ghost prev = out@;
            let name = String::from_str(self.keys[i].0.as_str());
            out.push(name);
            proof {
                assert(self.entries()[i as int].0 == self.keys@[i as int].0@);
                assert(out@.map_values(|s: String| s@) =~= prev.map_values(|s: String| s@).push(
                    name@,
                ));
                assert(self.entries().subrange(0, i + 1).map_values(|e: (Seq<char>, KeysModel)| e.0)
                    =~= self.entries().subrange(0, i as int).map_values(
                    |e: (Seq<char>, KeysModel)| e.0,
                ).push(self.entries()[i as int].0));
                assert(out@.map_values(|s: String| s@) =~= self.entries().subrange(
                    0,
                    i + 1,
                ).map_values(|e: (Seq<char>, KeysModel)| e.0));
            }
            i = i + 1;
        }
        proof {
            assert(self.entries().subrange(0, self.entries().len() as int) =~= self.entries());
            lemma_entries_map_dom(self.entries());
        }
        out
    }
}

/// A read after a write gives back what was written; a removed device reads
/// as absent; other devices are unaffected by either.
pub proof fn lemma_load_after_save_remove(
    m: Map<Seq<char>, KeysModel>,
    id: Seq<char>,
    other: Seq<char>,
    k: KeysModel,
)
    requires
        other != id,
    ensures
        m.insert(id, k).contains_key(id) && m.insert(id, k)[id] == k,
        !m.remove(id).contains_key(id),
        m.insert(id, k).contains_key(other) == m.contains_key(other),
        m.contains_key(other) ==> m.insert(id, k)[other] == m[other],
        m.remove(id).contains_key(other) == m.contains_key(other),
        m.contains_key(other) ==> m.remove(id)[other] == m[other],
{
}

} // verus!
