//! The in-memory reference backend: a list of entries with distinct keys,
//! enumerated in the order in which the keys were first bound.

use crate::db::api::{cursor_of, Batch, Config, Db, Driver, KeyList, MutationOp};
use crate::db::model::{
    apply_changes, order_after, order_after_all, page_start, Change, MAX_ITER_KEYS,
};
use vstd::prelude::*;
use vstd::slice::slice_to_vec;

verus! {

/// Whether two byte strings hold the same bytes.
fn same_bytes(a: &[u8], b: &[u8]) -> (r: bool)
    ensures
        r == (a@ == b@),
{
    if a.len() != b.len() {
        return false;
    }
    let mut i: usize = 0;
    while i < a.len()
        invariant
            a@.len() == b@.len(),
            i <= a@.len(),
            forall|j: int| 0 <= j < i ==> a@[j] == b@[j],
        decreases a@.len() - i,
    {
        if a[i] != b[i] {
            return false;
        }
        i += 1;
    }
    assert(a@ =~= b@);
    true
}

/// One binding of the reference backend.
struct Entry {
    key: Vec<u8>,
    value: Vec<u8>,
}

/// The keys of `entries`, in order.
spec fn keys_of(entries: Seq<Entry>) -> Seq<Seq<u8>> {
    entries.map_values(|e: Entry| e.key@)
}

/// The map that `entries` stands for: each key bound to the value of the
/// entry that holds it.
spec fn map_of(entries: Seq<Entry>) -> Map<Seq<u8>, Seq<u8>> {
    Map::new(
        |k: Seq<u8>| keys_of(entries).contains(k),
        |k: Seq<u8>| entries[keys_of(entries).index_of(k)].value@,
    )
}

/// In a list of distinct keys a key sits at one index only.
proof fn lemma_index_of_key(entries: Seq<Entry>, i: int)
    requires
        keys_of(entries).no_duplicates(),
        0 <= i < entries.len(),
    ensures
        keys_of(entries).contains(entries[i].key@),
        keys_of(entries).index_of(entries[i].key@) == i,
        map_of(entries).contains_key(entries[i].key@),
        map_of(entries)[entries[i].key@] == entries[i].value@,
{
    let keys = keys_of(entries);
    assert(keys[i] == entries[i].key@);
    let j = keys.index_of(entries[i].key@);
    assert(0 <= j < keys.len() && keys[j] == entries[i].key@);
}

/// Appending an entry with a new key binds that key and leaves the rest.
proof fn lemma_push_entry(entries: Seq<Entry>, e: Entry)
    requires
        keys_of(entries).no_duplicates(),
        !keys_of(entries).contains(e.key@),
    ensures
        keys_of(entries.push(e)) == keys_of(entries).push(e.key@),
        keys_of(entries.push(e)).no_duplicates(),
        map_of(entries.push(e)) == map_of(entries).insert(e.key@, e.value@),
{
    let keys = keys_of(entries);
    let grown = entries.push(e);
    let grown_keys = keys_of(grown);
    assert(grown_keys =~= keys.push(e.key@));
    assert forall|i: int| 0 <= i < keys.len() implies keys[i] != e.key@ by {
        if keys[i] == e.key@ {
            assert(keys.contains(e.key@));
        }
    }
    assert(grown_keys.no_duplicates());
    assert forall|k: Seq<u8>|
        map_of(grown).contains_key(k) == map_of(entries).insert(e.key@, e.value@).contains_key(
            k,
        ) by {
        if keys.contains(k) {
            let j = keys.index_of(k);
            assert(grown_keys[j] == k);
        }
        if grown_keys.contains(k) {
            let j = grown_keys.index_of(k);
            if j < keys.len() {
                assert(keys[j] == k);
            }
        }
        assert(grown_keys[keys.len() as int] == e.key@);
    }
    assert forall|k: Seq<u8>| map_of(grown).contains_key(k) implies map_of(grown)[k] == map_of(
        entries,
    ).insert(e.key@, e.value@)[k] by {
        let j = grown_keys.index_of(k);
        lemma_index_of_key(grown, j);
        if j < keys.len() {
            lemma_index_of_key(entries, j);
        }
    }
    assert(map_of(grown) =~= map_of(entries).insert(e.key@, e.value@));
}

/// Replacing the entry that holds a key rebinds that key and leaves the
/// rest, the order included.
proof fn lemma_update_entry(entries: Seq<Entry>, i: int, e: Entry)
    requires
        keys_of(entries).no_duplicates(),
        0 <= i < entries.len(),
        entries[i].key@ == e.key@,
    ensures
        keys_of(entries.update(i, e)) == keys_of(entries),
        map_of(entries.update(i, e)) == map_of(entries).insert(e.key@, e.value@),
{
    let keys = keys_of(entries);
    let changed = entries.update(i, e);
    assert(keys_of(changed) =~= keys);
    lemma_index_of_key(changed, i);
    assert forall|k: Seq<u8>| map_of(changed).contains_key(k) implies map_of(changed)[k] == map_of(
        entries,
    ).insert(e.key@, e.value@)[k] by {
        let j = keys.index_of(k);
        lemma_index_of_key(changed, j);
        lemma_index_of_key(entries, j);
    }
    assert(map_of(changed) =~= map_of(entries).insert(e.key@, e.value@));
}

/// Taking an entry out unbinds its key and leaves the rest in place.
proof fn lemma_remove_entry(entries: Seq<Entry>, i: int)
    requires
        keys_of(entries).no_duplicates(),
        0 <= i < entries.len(),
    ensures
        keys_of(entries.remove(i)) == keys_of(entries).remove(i),
        keys_of(entries.remove(i)).no_duplicates(),
        map_of(entries.remove(i)) == map_of(entries).remove(entries[i].key@),
{
    let keys = keys_of(entries);
    let rest = entries.remove(i);
    let rest_keys = keys_of(rest);
    let gone = entries[i].key@;
    assert(rest_keys =~= keys.remove(i));
    assert forall|j: int| 0 <= j < rest.len() implies rest[j] == entries[if j < i {
        j
    } else {
        j + 1
    }] by {}
    assert(rest_keys.no_duplicates()) by {
        assert forall|a: int, b: int|
            0 <= a < rest_keys.len() && 0 <= b < rest_keys.len() && a != b implies rest_keys[a]
            != rest_keys[b] by {
            let a0 = if a < i { a } else { a + 1 };
            let b0 = if b < i { b } else { b + 1 };
            assert(rest_keys[a] == keys[a0]);
            assert(rest_keys[b] == keys[b0]);
        }
    }
    lemma_index_of_key(entries, i);
    assert forall|k: Seq<u8>|
        map_of(rest).contains_key(k) == map_of(entries).remove(gone).contains_key(k) by {
        if rest_keys.contains(k) {
            let j = rest_keys.index_of(k);
            let j0 = if j < i { j } else { j + 1 };
            assert(keys[j0] == k);
            assert(keys[i] == gone);
        }
        if keys.contains(k) && k != gone {
            let j0 = keys.index_of(k);
            let j = if j0 < i { j0 } else { j0 - 1 };
            assert(rest_keys[j] == k);
        }
    }
    assert forall|k: Seq<u8>| map_of(rest).contains_key(k) implies map_of(rest)[k] == map_of(
        entries,
    ).remove(gone)[k] by {
        let j = rest_keys.index_of(k);
        let j0 = if j < i { j } else { j + 1 };
        lemma_index_of_key(rest, j);
        lemma_index_of_key(entries, j0);
    }
    assert(map_of(rest) =~= map_of(entries).remove(gone));
}

/// The in-memory reference backend.
pub struct MemDb {
    entries: Vec<Entry>,
}

impl MemDb {
    /// A database without bindings.
    pub fn new() -> (db: MemDb)
        ensures
            db.inv(),
            db.bindings() == Map::<Seq<u8>, Seq<u8>>::empty(),
            db.key_order() == Seq::<Seq<u8>>::empty(),
            !db.read_only(),
    {
        let db = MemDb { entries: Vec::new() };
        assert(db.bindings() =~= Map::<Seq<u8>, Seq<u8>>::empty());
        assert(db.key_order() =~= Seq::<Seq<u8>>::empty());
        db
    }

    /// The index of the entry that holds `key`, if there is one.
    fn find(&self, key: &[u8]) -> (r: Option<usize>)
        ensures
            match r {
                Some(i) => i < self.entries@.len() && self.entries@[i as int].key@ == key@,
                None => !self.key_order().contains(key@),
            },
    {
        let mut i: usize = 0;
        while i < self.entries.len()
            invariant
                i <= self.entries@.len(),
                forall|j: int| 0 <= j < i ==> self.entries@[j].key@ != key@,
            decreases self.entries@.len() - i,
        {
            if same_bytes(self.entries[i].key.as_slice(), key) {
                return Some(i);
            }
            i += 1;
        }
        assert(!self.key_order().contains(key@)) by {
            if self.key_order().contains(key@) {
                let j = choose|j: int| 0 <= j < self.key_order().len() && self.key_order()[j] == key@;
                assert(self.entries@[j].key@ == key@);
            }
        }
        None
    }
}

impl Db for MemDb {
    closed spec fn bindings(&self) -> Map<Seq<u8>, Seq<u8>> {
        map_of(self.entries@)
    }

    closed spec fn key_order(&self) -> Seq<Seq<u8>> {
        keys_of(self.entries@)
    }

    closed spec fn read_only(&self) -> bool {
        false
    }

    closed spec fn inv(&self) -> bool {
        keys_of(self.entries@).no_duplicates()
    }

    proof fn lemma_key_order(&self) {
    }

    fn apply_batch(&mut self, batch: &Batch) -> (r: Result<bool, &'static str>)
        ensures
            r is Ok,
            final(self).key_order() == order_after_all(old(self).key_order(), batch@),
    {
        let mut i: usize = 0;
        while i < batch.ops.len()
            invariant
                i <= batch.ops@.len(),
                batch.wf(),
                self.inv(),
                self.bindings() == apply_changes(old(self).bindings(), batch@.take(i as int)),
                self.key_order() == order_after_all(old(self).key_order(), batch@.take(i as int)),
            decreases batch.ops@.len() - i,
        {
            let m = &batch.ops[i];
            proof {
                assert(batch@.take(i as int + 1).drop_last() =~= batch@.take(i as int));
                assert(batch@.take(i as int + 1).last() == m@);
                assert(m.wf());
            }
            match m.op {
                MutationOp::Insert => {
                    match &m.value {
                        Some(v) => {
                            let _ = self.put(m.key.as_slice(), v.as_slice());
                        },
                        // A well-formed insert carries its value.
                        None => {},
                    }
                },
                MutationOp::Remove => {
                    let _ = self.del(m.key.as_slice());
                },
            }
            i += 1;
        }
        assert(batch@.take(i as int) =~= batch@);
        Ok(true)
    }

    fn clear(&mut self) -> (r: Result<bool, &'static str>)
        ensures
            r is Ok,
    {
        self.entries.clear();
        assert(self.bindings() =~= Map::<Seq<u8>, Seq<u8>>::empty());
        assert(self.key_order() =~= Seq::<Seq<u8>>::empty());
        Ok(true)
    }

    fn del(&mut self, key: &[u8]) -> (r: Result<bool, &'static str>)
        ensures
            r is Ok,
            final(self).key_order() == order_after(old(self).key_order(), Change::Remove(key@)),
    {
        match self.find(key) {
            Some(i) => {
                proof {
                    lemma_index_of_key(self.entries@, i as int);
                    lemma_remove_entry(self.entries@, i as int);
                }
                let _ = self.entries.remove(i);
                Ok(true)
            },
            None => {
                assert(self.bindings().remove(key@) =~= self.bindings());
                Ok(false)
            },
        }
    }

    fn get(&self, key: &[u8]) -> (r: Result<Option<Vec<u8>>, &'static str>)
        ensures
            r is Ok,
    {
        match self.find(key) {
            Some(i) => {
                proof {
                    lemma_index_of_key(self.entries@, i as int);
                }
                Ok(Some(slice_to_vec(self.entries[i].value.as_slice())))
            },
            None => Ok(None),
        }
    }

    fn put(&mut self, key: &[u8], val: &[u8]) -> (r: Result<bool, &'static str>)
        ensures
            r is Ok,
            final(self).key_order() == order_after(
                old(self).key_order(),
                Change::Insert(key@, val@),
            ),
    {
        let entry = Entry { key: slice_to_vec(key), value: slice_to_vec(val) };
        match self.find(key) {
            Some(i) => {
                proof {
                    lemma_index_of_key(self.entries@, i as int);
                    lemma_update_entry(self.entries@, i as int, entry);
                }
                self.entries.set(i, entry);
            },
            None => {
                proof {
                    lemma_push_entry(self.entries@, entry);
                }
                self.entries.push(entry);
            },
        }
        Ok(true)
    }

    fn iter_keys(&self, start_key: Option<&[u8]>) -> (r: Result<KeyList, &'static str>)
        ensures
            r is Ok,
    {
        let n = self.entries.len();
        let start: usize = match start_key {
            None => 0,
            Some(prev) => match self.find(prev) {
                Some(i) => {
                    proof {
                        lemma_index_of_key(self.entries@, i as int);
                    }
                    i + 1
                },
                None => n,
            },
        };
        assert(start == page_start(self.key_order(), cursor_of(start_key)));
        let mut keys: Vec<Vec<u8>> = Vec::new();
        let mut i: usize = start;
        while i < n && keys.len() < MAX_ITER_KEYS
            invariant
                n == self.entries@.len(),
                start <= i <= n,
                keys@.len() == i - start,
                keys@.len() <= MAX_ITER_KEYS,
                keys@.map_values(|k: Vec<u8>| k@) == self.key_order().subrange(
                    start as int,
                    i as int,
                ),
            decreases n - i,
        {
            keys.push(slice_to_vec(self.entries[i].key.as_slice()));
            i += 1;
            assert(keys@.map_values(|k: Vec<u8>| k@) =~= self.key_order().subrange(
                start as int,
                i as int,
            ));
        }
        Ok(KeyList { keys, list_end: i == n })
    }
}

/// The driver of the in-memory reference backend.
pub struct MemDriver {}

impl Driver for MemDriver {
    type Handle = MemDb;

    open spec fn enforces_read_only(&self) -> bool {
        false
    }

    /// Opens a fresh, empty database; neither the path nor the read-only
    /// flag of `cfg` has any effect.
    fn start_db(&self, cfg: Config) -> (r: Result<MemDb, &'static str>)
        ensures
            r matches Ok(db) && db.bindings() == Map::<Seq<u8>, Seq<u8>>::empty() && db.key_order()
                == Seq::<Seq<u8>>::empty() && !db.read_only(),
    {
        Ok(MemDb::new())
    }
}

/// The reference driver.
pub fn new_driver() -> (d: MemDriver)
    ensures
        !d.enforces_read_only(),
{
    MemDriver {  }
}

} // verus!
