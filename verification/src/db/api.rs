//! The value and request types, and the two capabilities: a database handle
//! and the driver that opens one.

pub use crate::db::model::MAX_ITER_KEYS;
use crate::db::model::{
    apply_change, apply_changes, cleared, enumerates, lemma_scan_complete, lookup, page_is_last,
    page_keys, scan_keys, Change,
};
use vstd::prelude::*;
use vstd::slice::slice_to_vec;

verus! {

/// The kind of a mutation.
#[derive(Clone, Copy, Debug, PartialEq, Eq, Structural)]
pub enum MutationOp {
    Insert,
    Remove,
}

/// One mutation of a batch. An `Insert` carries the value to bind; a
/// `Remove` carries none.
#[derive(Debug)]
pub struct Mutation {
    pub op: MutationOp,
    pub key: Vec<u8>,
    pub value: Option<Vec<u8>>,
}

impl Mutation {
    /// An insert carries a value and a remove does not.
    pub open spec fn wf(&self) -> bool {
        (self.op is Insert) <==> (self.value is Some)
    }
}

impl View for Mutation {
    type V = Change;

    open spec fn view(&self) -> Change {
        match self.op {
            MutationOp::Insert => Change::Insert(
                self.key@,
                match self.value {
                    Some(v) => v@,
                    None => Seq::empty(),
                },
            ),
            MutationOp::Remove => Change::Remove(self.key@),
        }
    }
}

/// An ordered list of mutations, applied as one unit.
#[derive(Debug)]
pub struct Batch {
    pub ops: Vec<Mutation>,
}

impl View for Batch {
    type V = Seq<Change>;

    open spec fn view(&self) -> Seq<Change> {
        self.ops@.map_values(|m: Mutation| m@)
    }
}

impl Batch {
    /// Every mutation of the batch is well formed.
    pub open spec fn wf(&self) -> bool {
        forall|i: int| 0 <= i < self.ops@.len() ==> (#[trigger] self.ops@[i]).wf()
    }

    /// The empty batch.
    pub fn new() -> (b: Batch)
        ensures
            b@ == Seq::<Change>::empty(),
            b.wf(),
    {
        Batch { ops: Vec::new() }
    }

    /// The empty batch.
    pub fn default() -> (b: Batch)
        ensures
            b@ == Seq::<Change>::empty(),
            b.wf(),
    {
        Batch { ops: Vec::new() }
    }

    /// Appends the binding of `value_in` to `key_in`.
    pub fn insert(&mut self, key_in: &[u8], value_in: &[u8])
        ensures
            final(self)@ == old(self)@.push(Change::Insert(key_in@, value_in@)),
            old(self).wf() ==> final(self).wf(),
    {
        self.ops.push(
            Mutation {
                op: MutationOp::Insert,
                key: slice_to_vec(key_in),
                value: Some(slice_to_vec(value_in)),
            },
        );
    }

    /// Appends the removal of `key_in`.
    pub fn remove(&mut self, key_in: &[u8])
        ensures
            final(self)@ == old(self)@.push(Change::Remove(key_in@)),
            old(self).wf() ==> final(self).wf(),
    {
        self.ops.push(Mutation { op: MutationOp::Remove, key: slice_to_vec(key_in), value: None });
    }
}

/// The path of a database that was configured without one.
pub const DEFAULT_PATH: &'static str = "./db";

/// What a driver needs to open a database.
#[derive(Debug)]
pub struct Config {
    pub path: String,
    pub read_only: bool,
}

/// Collects the options of a `Config`; an option that was not set takes its
/// default.
#[derive(Debug)]
pub struct ConfigBuilder {
    pub path: Option<String>,
    pub read_only: Option<bool>,
}

impl ConfigBuilder {
    /// A builder with no option set.
    pub fn new() -> (b: ConfigBuilder)
        ensures
            b.path is None,
            b.read_only is None,
    {
        ConfigBuilder { path: None, read_only: None }
    }

    /// Sets the path and hands the builder back.
    pub fn path(&mut self, path_in: String) -> (b: &mut ConfigBuilder)
        ensures
            b.path == Some(path_in),
            b.read_only == old(self).read_only,
            *final(self) == *final(b),
    {
        self.path = Some(path_in);
        self
    }

    /// Sets the read-only flag and hands the builder back.
    pub fn read_only(&mut self, val_in: bool) -> (b: &mut ConfigBuilder)
        ensures
            b.path == old(self).path,
            b.read_only == Some(val_in),
            *final(self) == *final(b),
    {
        self.read_only = Some(val_in);
        self
    }

    /// The path that `build` gives the configuration.
    pub open spec fn built_path(&self) -> Seq<char> {
        match self.path {
            Some(p) => p@,
            None => DEFAULT_PATH@,
        }
    }

    /// The read-only flag that `build` gives the configuration.
    pub open spec fn built_read_only(&self) -> bool {
        match self.read_only {
            Some(v) => v,
            None => false,
        }
    }

    /// The configuration that the options set so far stand for.
    pub fn build(&self) -> (c: Config)
        ensures
            c.path@ == self.built_path(),
            c.read_only == self.built_read_only(),
    {
        Config {
            path: match &self.path {
                None => String::from_str(DEFAULT_PATH),
                Some(p) => p.clone(),
            },
            read_only: match &self.read_only {
                None => false,
                Some(v) => *v,
            },
        }
    }
}

/// One page of an enumeration of keys. `list_end` tells that the page
/// reaches the end of the key space.
#[derive(Debug)]
pub struct KeyList {
    pub keys: Vec<Vec<u8>>,
    pub list_end: bool,
}

impl KeyList {
    /// The keys of the page, each as a sequence of bytes.
    pub open spec fn key_seq(&self) -> Seq<Seq<u8>> {
        self.keys@.map_values(|k: Vec<u8>| k@)
    }
}

/// The cursor that a caller hands to `iter_keys`, as a sequence of bytes.
pub open spec fn cursor_of(start_key: Option<&[u8]>) -> Option<Seq<u8>> {
    match start_key {
        Some(k) => Some(k@),
        None => None,
    }
}

/// What `get` hands back, as a sequence of bytes.
pub open spec fn value_of(found: Option<Vec<u8>>) -> Option<Seq<u8>> {
    match found {
        Some(v) => Some(v@),
        None => None,
    }
}

/// A handle on one open database.
///
/// The state of a handle is a finite map from keys to values,
/// `bindings()`, and the order in which the backend enumerates the keys of
/// that map, `key_order()`. Every operation may fail with a description of
/// the fault; a failed operation leaves the state as it was.
pub trait Db: Send {
    /// The bindings that the database holds.
    spec fn bindings(&self) -> Map<Seq<u8>, Seq<u8>>;

    /// The order in which the backend enumerates its keys.
    spec fn key_order(&self) -> Seq<Seq<u8>>;

    /// Whether the handle refuses every mutation.
    spec fn read_only(&self) -> bool;

    /// The backend's own well-formedness.
    spec fn inv(&self) -> bool;

    /// A well-formed handle enumerates each of its keys exactly once.
    proof fn lemma_key_order(&self)
        requires
            self.inv(),
        ensures
            enumerates(self.key_order(), self.bindings()),
    ;

    /// Applies every mutation of `batch` in order, all of them or none.
    fn apply_batch(&mut self, batch: &Batch) -> (r: Result<bool, &'static str>)
        requires
            old(self).inv(),
            batch.wf(),
        ensures
            final(self).inv(),
            final(self).read_only() == old(self).read_only(),
            old(self).read_only() ==> r is Err,
            r matches Ok(done) ==> done && final(self).bindings() == apply_changes(
                old(self).bindings(),
                batch@,
            ),
            r is Err ==> final(self).bindings() == old(self).bindings() && final(self).key_order()
                == old(self).key_order(),
    ;

    /// Removes every binding.
    fn clear(&mut self) -> (r: Result<bool, &'static str>)
        requires
            old(self).inv(),
        ensures
            final(self).inv(),
            final(self).read_only() == old(self).read_only(),
            old(self).read_only() ==> r is Err,
            r matches Ok(done) ==> done && final(self).bindings() == cleared(
                old(self).bindings(),
            ) && final(self).key_order() == Seq::<Seq<u8>>::empty(),
            r is Err ==> final(self).bindings() == old(self).bindings() && final(self).key_order()
                == old(self).key_order(),
    ;

    /// Removes the binding of `key` and tells whether there was one.
    fn del(&mut self, key: &[u8]) -> (r: Result<bool, &'static str>)
        requires
            old(self).inv(),
        ensures
            final(self).inv(),
            final(self).read_only() == old(self).read_only(),
            old(self).read_only() ==> r is Err,
            r matches Ok(existed) ==> existed == (lookup(old(self).bindings(), key@) is Some)
                && final(self).bindings() == apply_change(
                old(self).bindings(),
                Change::Remove(key@),
            ),
            r is Err ==> final(self).bindings() == old(self).bindings() && final(self).key_order()
                == old(self).key_order(),
    ;

    /// The value bound to `key`, if there is one.
    fn get(&self, key: &[u8]) -> (r: Result<Option<Vec<u8>>, &'static str>)
        requires
            self.inv(),
        ensures
            r matches Ok(found) ==> value_of(found) == lookup(self.bindings(), key@),
    ;

    /// Binds `val` to `key`, replacing what was bound before.
    fn put(&mut self, key: &[u8], val: &[u8]) -> (r: Result<bool, &'static str>)
        requires
            old(self).inv(),
        ensures
            final(self).inv(),
            final(self).read_only() == old(self).read_only(),
            old(self).read_only() ==> r is Err,
            r matches Ok(done) ==> done && final(self).bindings() == apply_change(
                old(self).bindings(),
                Change::Insert(key@, val@),
            ),
            r is Err ==> final(self).bindings() == old(self).bindings() && final(self).key_order()
                == old(self).key_order(),
    ;

    /// The page of keys that follows `start_key` in the backend's order, or
    /// the first page when there is no `start_key`.
    fn iter_keys(&self, start_key: Option<&[u8]>) -> (r: Result<KeyList, &'static str>)
        requires
            self.inv(),
        ensures
            r matches Ok(list) ==> {
                &&& list.key_seq() == page_keys(self.key_order(), cursor_of(start_key))
                &&& list.list_end == page_is_last(self.key_order(), cursor_of(start_key))
                &&& list.keys@.len() <= MAX_ITER_KEYS
            },
    ;
}

/// Iteration over a well-formed handle is complete: while the database
/// does not change, a scan from the front that resumes each page with the
/// last key of the page before visits every bound key exactly once, and
/// nothing else.
pub proof fn lemma_handle_scan_complete<D: Db>(db: &D)
    requires
        db.inv(),
    ensures
        scan_keys(db.key_order(), None) == db.key_order(),
        scan_keys(db.key_order(), None).no_duplicates(),
        forall|k: Seq<u8>| db.bindings().contains_key(k) <==> scan_keys(db.key_order(), None).contains(k),
{
    db.lemma_key_order();
    lemma_scan_complete(db.key_order(), db.bindings());
}

/// A factory of database handles.
pub trait Driver {
    /// The handles that the driver opens.
    type Handle: Db;

    /// Whether a handle opened read-only by this driver refuses mutations.
    /// Durable drivers do; the reference driver does not.
    spec fn enforces_read_only(&self) -> bool;

    /// Opens or creates the database that `cfg` names.
    fn start_db(&self, cfg: Config) -> (r: Result<Self::Handle, &'static str>)
        ensures
            r matches Ok(db) ==> db.inv() && (self.enforces_read_only() ==> db.read_only()
                == cfg.read_only),
    ;
}

} // verus!
