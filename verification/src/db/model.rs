//! The mathematical model of a database: a finite map from byte keys to byte
//! values together with the order in which the backend enumerates its keys.

use vstd::prelude::*;

verus! {

/// The largest number of keys that one page of an enumeration holds.
pub const MAX_ITER_KEYS: usize = 1000;

/// One mutation, as the data model has it: either a key with the value to
/// bind to it, or a key whose binding is to go.
pub enum Change {
    Insert(Seq<u8>, Seq<u8>),
    Remove(Seq<u8>),
}

impl Change {
    /// The key that the mutation touches.
    pub open spec fn key(self) -> Seq<u8> {
        match self {
            Change::Insert(k, _) => k,
            Change::Remove(k) => k,
        }
    }

    /// What a read of the touched key yields right after the mutation.
    pub open spec fn outcome(self) -> Option<Seq<u8>> {
        match self {
            Change::Insert(_, v) => Some(v),
            Change::Remove(_) => None,
        }
    }
}

/// What a point read of `key` yields on the bindings `m`.
pub open spec fn lookup(m: Map<Seq<u8>, Seq<u8>>, key: Seq<u8>) -> Option<Seq<u8>> {
    if m.contains_key(key) {
        Some(m[key])
    } else {
        None
    }
}

/// The bindings after one mutation.
pub open spec fn apply_change(m: Map<Seq<u8>, Seq<u8>>, c: Change) -> Map<Seq<u8>, Seq<u8>> {
    match c {
        Change::Insert(k, v) => m.insert(k, v),
        Change::Remove(k) => m.remove(k),
    }
}

/// The bindings after every mutation of `changes`, taken in order.
pub open spec fn apply_changes(m: Map<Seq<u8>, Seq<u8>>, changes: Seq<Change>) -> Map<
    Seq<u8>,
    Seq<u8>,
>
    decreases changes.len(),
{
    if changes.len() == 0 {
        m
    } else {
        apply_change(apply_changes(m, changes.drop_last()), changes.last())
    }
}

/// The bindings after a clear: none, whatever was bound before.
pub open spec fn cleared(m: Map<Seq<u8>, Seq<u8>>) -> Map<Seq<u8>, Seq<u8>> {
    Map::empty()
}

/// `order` lists every key of `m` exactly once and nothing else.
pub open spec fn enumerates(order: Seq<Seq<u8>>, m: Map<Seq<u8>, Seq<u8>>) -> bool {
    &&& order.no_duplicates()
    &&& forall|k: Seq<u8>| m.contains_key(k) <==> order.contains(k)
}

/// The order of the reference backend after `key` is bound: a key that is
/// new goes to the end, and a key that is there keeps its place.
pub open spec fn order_with(order: Seq<Seq<u8>>, key: Seq<u8>) -> Seq<Seq<u8>> {
    if order.contains(key) {
        order
    } else {
        order.push(key)
    }
}

/// The order of the reference backend after `key` is unbound: the key
/// leaves, and the others keep their places relative to each other.
pub open spec fn order_without(order: Seq<Seq<u8>>, key: Seq<u8>) -> Seq<Seq<u8>> {
    if order.contains(key) {
        order.remove(order.index_of(key))
    } else {
        order
    }
}

/// The order of the reference backend after one mutation.
pub open spec fn order_after(order: Seq<Seq<u8>>, c: Change) -> Seq<Seq<u8>> {
    match c {
        Change::Insert(k, _) => order_with(order, k),
        Change::Remove(k) => order_without(order, k),
    }
}

/// The order of the reference backend after every mutation of `changes`,
/// taken in order.
pub open spec fn order_after_all(order: Seq<Seq<u8>>, changes: Seq<Change>) -> Seq<Seq<u8>>
    decreases changes.len(),
{
    if changes.len() == 0 {
        order
    } else {
        order_after(order_after_all(order, changes.drop_last()), changes.last())
    }
}

/// The position in `order` at which the page after `cursor` begins: the
/// front when there is no cursor, the slot behind the cursor when `order`
/// holds it, and the end when it does not.
pub open spec fn page_start(order: Seq<Seq<u8>>, cursor: Option<Seq<u8>>) -> int {
    match cursor {
        None => 0,
        Some(k) => if order.contains(k) {
            order.index_of(k) + 1
        } else {
            order.len() as int
        },
    }
}

/// The position in `order` just behind the page after `cursor`.
pub open spec fn page_end(order: Seq<Seq<u8>>, cursor: Option<Seq<u8>>) -> int {
    let start = page_start(order, cursor);
    if order.len() - start <= MAX_ITER_KEYS {
        order.len() as int
    } else {
        start + MAX_ITER_KEYS
    }
}

/// The keys of the page after `cursor`.
pub open spec fn page_keys(order: Seq<Seq<u8>>, cursor: Option<Seq<u8>>) -> Seq<Seq<u8>> {
    order.subrange(page_start(order, cursor), page_end(order, cursor))
}

/// Whether the page after `cursor` reaches the end of `order`.
pub open spec fn page_is_last(order: Seq<Seq<u8>>, cursor: Option<Seq<u8>>) -> bool {
    page_end(order, cursor) == order.len()
}

/// The keys that a scan visits from `cursor` on: the page after `cursor`,
/// then, unless that page is the last, the scan resumed with the last key
/// of that page as the cursor.
pub open spec fn scan_keys(order: Seq<Seq<u8>>, cursor: Option<Seq<u8>>) -> Seq<Seq<u8>>
    decreases order.len() - page_start(order, cursor),
    when order.no_duplicates()
    via scan_keys_decreases
{
    let page = page_keys(order, cursor);
    if page_is_last(order, cursor) {
        page
    } else {
        page + scan_keys(order, Some(page.last()))
    }
}

#[via_fn]
proof fn scan_keys_decreases(order: Seq<Seq<u8>>, cursor: Option<Seq<u8>>) {
    if !page_is_last(order, cursor) {
        lemma_page_bounds(order, cursor);
        lemma_resume_after_page(order, cursor);
    }
}

/// A page starts and ends inside the order, and holds at most
/// `MAX_ITER_KEYS` keys.
pub proof fn lemma_page_bounds(order: Seq<Seq<u8>>, cursor: Option<Seq<u8>>)
    ensures
        0 <= page_start(order, cursor) <= page_end(order, cursor) <= order.len(),
        page_keys(order, cursor).len() == page_end(order, cursor) - page_start(order, cursor),
        page_keys(order, cursor).len() <= MAX_ITER_KEYS,
        !page_is_last(order, cursor) ==> page_keys(order, cursor).len() == MAX_ITER_KEYS,
{
    if let Some(k) = cursor {
        if order.contains(k) {
            let i = order.index_of(k);
            assert(0 <= i < order.len());
        }
    }
}

/// Resuming with the last key of a page that is not the last one starts
/// the next page right where that page ended.
pub proof fn lemma_resume_after_page(order: Seq<Seq<u8>>, cursor: Option<Seq<u8>>)
    requires
        order.no_duplicates(),
        !page_is_last(order, cursor),
    ensures
        page_keys(order, cursor).len() > 0,
        page_start(order, Some(page_keys(order, cursor).last())) == page_end(order, cursor),
{
    lemma_page_bounds(order, cursor);
    let end = page_end(order, cursor);
    let last = page_keys(order, cursor).last();
    assert(last == order[end - 1]);
    assert(order.contains(last));
    let i = order.index_of(last);
    assert(0 <= i < order.len() && order[i] == last);
}

/// A read right after a mutation of the same key yields what the mutation
/// left there: the value of an insert, nothing after a remove.
pub proof fn lemma_read_after_change(m: Map<Seq<u8>, Seq<u8>>, c: Change)
    ensures
        lookup(apply_change(m, c), c.key()) == c.outcome(),
{
}

/// A mutation of one key leaves what every other key reads.
pub proof fn lemma_change_leaves_other_keys(m: Map<Seq<u8>, Seq<u8>>, c: Change, k: Seq<u8>)
    requires
        c.key() != k,
    ensures
        lookup(apply_change(m, c), k) == lookup(m, k),
{
}

/// A key that was bound and then removed reads as absent.
pub proof fn lemma_insert_remove_read(m: Map<Seq<u8>, Seq<u8>>, k: Seq<u8>, v: Seq<u8>)
    ensures
        lookup(apply_change(apply_change(m, Change::Insert(k, v)), Change::Remove(k)), k) is None,
{
}

/// After a key was removed, removing it again finds nothing bound to it.
pub proof fn lemma_remove_twice(m: Map<Seq<u8>, Seq<u8>>, k: Seq<u8>)
    ensures
        lookup(apply_change(m, Change::Remove(k)), k) is None,
        apply_change(apply_change(m, Change::Remove(k)), Change::Remove(k)) == apply_change(
            m,
            Change::Remove(k),
        ),
{
    assert(m.remove(k).remove(k) =~= m.remove(k));
}

/// A batch none of whose mutations touches `k` leaves what `k` reads.
pub proof fn lemma_batch_leaves_untouched_key(
    m: Map<Seq<u8>, Seq<u8>>,
    changes: Seq<Change>,
    k: Seq<u8>,
)
    requires
        forall|j: int| 0 <= j < changes.len() ==> (#[trigger] changes[j]).key() != k,
    ensures
        lookup(apply_changes(m, changes), k) == lookup(m, k),
    decreases changes.len(),
{
    if changes.len() > 0 {
        lemma_batch_leaves_untouched_key(m, changes.drop_last(), k);
        assert(changes.last() == changes[changes.len() - 1]);
    }
}

/// After a batch, a key reads what the last mutation of the batch that
/// touches it left there: the last writer wins.
pub proof fn lemma_batch_last_writer_wins(
    m: Map<Seq<u8>, Seq<u8>>,
    changes: Seq<Change>,
    k: Seq<u8>,
    i: int,
)
    requires
        0 <= i < changes.len(),
        changes[i].key() == k,
        forall|j: int| i < j < changes.len() ==> (#[trigger] changes[j]).key() != k,
    ensures
        lookup(apply_changes(m, changes), k) == changes[i].outcome(),
    decreases changes.len(),
{
    if i == changes.len() - 1 {
        assert(changes.last() == changes[i]);
    } else {
        lemma_batch_last_writer_wins(m, changes.drop_last(), k, i);
        assert(changes.last() == changes[changes.len() - 1]);
    }
}

/// A batch of one mutation does what the mutation does alone, and the
/// empty batch does nothing.
pub proof fn lemma_small_batches(m: Map<Seq<u8>, Seq<u8>>, c: Change)
    ensures
        apply_changes(m, Seq::<Change>::empty()) == m,
        apply_changes(m, seq![c]) == apply_change(m, c),
{
    reveal_with_fuel(apply_changes, 2);
    assert(seq![c].drop_last() =~= Seq::<Change>::empty());
}

/// After a clear every key reads as absent, the first page of an
/// enumeration is empty and is the last one, and a second clear changes
/// nothing.
pub proof fn lemma_cleared(m: Map<Seq<u8>, Seq<u8>>, order: Seq<Seq<u8>>, k: Seq<u8>)
    requires
        enumerates(order, cleared(m)),
    ensures
        lookup(cleared(m), k) is None,
        order == Seq::<Seq<u8>>::empty(),
        page_keys(order, None) == Seq::<Seq<u8>>::empty(),
        page_is_last(order, None),
        cleared(cleared(m)) == cleared(m),
{
    if order.len() > 0 {
        assert(order.contains(order[0]));
        assert(cleared(m).contains_key(order[0]));
    }
    assert(order =~= Seq::<Seq<u8>>::empty());
    assert(page_keys(order, None) =~= Seq::<Seq<u8>>::empty());
}

/// A scan that resumes from `cursor` visits exactly the keys that follow
/// the cursor's place, in order.
pub proof fn lemma_scan_from(order: Seq<Seq<u8>>, cursor: Option<Seq<u8>>)
    requires
        order.no_duplicates(),
    ensures
        scan_keys(order, cursor) == order.subrange(
            page_start(order, cursor),
            order.len() as int,
        ),
    decreases order.len() - page_start(order, cursor),
{
    lemma_page_bounds(order, cursor);
    let page = page_keys(order, cursor);
    if page_is_last(order, cursor) {
        assert(scan_keys(order, cursor) == page);
    } else {
        lemma_resume_after_page(order, cursor);
        let next = Some(page.last());
        lemma_scan_from(order, next);
        assert(scan_keys(order, cursor) == page + scan_keys(order, next));
        assert(page + order.subrange(page_end(order, cursor), order.len() as int)
            =~= order.subrange(page_start(order, cursor), order.len() as int));
    }
}

/// Iteration is complete: on an unchanged database, a scan from the front
/// that resumes each page with the last key of the page before visits
/// every key exactly once, and nothing else.
pub proof fn lemma_scan_complete(order: Seq<Seq<u8>>, m: Map<Seq<u8>, Seq<u8>>)
    requires
        enumerates(order, m),
    ensures
        scan_keys(order, None) == order,
        scan_keys(order, None).no_duplicates(),
        forall|k: Seq<u8>| m.contains_key(k) <==> scan_keys(order, None).contains(k),
{
    lemma_scan_from(order, None);
    assert(order.subrange(0, order.len() as int) =~= order);
}

} // verus!
