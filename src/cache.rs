//! A least-recently-used cache of raw object bytes keyed by object id, whose
//! budget is a number of bytes rather than a number of entries.
//!
//! The model of the cache is a sequence of `(id, kind, bytes)`, most recently
//! used first. Eviction drops entries from the back of that sequence.
use vstd::prelude::*;
use vstd::string::StringExecFns;
use crate::kind::{Kind, ID_LEN, id_len};
use git_hash::ObjectId;

verus! {

/// A cached object as the model sees it: its id, its kind and its bytes.
pub type Cached = (ObjectId, Kind, Seq<u8>);

/// The weight of an entry with `len` bytes of data: the data, a fixed
/// overhead per entry and the bytes of its id, saturating at `usize::MAX`.
pub open spec fn weight_of(len: nat, overhead: nat) -> nat {
    let w: nat = len + overhead + ID_LEN as nat;
    if w > usize::MAX {
        usize::MAX as nat
    } else {
        w
    }
}

/// The summed weight of the entries of `s`.
pub open spec fn total_weight(s: Seq<Cached>, overhead: nat) -> nat
    decreases s.len(),
{
    if s.len() == 0 {
        0
    } else {
        total_weight(s.drop_last(), overhead) + weight_of(s.last().2.len(), overhead)
    }
}

pub open spec fn has_id(s: Seq<Cached>, id: ObjectId) -> bool {
    exists|i: int| 0 <= i < s.len() && s[i].0 == id
}

/// The position of the entry for `id`, where there is one.
pub open spec fn index_of(s: Seq<Cached>, id: ObjectId) -> int {
    choose|i: int| 0 <= i < s.len() && s[i].0 == id
}

pub open spec fn ids_unique(s: Seq<Cached>) -> bool {
    forall|i: int, j: int| 0 <= i < s.len() && 0 <= j < s.len() && s[i].0 == s[j].0 ==> i == j
}

/// `s` without the entry for `id`.
pub open spec fn without_id(s: Seq<Cached>, id: ObjectId) -> Seq<Cached> {
    if has_id(s, id) {
        s.remove(index_of(s, id))
    } else {
        s
    }
}

/// `s` with the entry for `id` moved to the front, as a lookup leaves it.
pub open spec fn touched(s: Seq<Cached>, id: ObjectId) -> Seq<Cached> {
    seq![s[index_of(s, id)]] + s.remove(index_of(s, id))
}

/// What is left of `s` once least recently used entries have been dropped
/// until an entry of weight `incoming` fits: their weight plus `incoming`
/// must not exceed `capacity`.
pub open spec fn evicted(s: Seq<Cached>, incoming: nat, capacity: nat, overhead: nat) -> Seq<Cached>
    decreases s.len(),
{
    if s.len() > 0 && total_weight(s, overhead) + incoming > capacity {
        evicted(s.drop_last(), incoming, capacity, overhead)
    } else {
        s
    }
}

/// The entries after storing `data` of `kind` under `id`. An entry heavier
/// than the whole budget is not stored, and leaves the entries as they were.
pub open spec fn put_result(
    s: Seq<Cached>,
    id: ObjectId,
    kind: Kind,
    data: Seq<u8>,
    capacity: nat,
    overhead: nat,
) -> Seq<Cached> {
    let w = weight_of(data.len(), overhead);
    if w > capacity {
        s
    } else {
        seq![(id, kind, data)] + evicted(without_id(s, id), w, capacity, overhead)
    }
}

/// The spare buffers after a put of an entry of weight `w`: the last spare
/// one, if any, holds the new entry, and the buffer of a replaced entry is
/// added at the end.
pub open spec fn spares_after_put(
    spares: Seq<Seq<u8>>,
    s: Seq<Cached>,
    id: ObjectId,
    w: nat,
    capacity: nat,
) -> Seq<Seq<u8>> {
    if w > capacity {
        spares
    } else {
        let rest = if spares.len() > 0 {
            spares.drop_last()
        } else {
            spares
        };
        if has_id(s, id) {
            rest.push(s[index_of(s, id)].2)
        } else {
            rest
        }
    }
}

proof fn lemma_evicted(s: Seq<Cached>, incoming: nat, capacity: nat, overhead: nat)
    ensures
        evicted(s, incoming, capacity, overhead).len() <= s.len(),
        evicted(s, incoming, capacity, overhead) =~= s.subrange(
            0,
            evicted(s, incoming, capacity, overhead).len() as int,
        ),
        incoming <= capacity ==> total_weight(evicted(s, incoming, capacity, overhead), overhead)
            + incoming <= capacity,
    decreases s.len(),
{
    if s.len() > 0 && total_weight(s, overhead) + incoming > capacity {
        lemma_evicted(s.drop_last(), incoming, capacity, overhead);
    }
}

/// Every entry weighs at least the bytes of its id.
proof fn lemma_count_bound(s: Seq<Cached>, overhead: nat)
    ensures
        s.len() * ID_LEN <= total_weight(s, overhead),
    decreases s.len(),
{
    if s.len() > 0 {
        lemma_count_bound(s.drop_last(), overhead);
    }
}

/// Storing an entry keeps the ids unique and the total weight within the
/// budget.
pub proof fn lemma_put_within_capacity(
    s: Seq<Cached>,
    id: ObjectId,
    kind: Kind,
    data: Seq<u8>,
    capacity: nat,
    overhead: nat,
)
    requires
        ids_unique(s),
        total_weight(s, overhead) <= capacity,
    ensures
        ids_unique(put_result(s, id, kind, data, capacity, overhead)),
        total_weight(put_result(s, id, kind, data, capacity, overhead), overhead) <= capacity,
{
    let w = weight_of(data.len(), overhead);
    if w <= capacity {
        let base = without_id(s, id);
        let ev = evicted(base, w, capacity, overhead);
        let one = seq![(id, kind, data)];
        lemma_put_front(s, id, kind, data, capacity, overhead);
        lemma_evicted(base, w, capacity, overhead);
        lemma_total_weight_concat(one, ev, overhead);
        lemma_weight_single((id, kind, data), overhead);
        assert(put_result(s, id, kind, data, capacity, overhead) == one + ev);
    }
}

proof fn lemma_total_weight_concat(a: Seq<Cached>, b: Seq<Cached>, overhead: nat)
    ensures
        total_weight(a + b, overhead) == total_weight(a, overhead) + total_weight(b, overhead),
    decreases b.len(),
{
    if b.len() == 0 {
        assert(a + b =~= a);
    } else {
        lemma_total_weight_concat(a, b.drop_last(), overhead);
        assert((a + b).drop_last() =~= a + b.drop_last());
    }
}

proof fn lemma_index_of(s: Seq<Cached>, i: int)
    requires
        ids_unique(s),
        0 <= i < s.len(),
    ensures
        has_id(s, s[i].0),
        index_of(s, s[i].0) == i,
{
    assert(has_id(s, s[i].0));
}

proof fn lemma_without_id(s: Seq<Cached>, id: ObjectId)
    requires
        ids_unique(s),
    ensures
        ids_unique(without_id(s, id)),
        !has_id(without_id(s, id), id),
{
    if has_id(s, id) {
        let k = index_of(s, id);
        let t = s.remove(k);
        assert forall|i: int, j: int|
            0 <= i < t.len() && 0 <= j < t.len() && t[i].0 == t[j].0 implies i == j by {
            let si = if i < k { i } else { i + 1 };
            let sj = if j < k { j } else { j + 1 };
            assert(t[i] == s[si]);
            assert(t[j] == s[sj]);
        }
        if has_id(t, id) {
            let i = choose|i: int| 0 <= i < t.len() && t[i].0 == id;
            let si = if i < k { i } else { i + 1 };
            assert(t[i] == s[si]);
        }
    }
}

/// Entries that are a prefix of unique entries without `id` stay so.
proof fn lemma_prefix_unique(s: Seq<Cached>, n: int, id: ObjectId)
    requires
        ids_unique(s),
        !has_id(s, id),
        0 <= n <= s.len(),
    ensures
        ids_unique(s.subrange(0, n)),
        !has_id(s.subrange(0, n), id),
{
    let t = s.subrange(0, n);
    assert forall|i: int, j: int|
        0 <= i < t.len() && 0 <= j < t.len() && t[i].0 == t[j].0 implies i == j by {
        assert(t[i] == s[i] && t[j] == s[j]);
    }
    if has_id(t, id) {
        let i = choose|i: int| 0 <= i < t.len() && t[i].0 == id;
        assert(t[i] == s[i]);
    }
}

proof fn lemma_prepend_unique(e: Cached, t: Seq<Cached>)
    requires
        ids_unique(t),
        !has_id(t, e.0),
    ensures
        ids_unique(seq![e] + t),
        has_id(seq![e] + t, e.0),
        index_of(seq![e] + t, e.0) == 0,
{
    let u = seq![e] + t;
    assert forall|i: int, j: int|
        0 <= i < u.len() && 0 <= j < u.len() && u[i].0 == u[j].0 implies i == j by {
        if i > 0 {
            assert(u[i] == t[i - 1]);
        }
        if j > 0 {
            assert(u[j] == t[j - 1]);
        }
    }
    lemma_index_of(u, 0);
}

/// An entry light enough to be stored goes to the front, ahead of a prefix of
/// the other entries in their old order.
proof fn lemma_put_front(
    s: Seq<Cached>,
    id: ObjectId,
    kind: Kind,
    data: Seq<u8>,
    capacity: nat,
    overhead: nat,
)
    requires
        ids_unique(s),
        weight_of(data.len(), overhead) <= capacity,
    ensures
        ids_unique(put_result(s, id, kind, data, capacity, overhead)),
        put_result(s, id, kind, data, capacity, overhead).len() >= 1,
        put_result(s, id, kind, data, capacity, overhead)[0] == (id, kind, data),
        has_id(put_result(s, id, kind, data, capacity, overhead), id),
        index_of(put_result(s, id, kind, data, capacity, overhead), id) == 0,
        put_result(s, id, kind, data, capacity, overhead).drop_first() =~= without_id(s, id).subrange(
            0,
            put_result(s, id, kind, data, capacity, overhead).len() - 1,
        ),
{
    let w = weight_of(data.len(), overhead);
    let base = without_id(s, id);
    let ev = evicted(base, w, capacity, overhead);
    lemma_without_id(s, id);
    lemma_evicted(base, w, capacity, overhead);
    lemma_prefix_unique(base, ev.len() as int, id);
    lemma_prepend_unique((id, kind, data), ev);
    assert((seq![(id, kind, data)] + ev).drop_first() =~= ev);
}

/// Looking `id` up right after storing `data` of `kind` under it finds that
/// kind and exactly those bytes, unless the entry is too heavy to be stored.
pub proof fn lemma_get_after_put(
    s: Seq<Cached>,
    id: ObjectId,
    kind: Kind,
    data: Seq<u8>,
    capacity: nat,
    overhead: nat,
)
    requires
        ids_unique(s),
        weight_of(data.len(), overhead) <= capacity,
    ensures
        has_id(put_result(s, id, kind, data, capacity, overhead), id),
        ({
            let t = put_result(s, id, kind, data, capacity, overhead);
            t[index_of(t, id)].1 == kind && t[index_of(t, id)].2 == data
        }),
{
    lemma_put_front(s, id, kind, data, capacity, overhead);
}

/// Storing under the same id twice leaves one entry for that id, holding
/// what was stored second.
pub proof fn lemma_put_replaces(
    s: Seq<Cached>,
    id: ObjectId,
    kind1: Kind,
    data1: Seq<u8>,
    kind2: Kind,
    data2: Seq<u8>,
    capacity: nat,
    overhead: nat,
)
    requires
        ids_unique(s),
        weight_of(data2.len(), overhead) <= capacity,
    ensures
        ({
            let t = put_result(
                put_result(s, id, kind1, data1, capacity, overhead),
                id,
                kind2,
                data2,
                capacity,
                overhead,
            );
            &&& ids_unique(t)
            &&& t[0] == (id, kind2, data2)
            &&& forall|i: int| 0 < i < t.len() ==> t[i].0 != id
        }),
{
    let t1 = put_result(s, id, kind1, data1, capacity, overhead);
    if weight_of(data1.len(), overhead) <= capacity {
        lemma_put_front(s, id, kind1, data1, capacity, overhead);
    }
    lemma_put_front(t1, id, kind2, data2, capacity, overhead);
}

/// Storing an entry evicts only the least recently used entries: the others
/// keep their order behind the new entry, and those dropped are the ones at
/// the back.
pub proof fn lemma_evicts_least_recent(
    s: Seq<Cached>,
    id: ObjectId,
    kind: Kind,
    data: Seq<u8>,
    capacity: nat,
    overhead: nat,
)
    requires
        ids_unique(s),
        weight_of(data.len(), overhead) <= capacity,
    ensures
        ({
            let t = put_result(s, id, kind, data, capacity, overhead);
            &&& 1 <= t.len() <= without_id(s, id).len() + 1
            &&& t[0] == (id, kind, data)
            &&& forall|i: int| 0 < i < t.len() ==> t[i] == without_id(s, id)[i - 1]
        }),
{
    let w = weight_of(data.len(), overhead);
    lemma_put_front(s, id, kind, data, capacity, overhead);
    lemma_evicted(without_id(s, id), w, capacity, overhead);
    let t = put_result(s, id, kind, data, capacity, overhead);
    assert forall|i: int| 0 < i < t.len() implies t[i] == without_id(s, id)[i - 1] by {
        assert(t[i] == t.drop_first()[i - 1]);
    }
}

proof fn lemma_weight_single(e: Cached, overhead: nat)
    ensures
        total_weight(seq![e], overhead) == weight_of(e.2.len(), overhead),
{
    assert(seq![e].drop_last() =~= Seq::<Cached>::empty());
    assert(total_weight(Seq::<Cached>::empty(), overhead) == 0);
}

/// A lookup that finds `id` reorders the entries and changes nothing else.
proof fn lemma_touched(s: Seq<Cached>, id: ObjectId, overhead: nat)
    requires
        ids_unique(s),
        has_id(s, id),
    ensures
        ids_unique(touched(s, id)),
        touched(s, id).len() == s.len(),
        total_weight(touched(s, id), overhead) == total_weight(s, overhead),
{
    let i = index_of(s, id);
    let e = s[i];
    let a = s.subrange(0, i);
    let b = s.subrange(i + 1, s.len() as int);
    lemma_without_id(s, id);
    lemma_prepend_unique(e, s.remove(i));
    assert(s.remove(i) =~= a + b);
    assert(s =~= a + (seq![e] + b));
    assert(touched(s, id) =~= (seq![e] + a) + b);
    lemma_total_weight_concat(a, seq![e] + b, overhead);
    lemma_total_weight_concat(seq![e], b, overhead);
    lemma_total_weight_concat(seq![e] + a, b, overhead);
    lemma_total_weight_concat(seq![e], a, overhead);
    lemma_weight_single(e, overhead);
}

/// A cache entry as the store holds it.
pub struct Entry {
    pub data: Vec<u8>,
    pub kind: Kind,
}

/// The weighing rule of the cache: the bytes of the data, plus `overhead`
/// bytes of bookkeeping per entry, plus the bytes of the id.
pub struct Scale {
    pub overhead: usize,
}

impl Scale {
    pub fn weigh(&self, id: &ObjectId, len: usize) -> (r: usize)
        ensures
            r == weight_of(len as nat, self.overhead as nat),
    {
        len.saturating_add(self.overhead).saturating_add(id_len(id))
    }
}

/// The least-recently-used store behind the cache. It weighs nothing and
/// bounds only the number of entries, by `usize::MAX`; the byte budget is
/// kept by `MemoryCappedHashmap`.
#[verifier::external_body]
pub struct LruStore {
    inner: clru::CLruCache<ObjectId, Entry>,
}

/// The entries of a store, most recently used first.
pub uninterp spec fn lru_entries(store: LruStore) -> Seq<Cached>;

/// The number of entries that a store was made to hold.
pub uninterp spec fn lru_capacity(store: LruStore) -> nat;

/// Relies on `clru::CLruCache::new`: an empty store that holds up to
/// `usize::MAX` entries.
#[verifier::external_body]
fn lru_new() -> (r: LruStore)
    ensures
        lru_entries(r) == Seq::<Cached>::empty(),
        lru_capacity(r) == usize::MAX,
{
    LruStore { inner: clru::CLruCache::new(std::num::NonZeroUsize::MAX) }
}

/// Relies on `clru::CLruCache::put`: an entry under a new id goes to the
/// front, and nothing is evicted while the store is not full.
#[verifier::external_body]
fn lru_insert(store: &mut LruStore, id: ObjectId, entry: Entry)
    requires
        !has_id(lru_entries(*old(store)), id),
        lru_entries(*old(store)).len() < lru_capacity(*old(store)),
    ensures
        lru_capacity(*final(store)) == lru_capacity(*old(store)),
        lru_entries(*final(store)) == seq![(id, entry.kind, entry.data@)] + lru_entries(*old(store)),
{
    store.inner.put(id, entry);
}

/// Relies on `clru::CLruCache::pop`: the entry of `id` is taken out and its
/// bytes handed back.
#[verifier::external_body]
fn lru_pop(store: &mut LruStore, id: &ObjectId) -> (r: Option<Vec<u8>>)
    requires
        ids_unique(lru_entries(*old(store))),
    ensures
        lru_capacity(*final(store)) == lru_capacity(*old(store)),
        r is None <==> !has_id(lru_entries(*old(store)), *id),
        lru_entries(*final(store)) == without_id(lru_entries(*old(store)), *id),
        (r matches Some(d) ==> d@ == lru_entries(*old(store))[index_of(
            lru_entries(*old(store)),
            *id,
        )].2),
{
    store.inner.pop(id).map(|e| e.data)
}

/// Relies on `clru::CLruCache::pop_back`: the least recently used entry is
/// taken out and its bytes handed back.
#[verifier::external_body]
fn lru_pop_back(store: &mut LruStore) -> (r: Option<Vec<u8>>)
    ensures
        lru_capacity(*final(store)) == lru_capacity(*old(store)),
        r is None <==> lru_entries(*old(store)).len() == 0,
        (r matches Some(d) ==> d@ == lru_entries(*old(store)).last().2 && lru_entries(*final(store))
            == lru_entries(*old(store)).drop_last()),
        r is None ==> lru_entries(*final(store)) == lru_entries(*old(store)),
{
    store.inner.pop_back().map(|(_, e)| e.data)
}

/// Relies on `clru::CLruCache::get`: it finds the entry of `id` and moves it
/// to the front. The entry's kind and a copy of its bytes are handed out.
#[verifier::external_body]
fn lru_get(store: &mut LruStore, id: &ObjectId) -> (r: Option<(Kind, Vec<u8>)>)
    requires
        ids_unique(lru_entries(*old(store))),
    ensures
        lru_capacity(*final(store)) == lru_capacity(*old(store)),
        r is None <==> !has_id(lru_entries(*old(store)), *id),
        r is None ==> lru_entries(*final(store)) == lru_entries(*old(store)),
        r is Some ==> lru_entries(*final(store)) == touched(lru_entries(*old(store)), *id),
        (r matches Some(found) ==> found.0 == lru_entries(*old(store))[index_of(
            lru_entries(*old(store)),
            *id,
        )].1 && found.1@ == lru_entries(*old(store))[index_of(lru_entries(*old(store)), *id)].2),
{
    store.inner.get(id).map(|e| (e.kind, e.data.clone()))
}

pub open spec fn digit_char(d: nat) -> char {
    ('0' as u8 + d) as char
}

/// The decimal digits of `n`, without leading zeros.
pub open spec fn decimal_of(n: nat) -> Seq<char>
    decreases n,
{
    if n < 10 {
        seq![digit_char(n)]
    } else {
        decimal_of(n / 10).push(digit_char(n % 10))
    }
}

/// Relies on `ToString` through the `Display` of `usize`: its decimal digits.
#[verifier::external_body]
fn decimal(n: usize) -> (r: String)
    ensures
        r@ == decimal_of(n as nat),
{
    n.to_string()
}

/// The label of a cache of `capacity` bytes, as diagnostics show it.
pub open spec fn label_of(capacity: nat) -> Seq<char> {
    "MemoryCappedObjectHashmap("@ + decimal_of(capacity) + "B)"@
}

fn capacity_label(capacity: usize) -> (r: String)
    ensures
        r@ == label_of(capacity as nat),
{
    let mut label = String::from_str("MemoryCappedObjectHashmap(");
    let digits = decimal(capacity);
    label.append(digits.as_str());
    label.append("B)");
    label
}

/// One more, unless the counter is already at its largest value.
pub open spec fn bumped(n: nat) -> nat {
    if n < u64::MAX {
        n + 1
    } else {
        n
    }
}

fn bump(n: &mut u64)
    ensures
        *final(n) as nat == bumped(*old(n) as nat),
{
    if *n < u64::MAX {
        *n = *n + 1;
    }
}

fn copy_into(v: Vec<u8>, data: &[u8]) -> (r: Vec<u8>)
    ensures
        r@ == data@,
{
    let mut v = v;
    v.clear();
    let mut i: usize = 0;
    while i < data.len()
        invariant
            i <= data@.len(),
            v@ == data@.subrange(0, i as int),
        decreases data@.len() - i,
    {
        v.push(data[i]);
        i = i + 1;
    }
    assert(v@ =~= data@);
    v
}

/// An LRU cache with hash map backing and an eviction rule based on the memory usage for object data in bytes.
///
/// Buffers of entries that were replaced are kept and reused for later
/// entries. Counters of hits, misses and puts are kept for diagnostics.
pub struct MemoryCappedHashmap {
    inner: LruStore,
    scale: Scale,
    capacity: usize,
    total: usize,
    free_list: Vec<Vec<u8>>,
    label: String,
    hits: u64,
    misses: u64,
    puts: u64,
}

impl MemoryCappedHashmap {
    /// The entries, most recently used first.
    pub closed spec fn entries(&self) -> Seq<Cached> {
        lru_entries(self.inner)
    }

    pub closed spec fn spec_capacity(&self) -> nat {
        self.capacity as nat
    }

    /// The bookkeeping bytes counted for each entry besides its data and id.
    pub closed spec fn overhead(&self) -> nat {
        self.scale.overhead as nat
    }

    /// The buffers kept for reuse; the last one is used first.
    pub closed spec fn spare_buffers(&self) -> Seq<Seq<u8>> {
        self.free_list@.map_values(|v: Vec<u8>| v@)
    }

    pub closed spec fn label_text(&self) -> Seq<char> {
        self.label@
    }

    pub closed spec fn hit_count(&self) -> nat {
        self.hits as nat
    }

    pub closed spec fn miss_count(&self) -> nat {
        self.misses as nat
    }

    pub closed spec fn put_count(&self) -> nat {
        self.puts as nat
    }

    /// The total weight of the entries.
    pub open spec fn weight(&self) -> nat {
        total_weight(self.entries(), self.overhead())
    }

    pub closed spec fn store_ok(&self) -> bool {
        &&& lru_capacity(self.inner) == usize::MAX
        &&& self.total as nat == self.weight()
    }

    /// Ids are unique, and the total weight is within the capacity.
    pub open spec fn wf(&self) -> bool {
        &&& ids_unique(self.entries())
        &&& self.weight() <= self.spec_capacity()
        &&& self.spec_capacity() > 0
        &&& self.store_ok()
    }

    /// The amount of bytes we can hold in total, or the value we saw in `new(…)`.
    pub fn capacity(&self) -> (r: usize)
        ensures
            r == self.spec_capacity(),
    {
        self.capacity
    }

    /// Return a new instance which evicts least recently used items if it uses more than `memory_cap_in_bytes`
    /// object data. Each entry is charged its data, its id and the size of
    /// an entry record.
    pub fn new(memory_cap_in_bytes: usize) -> (r: MemoryCappedHashmap)
        requires
            memory_cap_in_bytes > 0,
        ensures
            r.wf(),
            r.entries() == Seq::<Cached>::empty(),
            r.spec_capacity() == memory_cap_in_bytes,
            r.overhead() == vstd::layout::size_of::<Entry>(),
            r.label_text() == label_of(memory_cap_in_bytes as nat),
            r.spare_buffers() == Seq::<Seq<u8>>::empty(),
            r.hit_count() == 0 && r.miss_count() == 0 && r.put_count() == 0,
    {
        let overhead = core::mem::size_of::<Entry>();
        Self::with_overhead(memory_cap_in_bytes, overhead)
    }

    /// Like `new`, but each entry is charged its data, its id and
    /// `overhead` bytes.
    pub fn with_overhead(memory_cap_in_bytes: usize, overhead: usize) -> (r: MemoryCappedHashmap)
        requires
            memory_cap_in_bytes > 0,
        ensures
            r.wf(),
            r.entries() == Seq::<Cached>::empty(),
            r.spec_capacity() == memory_cap_in_bytes,
            r.overhead() == overhead,
            r.label_text() == label_of(memory_cap_in_bytes as nat),
            r.spare_buffers() == Seq::<Seq<u8>>::empty(),
            r.hit_count() == 0 && r.miss_count() == 0 && r.put_count() == 0,
    {
        let r = MemoryCappedHashmap {
            inner: lru_new(),
            scale: Scale { overhead },
            capacity: memory_cap_in_bytes,
            total: 0,
            free_list: Vec::new(),
            label: capacity_label(memory_cap_in_bytes),
            hits: 0,
            misses: 0,
            puts: 0,
        };
        assert(total_weight(r.entries(), overhead as nat) == 0);
        assert(r.spare_buffers() =~= Seq::<Seq<u8>>::empty());
        r
    }

    /// Store `data` of `kind` under `id`, replacing an entry of the same id
    /// and evicting least recently used entries until the total weight with
    /// the new entry is within the capacity. An entry heavier than the whole
    /// capacity is not stored, and an older entry under the same id is then
    /// kept.
    ///
    /// The buffer of the new entry is the last spare one when there is one;
    /// the buffer of a replaced entry becomes the last spare one.
    pub fn put(&mut self, id: ObjectId, kind: Kind, data: &[u8])
        requires
            old(self).wf(),
        ensures
            final(self).wf(),
            final(self).weight() <= final(self).spec_capacity(),
            final(self).entries() == put_result(
                old(self).entries(),
                id,
                kind,
                data@,
                old(self).spec_capacity(),
                old(self).overhead(),
            ),
            final(self).spare_buffers() == spares_after_put(
                old(self).spare_buffers(),
                old(self).entries(),
                id,
                weight_of(data@.len(), old(self).overhead()),
                old(self).spec_capacity(),
            ),
            final(self).spec_capacity() == old(self).spec_capacity(),
            final(self).overhead() == old(self).overhead(),
            final(self).label_text() == old(self).label_text(),
            final(self).put_count() == bumped(old(self).put_count()),
            final(self).hit_count() == old(self).hit_count(),
            final(self).miss_count() == old(self).miss_count(),
    {
        bump(&mut self.puts);
        let w = self.scale.weigh(&id, data.len());
        if w > self.capacity {
            return;
        }
        let ghost s = self.entries();
        let ghost ov = self.overhead();
        let ghost cap = self.spec_capacity();
        let ghost spares = self.spare_buffers();
        proof {
            lemma_put_within_capacity(s, id, kind, data@, cap, ov);
            lemma_without_id(s, id);
        }
        let buf = match self.free_list.pop() {
            Some(v) => copy_into(v, data),
            None => vstd::slice::slice_to_vec(data),
        };
        let ghost rest = self.free_list@;
        if let Some(previous) = lru_pop(&mut self.inner, &id) {
            proof {
                let i = index_of(s, id);
                let a = s.subrange(0, i);
                let b = s.subrange(i + 1, s.len() as int);
                assert(s.remove(i) =~= a + b);
                assert(s =~= a + (seq![s[i]] + b));
                lemma_total_weight_concat(a, seq![s[i]] + b, ov);
                lemma_total_weight_concat(seq![s[i]], b, ov);
                lemma_total_weight_concat(a, b, ov);
                lemma_weight_single(s[i], ov);
            }
            let pw = self.scale.weigh(&id, previous.len());
            self.total = self.total - pw;
            self.free_list.push(previous);
        }
        let ghost base = self.entries();
        let ghost fl = self.free_list@;
        proof {
            let pre = if spares.len() > 0 {
                spares.drop_last()
            } else {
                spares
            };
            assert(rest.map_values(|v: Vec<u8>| v@) =~= pre);
            if has_id(s, id) {
                assert(fl.map_values(|v: Vec<u8>| v@) =~= pre.push(s[index_of(s, id)].2));
            } else {
                assert(fl.map_values(|v: Vec<u8>| v@) =~= pre);
            }
        }
        assert(base == without_id(s, id));
        proof {
            lemma_prefix_unique(base, base.len() as int, id);
            assert(base.subrange(0, base.len() as int) =~= base);
        }
        while self.total > self.capacity - w
            invariant
                w as nat == weight_of(data@.len(), ov),
                w <= self.capacity,
                self.capacity as nat == cap,
                self.scale.overhead as nat == ov,
                lru_capacity(self.inner) == usize::MAX,
                self.total as nat == total_weight(self.entries(), ov),
                ids_unique(self.entries()),
                !has_id(self.entries(), id),
                evicted(self.entries(), w as nat, cap, ov) == evicted(base, w as nat, cap, ov),
                self.free_list@ == fl,
                self.puts as nat == bumped(old(self).puts as nat),
                self.hits == old(self).hits,
                self.misses == old(self).misses,
                self.label@ == old(self).label@,
                cap > 0,
            decreases self.entries().len(),
        {
            let ghost cur = self.entries();
            let last = lru_pop_back(&mut self.inner);
            if let Some(d) = last {
                proof {
                    lemma_prefix_unique(cur, cur.len() - 1, id);
                    assert(cur.subrange(0, cur.len() - 1) =~= cur.drop_last());
                }
                let lw = self.scale.weigh(&id, d.len());
                self.total = self.total - lw;
            }
        }
        proof {
            lemma_evicted(base, w as nat, cap, ov);
            lemma_count_bound(self.entries(), ov);
            assert(self.entries() == evicted(base, w as nat, cap, ov));
            lemma_prepend_unique((id, kind, data@), self.entries());
        }
        let ghost ev = self.entries();
        lru_insert(&mut self.inner, id, Entry { data: buf, kind });
        self.total = self.total + w;
        proof {
            lemma_weight_single((id, kind, data@), ov);
            lemma_total_weight_concat(seq![(id, kind, data@)], ev, ov);
            assert(self.spare_buffers() =~= spares_after_put(spares, s, id, w as nat, cap));
        }
    }

    /// Copy the bytes stored under `id` into `out`, which is resized to fit,
    /// and return their kind; the entry becomes the most recently used. On a
    /// miss `out` and the entries are left as they were.
    pub fn get(&mut self, id: &ObjectId, out: &mut Vec<u8>) -> (r: Option<Kind>)
        requires
            old(self).wf(),
        ensures
            final(self).wf(),
            r is None <==> !has_id(old(self).entries(), *id),
            r is None ==> final(self).entries() == old(self).entries() && final(out)@ == old(out)@
                && final(self).miss_count() == bumped(old(self).miss_count())
                && final(self).hit_count() == old(self).hit_count(),
            r is Some ==> final(self).entries() == touched(old(self).entries(), *id)
                && r == Some(old(self).entries()[index_of(old(self).entries(), *id)].1)
                && final(out)@ == old(self).entries()[index_of(old(self).entries(), *id)].2
                && final(self).hit_count() == bumped(old(self).hit_count())
                && final(self).miss_count() == old(self).miss_count(),
            final(self).spec_capacity() == old(self).spec_capacity(),
            final(self).overhead() == old(self).overhead(),
            final(self).label_text() == old(self).label_text(),
            final(self).spare_buffers() == old(self).spare_buffers(),
            final(self).put_count() == old(self).put_count(),
    {
        proof {
            if has_id(self.entries(), *id) {
                lemma_touched(self.entries(), *id, self.overhead());
            }
        }
        match lru_get(&mut self.inner, id) {
            Some((kind, data)) => {
                *out = data;
                bump(&mut self.hits);
                Some(kind)
            },
            None => {
                bump(&mut self.misses);
                None
            },
        }
    }

    /// The label that names this cache in diagnostics.
    pub fn label(&self) -> (r: &String)
        ensures
            r@ == self.label_text(),
    {
        &self.label
    }

    /// How many lookups found their id.
    pub fn hits(&self) -> (r: u64)
        ensures
            r == self.hit_count(),
    {
        self.hits
    }

    /// How many lookups did not find their id.
    pub fn misses(&self) -> (r: u64)
        ensures
            r == self.miss_count(),
    {
        self.misses
    }

    /// How many entries were put.
    pub fn puts(&self) -> (r: u64)
        ensures
            r == self.put_count(),
    {
        self.puts
    }

    /// How many buffers are kept for reuse.
    pub fn spare_buffer_count(&self) -> (r: usize)
        ensures
            r == self.spare_buffers().len(),
    {
        self.free_list.len()
    }
}

} // verus!
