//! Cache of completed step results, keyed by (workflow, step): bounded in
//! bytes by evicting the oldest entries, with invalidation of single entries,
//! of everything downstream of a step, and of a whole workflow.
use vstd::prelude::*;

use std::collections::hash_map::DefaultHasher;
use std::hash::Hasher;
use vstd::std_specs::hash::DefaultHasherAdditionalSpecFns;

use crate::agents::dag::{ExecutionDag, StepResult};
use crate::clock::now_unix_millis;

verus! {

/// A cached step result with the data eviction and invalidation need.
#[derive(Debug, Clone)]
pub struct CacheEntry {
    pub result: StepResult,
    /// When the entry was cached (milliseconds since the Unix epoch).
    pub cached_at_ms: i64,
    /// Size of the entry: the output bytes plus a fixed overhead.
    pub size_bytes: u64,
    /// Hash of the inputs that produced the result.
    pub upstream_hash: u64,
}

/// A cache slot: workflow ID, step ID and entry.
pub type CacheSlot = (u128, u128, CacheEntry);

/// Bounded cache of step results.
pub struct ResultCache {
    /// The entries, oldest stored first.
    pub entries: Vec<CacheSlot>,
    /// The bound on the total size, in bytes.
    pub max_size_bytes: u64,
    /// The total size of the entries, in bytes.
    pub current_size_bytes: u64,
}

/// Bytes added to the output of a result for its metadata.
pub const ENTRY_OVERHEAD_BYTES: u64 = 128;

// ─── Specifications ─────────────────────────────────────────────────────────

/// The (workflow, step) key of a slot.
pub open spec fn key_of(e: CacheSlot) -> (u128, u128) {
    (e.0, e.1)
}

/// No two slots share a key.
pub open spec fn keys_distinct(s: Seq<CacheSlot>) -> bool {
    forall|a: int, b: int|
        #![trigger s[a], s[b]]
        0 <= a < s.len() && 0 <= b < s.len() && a != b ==> key_of(s[a]) != key_of(s[b])
}

/// Total size of the entries.
pub open spec fn sum_sizes(s: Seq<CacheSlot>) -> nat
    decreases s.len(),
{
    if s.len() == 0 {
        0
    } else {
        sum_sizes(s.drop_last()) + s.last().2.size_bytes as nat
    }
}

/// Position of the first entry with the smallest timestamp.
pub open spec fn oldest_index(s: Seq<CacheSlot>) -> int
    decreases s.len(),
{
    if s.len() <= 1 {
        0
    } else {
        let i = oldest_index(s.drop_last());
        if s.last().2.cached_at_ms < s[i].2.cached_at_ms {
            s.len() - 1
        } else {
            i
        }
    }
}

/// The entries left after evicting the oldest entry while the entries and
/// `incoming` more bytes exceed `max`.
pub open spec fn evict_until(s: Seq<CacheSlot>, incoming: nat, max: nat) -> Seq<CacheSlot>
    decreases s.len(),
{
    if s.len() > 0 && sum_sizes(s) + incoming > max {
        proof {
            lemma_oldest_index(s);
        }
        evict_until(s.remove(oldest_index(s)), incoming, max)
    } else {
        s
    }
}

/// The entries whose key is not in `ks`, in order.
pub open spec fn drop_keys(s: Seq<CacheSlot>, ks: Set<(u128, u128)>) -> Seq<CacheSlot>
    decreases s.len(),
{
    if s.len() == 0 {
        s
    } else {
        let r = drop_keys(s.drop_last(), ks);
        if ks.contains(key_of(s.last())) {
            r
        } else {
            r.push(s.last())
        }
    }
}

/// The keys of the steps `steps` of workflow `w`.
pub open spec fn step_keys(w: u128, steps: Set<u128>) -> Set<(u128, u128)> {
    Set::new(|k: (u128, u128)| k.0 == w && steps.contains(k.1))
}

/// The keys of workflow `w`.
pub open spec fn workflow_keys(w: u128) -> Set<(u128, u128)> {
    Set::new(|k: (u128, u128)| k.0 == w)
}

/// The entries without the one keyed (w, st).
pub open spec fn without_key(s: Seq<CacheSlot>, w: u128, st: u128) -> Seq<CacheSlot> {
    drop_keys(s, set![(w, st)])
}

/// The entries of other workflows, or of steps outside `steps`.
pub open spec fn without_steps(s: Seq<CacheSlot>, w: u128, steps: Set<u128>) -> Seq<CacheSlot> {
    drop_keys(s, step_keys(w, steps))
}

/// The entries of other workflows.
pub open spec fn without_workflow(s: Seq<CacheSlot>, w: u128) -> Seq<CacheSlot> {
    drop_keys(s, workflow_keys(w))
}

/// The entry keyed (w, st), if any.
pub open spec fn lookup(s: Seq<CacheSlot>, w: u128, st: u128) -> Option<CacheEntry> {
    if exists|i: int| 0 <= i < s.len() && #[trigger] key_of(s[i]) == (w, st) {
        let i = choose|i: int| 0 <= i < s.len() && #[trigger] key_of(s[i]) == (w, st);
        Some(s[i].2)
    } else {
        None
    }
}

/// `d` holds the direct dependents of `seed` and every dependent of a member.
pub open spec fn downstream_closed(edges: Seq<(u128, u128)>, seed: u128, d: Set<u128>) -> bool {
    &&& forall|e: int| 0 <= e < edges.len() && (#[trigger] edges[e]).0 == seed ==> d.contains(edges[e].1)
    &&& forall|e: int|
        0 <= e < edges.len() && d.contains((#[trigger] edges[e]).0) ==> d.contains(edges[e].1)
}

/// `d` is the set of steps that depend on `seed`, directly or transitively:
/// the least set closed as `downstream_closed` says.
pub open spec fn is_downstream(edges: Seq<(u128, u128)>, seed: u128, d: Set<u128>) -> bool {
    &&& downstream_closed(edges, seed, d)
    &&& forall|t: Set<u128>| downstream_closed(edges, seed, t) ==> #[trigger] d.subset_of(t)
}

/// Number of edges whose target is not in `v`.
pub open spec fn unreached_edges(edges: Seq<(u128, u128)>, v: Seq<u128>) -> nat
    decreases edges.len(),
{
    if edges.len() == 0 {
        0
    } else {
        unreached_edges(edges.drop_last(), v) + if v.contains(edges.last().1) {
            0nat
        } else {
            1nat
        }
    }
}

// ─── Lemmas ─────────────────────────────────────────────────────────────────

pub proof fn lemma_oldest_index(s: Seq<CacheSlot>)
    requires
        s.len() > 0,
    ensures
        0 <= oldest_index(s) < s.len(),
        forall|j: int| 0 <= j < s.len() ==> s[oldest_index(s)].2.cached_at_ms <= #[trigger] s[j].2.cached_at_ms,
        forall|j: int| 0 <= j < oldest_index(s) ==> s[oldest_index(s)].2.cached_at_ms < #[trigger] s[j].2.cached_at_ms,
    decreases s.len(),
{
    if s.len() > 1 {
        let t = s.drop_last();
        lemma_oldest_index(t);
        let i = oldest_index(t);
        assert(t[i] == s[i]);
        assert forall|j: int| 0 <= j < s.len() implies s[oldest_index(s)].2.cached_at_ms <= #[trigger] s[j].2.cached_at_ms by {
            if j < s.len() - 1 {
                assert(t[j] == s[j]);
            }
        }
        assert forall|j: int| 0 <= j < oldest_index(s) implies s[oldest_index(s)].2.cached_at_ms < #[trigger] s[j].2.cached_at_ms by {
            assert(t[j] == s[j]);
        }
    }
}

proof fn lemma_sum_remove(s: Seq<CacheSlot>, i: int)
    requires
        0 <= i < s.len(),
    ensures
        sum_sizes(s.remove(i)) + s[i].2.size_bytes == sum_sizes(s),
    decreases s.len(),
{
    if i == s.len() - 1 {
        assert(s.remove(i) =~= s.drop_last());
    } else {
        lemma_sum_remove(s.drop_last(), i);
        assert(s.remove(i).drop_last() =~= s.drop_last().remove(i));
    }
}

proof fn lemma_sum_push(s: Seq<CacheSlot>, e: CacheSlot)
    ensures
        sum_sizes(s.push(e)) == sum_sizes(s) + e.2.size_bytes,
{
    assert(s.push(e).drop_last() =~= s);
}

proof fn lemma_remove_contains(s: Seq<CacheSlot>, i: int, x: CacheSlot)
    requires
        0 <= i < s.len(),
        s.remove(i).contains(x),
    ensures
        s.contains(x),
{
    let q = choose|q: int| 0 <= q < s.remove(i).len() && s.remove(i)[q] == x;
    if q < i {
        assert(s[q] == x);
    } else {
        assert(s[q + 1] == x);
    }
}

/// After eviction the entries and the incoming bytes fit, or nothing is left;
/// nothing is added, and the total never grows.
proof fn lemma_evict_until(s: Seq<CacheSlot>, incoming: nat, max: nat)
    ensures
        sum_sizes(evict_until(s, incoming, max)) + incoming <= max || evict_until(s, incoming, max).len() == 0,
        sum_sizes(evict_until(s, incoming, max)) <= sum_sizes(s),
        forall|x: CacheSlot| evict_until(s, incoming, max).contains(x) ==> s.contains(x),
    decreases s.len(),
{
    if s.len() > 0 && sum_sizes(s) + incoming > max {
        lemma_oldest_index(s);
        let i = oldest_index(s);
        lemma_sum_remove(s, i);
        lemma_evict_until(s.remove(i), incoming, max);
        assert forall|x: CacheSlot| evict_until(s, incoming, max).contains(x) implies s.contains(x) by {
            lemma_remove_contains(s, i, x);
        }
    }
}

proof fn lemma_drop_keys_contains(s: Seq<CacheSlot>, ks: Set<(u128, u128)>)
    ensures
        forall|x: CacheSlot| #[trigger] drop_keys(s, ks).contains(x) <==> s.contains(x) && !ks.contains(key_of(x)),
    decreases s.len(),
{
    broadcast use vstd::seq_lib::lemma_seq_contains_after_push;
    if s.len() > 0 {
        let t = s.drop_last();
        let l = s.last();
        lemma_drop_keys_contains(t, ks);
        assert(s =~= t.push(l));
        assert forall|x: CacheSlot| #[trigger] drop_keys(s, ks).contains(x) <==> s.contains(x) && !ks.contains(key_of(x)) by {
            assert(t.push(l).contains(x) <==> t.contains(x) || x == l);
            assert(drop_keys(t, ks).push(l).contains(x) <==> drop_keys(t, ks).contains(x) || x == l);
        }
    }
}

proof fn lemma_drop_keys_distinct(s: Seq<CacheSlot>, ks: Set<(u128, u128)>)
    requires
        keys_distinct(s),
    ensures
        keys_distinct(drop_keys(s, ks)),
    decreases s.len(),
{
    if s.len() > 0 {
        let t = s.drop_last();
        assert(keys_distinct(t)) by {
            assert forall|a: int, b: int| 0 <= a < t.len() && 0 <= b < t.len() && a != b implies key_of(t[a]) != key_of(t[b]) by {
                assert(t[a] == s[a] && t[b] == s[b]);
            }
        }
        lemma_drop_keys_distinct(t, ks);
        lemma_drop_keys_contains(t, ks);
        let r = drop_keys(t, ks);
        if !ks.contains(key_of(s.last())) {
            let l = s.last();
            assert forall|a: int, b: int| #![trigger r.push(l)[a], r.push(l)[b]]
                0 <= a < r.push(l).len() && 0 <= b < r.push(l).len() && a != b implies key_of(r.push(l)[a]) != key_of(r.push(l)[b]) by {
                if a < r.len() && b < r.len() {
                    assert(r[a] == r.push(l)[a] && r[b] == r.push(l)[b]);
                } else {
                    let c = if a < r.len() { a } else { b };
                    assert(r.contains(r[c]));
                    let q = choose|q: int| 0 <= q < t.len() && t[q] == r[c];
                    assert(s[q] == t[q]);
                    assert(key_of(s[q]) != key_of(s[s.len() - 1]));
                }
            }
        }
    }
}

proof fn lemma_drop_keys_none(s: Seq<CacheSlot>, ks: Set<(u128, u128)>)
    requires
        forall|i: int| 0 <= i < s.len() ==> !ks.contains(#[trigger] key_of(s[i])),
    ensures
        drop_keys(s, ks) == s,
    decreases s.len(),
{
    if s.len() > 0 {
        let t = s.drop_last();
        assert forall|i: int| 0 <= i < t.len() implies !ks.contains(#[trigger] key_of(t[i])) by {
            assert(t[i] == s[i]);
        }
        lemma_drop_keys_none(t, ks);
        assert(key_of(s[s.len() - 1]) == key_of(s.last()));
        assert(t.push(s.last()) =~= s);
    }
}

proof fn lemma_drop_keys_compose(s: Seq<CacheSlot>, a: Set<(u128, u128)>, b: Set<(u128, u128)>)
    ensures
        drop_keys(drop_keys(s, a), b) == drop_keys(s, a.union(b)),
    decreases s.len(),
{
    if s.len() > 0 {
        let t = s.drop_last();
        let l = s.last();
        lemma_drop_keys_compose(t, a, b);
        if !a.contains(key_of(l)) {
            let r = drop_keys(t, a);
            assert(r.push(l).drop_last() =~= r);
            assert(r.push(l).last() == l);
        }
    }
}

proof fn lemma_drop_keys_remove(s: Seq<CacheSlot>, ks: Set<(u128, u128)>, i: int)
    requires
        0 <= i < s.len(),
        ks.contains(key_of(s[i])),
    ensures
        drop_keys(s.remove(i), ks) == drop_keys(s, ks),
    decreases s.len(),
{
    let t = s.drop_last();
    if i == s.len() - 1 {
        assert(s.remove(i) =~= t);
    } else {
        assert(t[i] == s[i]);
        lemma_drop_keys_remove(t, ks, i);
        assert(s.remove(i).drop_last() =~= t.remove(i));
        assert(s.remove(i).last() == s.last());
    }
}

proof fn lemma_remove_is_drop(s: Seq<CacheSlot>, i: int)
    requires
        keys_distinct(s),
        0 <= i < s.len(),
    ensures
        s.remove(i) == drop_keys(s, set![key_of(s[i])]),
{
    let ks = set![key_of(s[i])];
    lemma_drop_keys_remove(s, ks, i);
    let r = s.remove(i);
    assert forall|j: int| 0 <= j < r.len() implies !ks.contains(#[trigger] key_of(r[j])) by {
        if j < i {
            assert(r[j] == s[j]);
        } else {
            assert(r[j] == s[j + 1]);
        }
    }
    lemma_drop_keys_none(r, ks);
}

proof fn lemma_keys_distinct_remove(s: Seq<CacheSlot>, i: int)
    requires
        keys_distinct(s),
        0 <= i < s.len(),
    ensures
        keys_distinct(s.remove(i)),
{
    let r = s.remove(i);
    assert forall|a: int, b: int| 0 <= a < r.len() && 0 <= b < r.len() && a != b implies key_of(r[a]) != key_of(r[b]) by {
        let a2 = if a < i { a } else { a + 1 };
        let b2 = if b < i { b } else { b + 1 };
        assert(r[a] == s[a2] && r[b] == s[b2]);
    }
}

proof fn lemma_sum_drop_keys(s: Seq<CacheSlot>, ks: Set<(u128, u128)>)
    ensures
        sum_sizes(drop_keys(s, ks)) <= sum_sizes(s),
    decreases s.len(),
{
    if s.len() > 0 {
        lemma_sum_drop_keys(s.drop_last(), ks);
        lemma_sum_push(drop_keys(s.drop_last(), ks), s.last());
    }
}

/// A lookup finds the last entry pushed, when keys are distinct.
proof fn law_lookup_last(s: Seq<CacheSlot>, e: CacheSlot)
    requires
        keys_distinct(s.push(e)),
    ensures
        lookup(s.push(e), e.0, e.1) == Some(e.2),
{
    let t = s.push(e);
    let n = s.len() as int;
    assert(key_of(t[n]) == (e.0, e.1));
    let k = choose|k: int| 0 <= k < t.len() && #[trigger] key_of(t[k]) == (e.0, e.1);
    if k != n {
        assert(key_of(t[k]) != key_of(t[n]));
    }
}

/// Reading after a removal: a key among the removed ones is no longer
/// found, and every other key finds what it found before.
pub proof fn law_lookup_after_drop(s: Seq<CacheSlot>, ks: Set<(u128, u128)>, w: u128, st: u128)
    requires
        keys_distinct(s),
    ensures
        lookup(drop_keys(s, ks), w, st) == if ks.contains((w, st)) {
            None
        } else {
            lookup(s, w, st)
        },
{
    lemma_drop_keys_contains(s, ks);
    lemma_drop_keys_distinct(s, ks);
    let r = drop_keys(s, ks);
    if ks.contains((w, st)) {
        if exists|i: int| 0 <= i < r.len() && #[trigger] key_of(r[i]) == (w, st) {
            let i = choose|i: int| 0 <= i < r.len() && #[trigger] key_of(r[i]) == (w, st);
            assert(r.contains(r[i]));
        }
    } else {
        if exists|i: int| 0 <= i < s.len() && #[trigger] key_of(s[i]) == (w, st) {
            let i = choose|i: int| 0 <= i < s.len() && #[trigger] key_of(s[i]) == (w, st);
            assert(s.contains(s[i]));
            assert(r.contains(s[i]));
            let j = choose|j: int| 0 <= j < r.len() && r[j] == s[i];
            assert(key_of(r[j]) == (w, st));
            let j2 = choose|j2: int| 0 <= j2 < r.len() && #[trigger] key_of(r[j2]) == (w, st);
            if j2 != j {
                assert(key_of(r[j2]) != key_of(r[j]));
            }
        } else {
            if exists|j: int| 0 <= j < r.len() && #[trigger] key_of(r[j]) == (w, st) {
                let j = choose|j: int| 0 <= j < r.len() && #[trigger] key_of(r[j]) == (w, st);
                assert(r.contains(r[j]));
                let i = choose|i: int| 0 <= i < s.len() && s[i] == r[j];
                assert(key_of(s[i]) == (w, st));
            }
        }
    }
}

/// Invalidating downstream of a step that no step depends on removes
/// nothing from the cache.
pub proof fn law_leaf_invalidation_keeps_entries(
    s: Seq<CacheSlot>,
    edges: Seq<(u128, u128)>,
    w: u128,
    seed: u128,
    d: Set<u128>,
)
    requires
        forall|e: int| 0 <= e < edges.len() ==> (#[trigger] edges[e]).0 != seed,
        is_downstream(edges, seed, d),
    ensures
        d == Set::<u128>::empty(),
        without_steps(s, w, d) == s,
{
    assert(downstream_closed(edges, seed, Set::<u128>::empty()));
    assert(d.subset_of(Set::<u128>::empty()));
    assert(d =~= Set::<u128>::empty());
    lemma_drop_keys_none(s, step_keys(w, d));
}

/// The set of steps downstream of a step is unique.
pub proof fn law_downstream_unique(edges: Seq<(u128, u128)>, seed: u128, d1: Set<u128>, d2: Set<u128>)
    requires
        is_downstream(edges, seed, d1),
        is_downstream(edges, seed, d2),
    ensures
        d1 == d2,
{
    assert(d1.subset_of(d2));
    assert(d2.subset_of(d1));
    assert(d1 =~= d2);
}

// ─── The cache ──────────────────────────────────────────────────────────────

impl ResultCache {
    /// The entries, in order of storing.
    pub closed spec fn entries_view(&self) -> Seq<CacheSlot> {
        self.entries@
    }

    /// The byte bound.
    pub closed spec fn max_view(&self) -> nat {
        self.max_size_bytes as nat
    }

    /// Keys are distinct and the size counter is the total of the entries.
    pub closed spec fn wf(&self) -> bool {
        &&& keys_distinct(self.entries@)
        &&& self.current_size_bytes as nat == sum_sizes(self.entries@)
    }

    /// A well-formed cache has one entry per key.
    pub proof fn lemma_wf_keys_distinct(&self)
        requires
            self.wf(),
        ensures
            keys_distinct(self.entries_view()),
    {
    }

    /// An empty cache bounded by `max_size_mb` megabytes.
    pub fn new(max_size_mb: u64) -> (c: Self)
        requires
            max_size_mb * 1024 * 1024 <= u64::MAX,
        ensures
            c.wf(),
            c.entries_view() == Seq::<CacheSlot>::empty(),
            c.max_view() == max_size_mb * 1024 * 1024,
    {
        ResultCache { entries: Vec::new(), max_size_bytes: max_size_mb * 1024 * 1024, current_size_bytes: 0 }
    }

    /// Position of the entry keyed (w, st), if any.
    fn position(&self, w: u128, st: u128) -> (r: Option<usize>)
        requires
            self.wf(),
        ensures
            match r {
                Some(i) => i < self.entries@.len() && key_of(self.entries@[i as int]) == (w, st)
                    && lookup(self.entries@, w, st) == Some(self.entries@[i as int].2),
                None => lookup(self.entries@, w, st) is None && forall|i: int|
                    0 <= i < self.entries@.len() ==> #[trigger] key_of(self.entries@[i]) != (w, st),
            },
    {
        let mut i: usize = 0;
        while i < self.entries.len()
            invariant
                self.wf(),
                i <= self.entries@.len(),
                forall|j: int| 0 <= j < i ==> #[trigger] key_of(self.entries@[j]) != (w, st),
            decreases self.entries.len() - i,
        {
            if self.entries[i].0 == w && self.entries[i].1 == st {
                proof {
                    let s = self.entries@;
                    assert(key_of(s[i as int]) == (w, st));
                    let k = choose|k: int| 0 <= k < s.len() && #[trigger] key_of(s[k]) == (w, st);
                    if k != i {
                        assert(key_of(s[k]) != key_of(s[i as int]));
                    }
                }
                return Some(i);
            }
            i = i + 1;
        }
        None
    }

    /// Removes the entry at `i` and updates the size counter.
    fn remove_at(&mut self, i: usize) -> (e: CacheSlot)
        requires
            old(self).wf(),
            i < old(self).entries_view().len(),
        ensures
            final(self).wf(),
            final(self).entries_view() == old(self).entries_view().remove(i as int),
            e == old(self).entries_view()[i as int],
            final(self).max_view() == old(self).max_view(),
    {
        proof {
            lemma_sum_remove(self.entries@, i as int);
            lemma_keys_distinct_remove(self.entries@, i as int);
        }
        let e = self.entries.remove(i);
        self.current_size_bytes = self.current_size_bytes - e.2.size_bytes;
        e
    }

    /// Evicts the oldest entry (the first with the smallest timestamp).
    fn evict_oldest(&mut self)
        requires
            old(self).wf(),
            old(self).entries_view().len() > 0,
        ensures
            final(self).wf(),
            final(self).entries_view() == old(self).entries_view().remove(oldest_index(old(self).entries_view())),
            final(self).max_view() == old(self).max_view(),
    {
        let mut best: usize = 0;
        let mut i: usize = 1;
        assert(self.entries@.take(1).len() == 1);
        while i < self.entries.len()
            invariant
                1 <= i <= self.entries@.len(),
                best == oldest_index(self.entries@.take(i as int)),
                best < i,
            decreases self.entries.len() - i,
        {
            proof {
                assert(self.entries@.take(i + 1).drop_last() =~= self.entries@.take(i as int));
                assert(self.entries@.take(i as int)[best as int] == self.entries@[best as int]);
                assert(self.entries@.take(i + 1).last() == self.entries@[i as int]);
            }
            if self.entries[i].2.cached_at_ms < self.entries[best].2.cached_at_ms {
                best = i;
            }
            i = i + 1;
        }
        assert(self.entries@.take(i as int) =~= self.entries@);
        let _ = self.remove_at(best);
    }

    /// Stores a step result under (workflow, step), replacing an entry with
    /// that key, after evicting the oldest entries while the new entry would
    /// not fit (an entry larger than the whole bound is still stored, alone).
    pub fn store(&mut self, workflow_id: u128, step_id: u128, result: StepResult, input_hash: u64)
        requires
            old(self).wf(),
            sum_sizes(old(self).entries_view()) + result.output_data@.len() + ENTRY_OVERHEAD_BYTES <= u64::MAX,
        ensures
            final(self).wf(),
            final(self).max_view() == old(self).max_view(),
            ({
                let size = (result.output_data@.len() + ENTRY_OVERHEAD_BYTES) as nat;
                let kept = evict_until(without_key(old(self).entries_view(), workflow_id, step_id), size, old(self).max_view());
                let last = final(self).entries_view().last();
                &&& final(self).entries_view() == kept.push(last)
                &&& key_of(last) == (workflow_id, step_id)
                &&& last.2.result == result
                &&& last.2.size_bytes == size
                &&& last.2.upstream_hash == input_hash
            }),
            lookup(final(self).entries_view(), workflow_id, step_id) == Some(final(self).entries_view().last().2),
            sum_sizes(final(self).entries_view()) <= final(self).max_view() || final(self).entries_view().len() == 1,
    {
        proof {
            lemma_sum_drop_keys(self.entries@, set![(workflow_id, step_id)]);
        }
        self.invalidate(workflow_id, step_id);
        let size = result.output_data.len() as u64 + ENTRY_OVERHEAD_BYTES;
        let ghost size_n = size as nat;
        let ghost start = self.entries@;
        while self.current_size_bytes + size > self.max_size_bytes && self.entries.len() > 0
            invariant
                self.wf(),
                self.max_size_bytes == old(self).max_size_bytes,
                size == size_n,
                sum_sizes(self.entries@) + size <= u64::MAX,
                evict_until(start, size_n, self.max_size_bytes as nat) == evict_until(self.entries@, size_n, self.max_size_bytes as nat),
            decreases self.entries@.len(),
        {
            proof {
                lemma_oldest_index(self.entries@);
                lemma_sum_remove(self.entries@, oldest_index(self.entries@));
            }
            self.evict_oldest();
        }
        assert(evict_until(self.entries@, size_n, self.max_size_bytes as nat) == self.entries@);
        let entry = CacheEntry { result, cached_at_ms: now_unix_millis(), size_bytes: size, upstream_hash: input_hash };
        let ghost kept = self.entries@;
        proof {
            lemma_sum_push(kept, (workflow_id, step_id, entry));
            lemma_evict_until(start, size_n, self.max_size_bytes as nat);
            lemma_drop_keys_contains(old(self).entries@, set![(workflow_id, step_id)]);
        }
        self.current_size_bytes = self.current_size_bytes + size;
        self.entries.push((workflow_id, step_id, entry));
        proof {
            let s = self.entries@;
            assert forall|a: int, b: int| 0 <= a < s.len() && 0 <= b < s.len() && a != b implies key_of(s[a]) != key_of(s[b]) by {
                if a < kept.len() && b < kept.len() {
                    assert(s[a] == kept[a] && s[b] == kept[b]);
                } else {
                    let c = if a < kept.len() { a } else { b };
                    assert(s[c] == kept[c]);
                    assert(kept.contains(kept[c]));
                    assert(start.contains(kept[c]));
                }
            }
            law_lookup_last(kept, (workflow_id, step_id, entry));
        }
    }

    /// The result cached under (workflow, step), if any.
    pub fn get(&self, workflow_id: u128, step_id: u128) -> (r: Option<&StepResult>)
        requires
            self.wf(),
        ensures
            match lookup(self.entries_view(), workflow_id, step_id) {
                Some(e) => r == Some(&e.result),
                None => r is None,
            },
    {
        match self.position(workflow_id, step_id) {
            Some(i) => Some(&self.entries[i].2.result),
            None => None,
        }
    }

    /// The entry cached under (workflow, step), if any.
    pub fn get_entry(&self, workflow_id: u128, step_id: u128) -> (r: Option<&CacheEntry>)
        requires
            self.wf(),
        ensures
            match lookup(self.entries_view(), workflow_id, step_id) {
                Some(e) => r == Some(&e),
                None => r is None,
            },
    {
        match self.position(workflow_id, step_id) {
            Some(i) => Some(&self.entries[i].2),
            None => None,
        }
    }

    /// Removes the entry under (workflow, step), if any.
    pub fn invalidate(&mut self, workflow_id: u128, step_id: u128)
        requires
            old(self).wf(),
        ensures
            final(self).wf(),
            final(self).max_view() == old(self).max_view(),
            final(self).entries_view() == without_key(old(self).entries_view(), workflow_id, step_id),
    {
        match self.position(workflow_id, step_id) {
            Some(i) => {
                proof {
                    lemma_remove_is_drop(self.entries@, i as int);
                }
                let _ = self.remove_at(i);
            },
            None => {
                proof {
                    lemma_drop_keys_none(self.entries@, set![(workflow_id, step_id)]);
                }
            },
        }
    }

    /// Removes the entries of every step that depends, directly or
    /// transitively, on `step_id` in the DAG.
    pub fn invalidate_downstream(&mut self, workflow_id: u128, step_id: u128, dag: &ExecutionDag)
        requires
            old(self).wf(),
        ensures
            final(self).wf(),
            final(self).max_view() == old(self).max_view(),
            exists|d: Set<u128>| is_downstream(dag.edges@, step_id, d)
                && final(self).entries_view() == without_steps(old(self).entries_view(), workflow_id, d),
    {
        let down = Self::find_downstream_steps(step_id, dag);
        let mut k: usize = 0;
        proof {
            assert(step_keys(workflow_id, down@.take(0).to_set()) =~= Set::<(u128, u128)>::empty());
            lemma_drop_keys_none(self.entries@, Set::<(u128, u128)>::empty());
        }
        while k < down.len()
            invariant
                self.wf(),
                self.max_size_bytes == old(self).max_size_bytes,
                k <= down@.len(),
                self.entries@ == drop_keys(old(self).entries@, step_keys(workflow_id, down@.take(k as int).to_set())),
            decreases down.len() - k,
        {
            proof {
                broadcast use vstd::seq_lib::lemma_seq_contains_after_push;
                lemma_drop_keys_compose(old(self).entries@, step_keys(workflow_id, down@.take(k as int).to_set()), set![(workflow_id, down@[k as int])]);
                assert(down@.take(k + 1) =~= down@.take(k as int).push(down@[k as int]));
                assert(step_keys(workflow_id, down@.take(k as int).to_set()).union(set![(workflow_id, down@[k as int])])
                    =~= step_keys(workflow_id, down@.take(k + 1).to_set()));
            }
            self.invalidate(workflow_id, down[k]);
            k = k + 1;
        }
        proof {
            assert(down@.take(down@.len() as int) =~= down@);
        }
    }

    /// Removes every entry of a workflow.
    pub fn clear_workflow(&mut self, workflow_id: u128)
        requires
            old(self).wf(),
        ensures
            final(self).wf(),
            final(self).max_view() == old(self).max_view(),
            final(self).entries_view() == without_workflow(old(self).entries_view(), workflow_id),
    {
        let mut i: usize = 0;
        let ghost ks = workflow_keys(workflow_id);
        while i < self.entries.len()
            invariant
                self.wf(),
                self.max_size_bytes == old(self).max_size_bytes,
                i <= self.entries@.len(),
                drop_keys(self.entries@, ks) == drop_keys(old(self).entries@, ks),
                ks == workflow_keys(workflow_id),
                forall|j: int| 0 <= j < i ==> !ks.contains(#[trigger] key_of(self.entries@[j])),
            decreases self.entries@.len() - i,
        {
            if self.entries[i].0 == workflow_id {
                proof {
                    lemma_drop_keys_remove(self.entries@, ks, i as int);
                }
                let ghost before = self.entries@;
                let _ = self.remove_at(i);
                proof {
                    assert forall|j: int| 0 <= j < i implies !ks.contains(#[trigger] key_of(self.entries@[j])) by {
                        assert(self.entries@[j] == before[j]);
                    }
                }
            } else {
                i = i + 1;
            }
        }
        proof {
            lemma_drop_keys_none(self.entries@, ks);
        }
    }

    /// Current total size in bytes.
    pub fn current_size_bytes(&self) -> (n: u64)
        requires
            self.wf(),
        ensures
            n == sum_sizes(self.entries_view()),
    {
        self.current_size_bytes
    }

    /// Number of entries.
    pub fn len(&self) -> (n: usize)
        ensures
            n == self.entries_view().len(),
    {
        self.entries.len()
    }

    /// Whether the cache holds no entry.
    pub fn is_empty(&self) -> (b: bool)
        ensures
            b == (self.entries_view().len() == 0),
    {
        self.entries.len() == 0
    }

    /// The steps that depend on `step_id`, directly or transitively, each
    /// once.
    pub fn find_downstream_steps(step_id: u128, dag: &ExecutionDag) -> (r: Vec<u128>)
        ensures
            r@.no_duplicates(),
            is_downstream(dag.edges@, step_id, r@.to_set()),
    {
        let edges = &dag.edges;
        let mut down: Vec<u128> = Vec::new();
        loop
            invariant_except_break
                down@.no_duplicates(),
                forall|t: Set<u128>| downstream_closed(edges@, step_id, t) ==> #[trigger] down@.to_set().subset_of(t),
            ensures
                down@.no_duplicates(),
                forall|t: Set<u128>| downstream_closed(edges@, step_id, t) ==> #[trigger] down@.to_set().subset_of(t),
                downstream_closed(edges@, step_id, down@.to_set()),
            decreases unreached_edges(edges@, down@),
        {
            let ghost start = down@;
            let mut changed = false;
            let mut e: usize = 0;
            while e < edges.len()
                invariant
                    e <= edges@.len(),
                    down@.no_duplicates(),
                    forall|t: Set<u128>| downstream_closed(edges@, step_id, t) ==> #[trigger] down@.to_set().subset_of(t),
                    forall|x: u128| start.contains(x) ==> down@.contains(x),
                    changed ==> unreached_edges(edges@, down@) < unreached_edges(edges@, start),
                    !changed ==> down@ == start,
                    !changed ==> forall|f: int| 0 <= f < e && ((#[trigger] edges@[f]).0 == step_id || down@.contains(edges@[f].0)) ==> down@.contains(edges@[f].1),
                decreases edges@.len() - e,
            {
                let from = edges[e].0;
                let to = edges[e].1;
                if (from == step_id || crate::agents::dag::contains_id(&down, from)) && !crate::agents::dag::contains_id(&down, to) {
                    let ghost pre = down@;
                    down.push(to);
                    proof {
                        broadcast use vstd::seq_lib::lemma_seq_contains_after_push;
                        assert(forall|x: u128| pre.contains(x) ==> down@.contains(x));
                        assert(down@.contains(to));
                        lemma_unreached_strict(edges@, pre, down@, e as int);
                        lemma_unreached_mono(edges@, start, pre);
                        assert(down@.no_duplicates()) by {
                            assert forall|a: int, b: int| 0 <= a < down@.len() && 0 <= b < down@.len() && a != b implies down@[a] != down@[b] by {
                                if a < pre.len() && b < pre.len() {
                                    assert(down@[a] == pre[a] && down@[b] == pre[b]);
                                } else if a < pre.len() {
                                    assert(down@[a] == pre[a]);
                                    assert(pre.contains(pre[a]));
                                } else if b < pre.len() {
                                    assert(down@[b] == pre[b]);
                                    assert(pre.contains(pre[b]));
                                }
                            }
                        }
                        assert forall|t: Set<u128>| downstream_closed(edges@, step_id, t) implies #[trigger] down@.to_set().subset_of(t) by {
                            assert(pre.to_set().subset_of(t));
                            assert(t.contains(to)) by {
                                if from != step_id {
                                    assert(pre.to_set().contains(from));
                                }
                            }
                            assert forall|x: u128| down@.to_set().contains(x) implies t.contains(x) by {
                                if x != to {
                                    assert(pre.contains(x));
                                    assert(pre.to_set().contains(x));
                                }
                            }
                        }
                    }
                    changed = true;
                }
                e = e + 1;
            }
            if !changed {
                proof {
                    assert forall|f: int| 0 <= f < edges@.len() && (#[trigger] edges@[f]).0 == step_id implies down@.to_set().contains(edges@[f].1) by {
                        assert(down@.contains(edges@[f].1));
                    }
                    assert forall|f: int| 0 <= f < edges@.len() && down@.to_set().contains((#[trigger] edges@[f]).0) implies down@.to_set().contains(edges@[f].1) by {
                        assert(down@.contains(edges@[f].0));
                        assert(down@.contains(edges@[f].1));
                    }
                }
                break ;
            }
        }
        down
    }
}

proof fn lemma_unreached_mono(edges: Seq<(u128, u128)>, a: Seq<u128>, b: Seq<u128>)
    requires
        forall|x: u128| a.contains(x) ==> b.contains(x),
    ensures
        unreached_edges(edges, b) <= unreached_edges(edges, a),
    decreases edges.len(),
{
    if edges.len() > 0 {
        lemma_unreached_mono(edges.drop_last(), a, b);
    }
}

proof fn lemma_unreached_strict(edges: Seq<(u128, u128)>, a: Seq<u128>, b: Seq<u128>, e: int)
    requires
        forall|x: u128| a.contains(x) ==> b.contains(x),
        0 <= e < edges.len(),
        !a.contains(edges[e].1),
        b.contains(edges[e].1),
    ensures
        unreached_edges(edges, b) < unreached_edges(edges, a),
    decreases edges.len(),
{
    if e == edges.len() - 1 {
        lemma_unreached_mono(edges.drop_last(), a, b);
    } else {
        lemma_unreached_strict(edges.drop_last(), a, b, e);
    }
}

// ─── Hashing of step inputs ─────────────────────────────────────────────────

/// No two inputs carry the same step ID (the inputs form a map).
pub open spec fn distinct_input_keys(input: Seq<(u128, Vec<u8>)>) -> bool {
    forall|a: int, b: int| 0 <= a < input.len() && 0 <= b < input.len() && a != b ==> input[a].0 != input[b].0
}

/// `order` visits every input exactly once, by strictly increasing step ID.
pub open spec fn orders_by_key(input: Seq<(u128, Vec<u8>)>, order: Seq<usize>) -> bool {
    &&& input.len() <= usize::MAX
    &&& order.len() == input.len()
    &&& forall|k: int| 0 <= k < order.len() ==> (#[trigger] order[k]) < input.len()
    &&& forall|j: usize| j < input.len() ==> #[trigger] order.contains(j)
    &&& forall|a: int, b: int|
        0 <= a < b < order.len() ==> input[order[a] as int].0 < input[order[b] as int].0
}

/// The inputs as (step ID, bytes) pairs, in the given order.
pub open spec fn ordered_inputs(input: Seq<(u128, Vec<u8>)>, order: Seq<usize>) -> Seq<(u128, Seq<u8>)> {
    order.map_values(|i: usize| (input[i as int].0, input[i as int].1@))
}

/// The 16 bytes of a step ID, most significant first (how a UUID feeds a
/// hasher).
pub open spec fn id_bytes(x: u128) -> Seq<u8> {
    Seq::new(16, |i: int| ((x >> ((8 * (15 - i)) as u128)) & 0xff) as u8)
}

/// The bytes of a `usize` in the machine's order (`little` for
/// little-endian), as `usize::to_ne_bytes` gives them.
pub open spec fn usize_bytes(n: usize, little: bool) -> Seq<u8> {
    let w: int = (usize::BITS / 8) as int;
    Seq::new(
        w as nat,
        |i: int| {
            let k: int = if little {
                i
            } else {
                w - 1 - i
            };
            ((n >> ((8 * k) as usize)) & 0xff) as u8
        },
    )
}

/// The writes that hash (step ID, bytes) pairs as the ID and the byte
/// vector hash themselves: the ID's 16 bytes; then the vector's length (in
/// the machine's byte order) and its bytes.
pub open spec fn pair_writes(p: Seq<(u128, Seq<u8>)>, little: bool) -> Seq<Seq<u8>>
    decreases p.len(),
{
    if p.len() == 0 {
        Seq::empty()
    } else {
        pair_writes(p.drop_last(), little).push(id_bytes(p.last().0)).push(
            usize_bytes(p.last().1.len() as usize, little),
        ).push(p.last().1)
    }
}

/// The number 1 as a `u16` in the machine's byte order (`u16::to_ne_bytes`):
/// `[1, 0]` on a little-endian machine, `[0, 1]` on a big-endian one.
#[verifier::external_body]
fn one_in_native_order() -> (b: Vec<u8>)
    ensures
        b@ == seq![1u8, 0u8] || b@ == seq![0u8, 1u8],
{
    1u16.to_ne_bytes().to_vec()
}

/// The 16 bytes of a step ID, most significant first.
fn id_bytes_of(x: u128) -> (v: Vec<u8>)
    ensures
        v@ == id_bytes(x),
{
    let mut v: Vec<u8> = Vec::new();
    let mut i: usize = 0;
    while i < 16
        invariant
            i <= 16,
            v@ =~= Seq::new(i as nat, |j: int| ((x >> ((8 * (15 - j)) as u128)) & 0xff) as u8),
        decreases 16 - i,
    {
        let sh: u128 = (8 * (15 - i)) as u128;
        v.push(((x >> sh) & 0xff) as u8);
        i = i + 1;
    }
    v
}

/// The bytes of a `usize` in the given byte order.
fn usize_bytes_of(n: usize, little: bool) -> (v: Vec<u8>)
    ensures
        v@ == usize_bytes(n, little),
{
    let w: usize = (usize::BITS / 8) as usize;
    let mut v: Vec<u8> = Vec::new();
    let mut i: usize = 0;
    while i < w
        invariant
            w == usize::BITS / 8,
            w == 4 || w == 8,
            i <= w,
            v@ =~= Seq::new(
                i as nat,
                |j: int| {
                    let k: int = if little {
                        j
                    } else {
                        w - 1 - j
                    };
                    ((n >> ((8 * k) as usize)) & 0xff) as u8
                },
            ),
        decreases w - i,
    {
        let k: usize = if little {
            i
        } else {
            w - 1 - i
        };
        v.push(((n >> (8 * k)) & 0xff) as u8);
        i = i + 1;
    }
    v
}

/// The (step ID, bytes) pairs of the inputs, as a set.
pub open spec fn input_entries(input: Seq<(u128, Vec<u8>)>) -> Set<(u128, Seq<u8>)> {
    Set::new(|x: (u128, Seq<u8>)| exists|j: int| 0 <= j < input.len() && #[trigger] input[j].0 == x.0 && input[j].1@ == x.1)
}

/// The pairs are ordered by strictly increasing step ID.
pub open spec fn strictly_by_key(p: Seq<(u128, Seq<u8>)>) -> bool {
    forall|a: int, b: int| 0 <= a < b < p.len() ==> p[a].0 < p[b].0
}

/// Two sequences ordered by strictly increasing key that hold the same
/// elements are equal.
proof fn lemma_sorted_unique(s: Seq<(u128, Seq<u8>)>, t: Seq<(u128, Seq<u8>)>)
    requires
        strictly_by_key(s),
        strictly_by_key(t),
        forall|x: (u128, Seq<u8>)| s.contains(x) <==> t.contains(x),
    ensures
        s == t,
    decreases s.len(),
{
    if s.len() == 0 {
        if t.len() > 0 {
            assert(t.contains(t[0]));
        }
        assert(s =~= t);
    } else {
        assert(s.contains(s.last()));
        let ms = s.last();
        let mt = t.last();
        assert(t.contains(mt));
        let js = choose|j: int| 0 <= j < s.len() && s[j] == mt;
        let jt = choose|j: int| 0 <= j < t.len() && t[j] == ms;
        assert(s[js] == mt);
        assert(t[jt] == ms);
        if js < s.len() - 1 {
            assert(mt.0 < ms.0);
            if jt < t.len() - 1 {
                assert(ms.0 < mt.0);
            }
            assert(false);
        }
        assert(mt == ms);
        let s2 = s.drop_last();
        let t2 = t.drop_last();
        assert forall|x: (u128, Seq<u8>)| s2.contains(x) <==> t2.contains(x) by {
            if s2.contains(x) {
                let j = choose|j: int| 0 <= j < s2.len() && s2[j] == x;
                assert(s[j] == x);
                assert(x.0 < ms.0);
                assert(s.contains(x));
                let k = choose|k: int| 0 <= k < t.len() && t[k] == x;
                if k == t.len() - 1 {
                    assert(false);
                }
                assert(t2[k] == x);
            }
            if t2.contains(x) {
                let j = choose|j: int| 0 <= j < t2.len() && t2[j] == x;
                assert(t[j] == x);
                assert(x.0 < mt.0);
                assert(t.contains(x));
                let k = choose|k: int| 0 <= k < s.len() && s[k] == x;
                if k == s.len() - 1 {
                    assert(false);
                }
                assert(s2[k] == x);
            }
        }
        lemma_sorted_unique(s2, t2);
        assert(s =~= s2.push(ms));
        assert(t =~= t2.push(mt));
    }
}

/// The ordered inputs of an order by key are sorted and hold exactly the
/// inputs' entries.
proof fn lemma_ordered_inputs(input: Seq<(u128, Vec<u8>)>, order: Seq<usize>)
    requires
        orders_by_key(input, order),
    ensures
        strictly_by_key(ordered_inputs(input, order)),
        forall|x: (u128, Seq<u8>)| ordered_inputs(input, order).contains(x) <==> input_entries(input).contains(x),
{
    let p = ordered_inputs(input, order);
    assert forall|a: int, b: int| 0 <= a < b < p.len() implies p[a].0 < p[b].0 by {
        assert(p[a].0 == input[order[a] as int].0);
        assert(p[b].0 == input[order[b] as int].0);
    }
    assert forall|x: (u128, Seq<u8>)| p.contains(x) <==> input_entries(input).contains(x) by {
        if p.contains(x) {
            let k = choose|k: int| 0 <= k < p.len() && p[k] == x;
            let j = order[k] as int;
            assert(0 <= j < input.len() && input[j].0 == x.0 && input[j].1@ == x.1);
        }
        if input_entries(input).contains(x) {
            let j = choose|j: int| 0 <= j < input.len() && #[trigger] input[j].0 == x.0 && input[j].1@ == x.1;
            let ju = j as usize;
            assert(ju as int == j);
            assert(order.contains(ju));
            let k = choose|k: int| 0 <= k < order.len() && order[k] == ju;
            assert(p[k] == (input[j].0, input[j].1@));
        }
    }
}

/// Hashing step inputs does not depend on their order: inputs holding the
/// same (step ID, bytes) entries, in any order, are hashed by the same
/// writes, and so to the same value.
pub proof fn law_input_hash_order_independent(
    a: Seq<(u128, Vec<u8>)>,
    b: Seq<(u128, Vec<u8>)>,
    oa: Seq<usize>,
    ob: Seq<usize>,
)
    requires
        distinct_input_keys(a),
        distinct_input_keys(b),
        orders_by_key(a, oa),
        orders_by_key(b, ob),
        input_entries(a) == input_entries(b),
    ensures
        ordered_inputs(a, oa) == ordered_inputs(b, ob),
        forall|little: bool| pair_writes(ordered_inputs(a, oa), little) == #[trigger] pair_writes(ordered_inputs(b, ob), little),
{
    lemma_ordered_inputs(a, oa);
    lemma_ordered_inputs(b, ob);
    assert forall|x: (u128, Seq<u8>)| ordered_inputs(a, oa).contains(x) <==> ordered_inputs(b, ob).contains(x) by {
        assert(ordered_inputs(a, oa).contains(x) <==> input_entries(a).contains(x));
        assert(ordered_inputs(b, ob).contains(x) <==> input_entries(b).contains(x));
    }
    lemma_sorted_unique(ordered_inputs(a, oa), ordered_inputs(b, ob));
}

impl ResultCache {
    /// The positions of the inputs ordered by increasing step ID.
    pub fn sorted_key_order(input_data: &Vec<(u128, Vec<u8>)>) -> (order: Vec<usize>)
        requires
            distinct_input_keys(input_data@),
        ensures
            orders_by_key(input_data@, order@),
    {
        let mut order: Vec<usize> = Vec::new();
        let n = input_data.len();
        let mut i: usize = 0;
        while i < n
            invariant
                n == input_data@.len(),
                i <= input_data@.len(),
                distinct_input_keys(input_data@),
                order@.len() == i,
                forall|k: int| 0 <= k < order@.len() ==> (#[trigger] order@[k]) < i,
                forall|j: usize| j < i ==> #[trigger] order@.contains(j),
                forall|a: int, b: int|
                    0 <= a < b < order@.len() ==> input_data@[order@[a] as int].0 < input_data@[order@[b] as int].0,
            decreases n - i,
        {
            let key = input_data[i].0;
            let mut p: usize = 0;
            while p < order.len() && input_data[order[p]].0 < key
                invariant
                    i < input_data@.len(),
                    p <= order@.len(),
                    forall|k: int| 0 <= k < order@.len() ==> (#[trigger] order@[k]) < i,
                    forall|a: int| 0 <= a < p ==> input_data@[order@[a] as int].0 < key,
                    key == input_data@[i as int].0,
                decreases order.len() - p,
            {
                p = p + 1;
            }
            let ghost before = order@;
            proof {
                if p < before.len() {
                    assert(before[p as int] < i);
                    assert(input_data@[before[p as int] as int].0 != key);
                }
            }
            order.insert(p, i);
            proof {
                let s = order@;
                assert(s == before.insert(p as int, i));
                assert forall|a: int, b: int| 0 <= a < b < s.len() implies input_data@[s[a] as int].0 < input_data@[s[b] as int].0 by {
                    if b < p {
                        assert(s[a] == before[a] && s[b] == before[b]);
                    } else if b == p {
                        assert(s[a] == before[a]);
                    } else if a < p {
                        assert(s[a] == before[a] && s[b] == before[b - 1]);
                        assert(input_data@[before[p as int] as int].0 <= input_data@[before[b - 1] as int].0);
                    } else if a == p {
                        assert(s[b] == before[b - 1]);
                        assert(input_data@[before[p as int] as int].0 <= input_data@[before[b - 1] as int].0);
                    } else {
                        assert(s[a] == before[a - 1] && s[b] == before[b - 1]);
                    }
                }
                assert forall|j: usize| j < i + 1 implies #[trigger] s.contains(j) by {
                    if j == i {
                        assert(s[p as int] == i);
                    } else {
                        assert(before.contains(j));
                        let k = choose|k: int| 0 <= k < before.len() && before[k] == j;
                        if k < p {
                            assert(s[k] == j);
                        } else {
                            assert(s[k + 1] == j);
                        }
                    }
                }
                assert forall|k: int| 0 <= k < s.len() implies (#[trigger] s[k]) < i + 1 by {
                    if k < p {
                        assert(s[k] == before[k]);
                    } else if k > p {
                        assert(s[k] == before[k - 1]);
                    }
                }
            }
            i = i + 1;
        }
        order
    }

    /// A hash of step inputs for detecting changed inputs: each input, by
    /// increasing step ID, feeds std's `DefaultHasher` the way a UUID and a
    /// byte vector hash themselves (the ID's 16 bytes, most significant
    /// first; the vector's length in the machine's byte order, then its
    /// bytes).
    pub fn compute_input_hash(input_data: &Vec<(u128, Vec<u8>)>) -> (h: u64)
        requires
            distinct_input_keys(input_data@),
        ensures
            exists|order: Seq<usize>, little: bool|
                orders_by_key(input_data@, order) && h == DefaultHasher::spec_finish(
                    pair_writes(ordered_inputs(input_data@, order), little),
                ),
    {
        let order = Self::sorted_key_order(input_data);
        let one = one_in_native_order();
        let little = one[0] == 1;
        let mut hasher = DefaultHasher::new();
        let mut k: usize = 0;
        while k < order.len()
            invariant
                orders_by_key(input_data@, order@),
                k <= order@.len(),
                hasher@ == pair_writes(ordered_inputs(input_data@, order@.take(k as int)), little),
            decreases order.len() - k,
        {
            let idx = order[k];
            let id = id_bytes_of(input_data[idx].0);
            hasher.write(id.as_slice());
            let len = usize_bytes_of(input_data[idx].1.len(), little);
            hasher.write(len.as_slice());
            hasher.write(input_data[idx].1.as_slice());
            proof {
                let p = ordered_inputs(input_data@, order@.take(k + 1));
                assert(p.drop_last() =~= ordered_inputs(input_data@, order@.take(k as int)));
                assert(p.last() == (input_data@[idx as int].0, input_data@[idx as int].1@));
            }
            k = k + 1;
        }
        assert(order@.take(order@.len() as int) =~= order@);
        hasher.finish()
    }
}

} // verus!
