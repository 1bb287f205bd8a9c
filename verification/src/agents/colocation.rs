//! Co-location demand: counts of (model, tool) pairs seen together in
//! completed agent steps, the most frequent pairs, and whether a node holds a
//! tool often paired with a model.
use vstd::prelude::*;

use crate::text::owned;

verus! {

/// A (model, tool) pair with the number of times it was observed.
#[derive(Debug, Clone)]
pub struct ColocationPair {
    pub model_id: String,
    pub tool_id: String,
    pub count: u64,
}

/// A pair as plain values: model, tool, count.
pub type PairView = (Seq<char>, Seq<char>, u64);

/// The plain values of a pair.
pub open spec fn pair_view(p: ColocationPair) -> PairView {
    (p.model_id@, p.tool_id@, p.count)
}

/// The plain values of a list of pairs.
pub open spec fn pairs_view(v: Seq<ColocationPair>) -> Seq<PairView> {
    v.map_values(|p: ColocationPair| pair_view(p))
}

/// Index of the first pair with the given model and tool, if any.
pub open spec fn pair_index(pairs: Seq<PairView>, m: Seq<char>, t: Seq<char>) -> Option<int> {
    if exists|i: int|
        0 <= i < pairs.len() && (#[trigger] pairs[i]).0 == m && pairs[i].1 == t && forall|j: int|
            0 <= j < i ==> !((#[trigger] pairs[j]).0 == m && pairs[j].1 == t) {
        Some(choose|i: int|
            0 <= i < pairs.len() && (#[trigger] pairs[i]).0 == m && pairs[i].1 == t && forall|j: int|
                0 <= j < i ==> !((#[trigger] pairs[j]).0 == m && pairs[j].1 == t))
    } else {
        None
    }
}

/// One more observation of (m, t): its count goes up by one, or it is added
/// with count one.
pub open spec fn record_one(pairs: Seq<PairView>, m: Seq<char>, t: Seq<char>) -> Seq<PairView> {
    match pair_index(pairs, m, t) {
        Some(i) => pairs.update(i, (m, t, (pairs[i].2 + 1) as u64)),
        None => pairs.push((m, t, 1)),
    }
}

/// Observations of `m` with each tool of `tools`, in order.
pub open spec fn record_all(pairs: Seq<PairView>, m: Seq<char>, tools: Seq<Seq<char>>) -> Seq<PairView>
    decreases tools.len(),
{
    if tools.len() == 0 {
        pairs
    } else {
        record_one(record_all(pairs, m, tools.drop_last()), m, tools.last())
    }
}

/// `x` inserted into `s` before the first pair with a smaller count.
pub open spec fn insert_by_count(s: Seq<PairView>, x: PairView) -> Seq<PairView>
    decreases s.len(),
{
    if s.len() == 0 {
        seq![x]
    } else if s[0].2 >= x.2 {
        seq![s[0]] + insert_by_count(s.drop_first(), x)
    } else {
        seq![x] + s
    }
}

/// The pairs sorted by count, highest first; pairs with equal counts keep
/// their order.
pub open spec fn sort_by_count(s: Seq<PairView>) -> Seq<PairView>
    decreases s.len(),
{
    if s.len() == 0 {
        s
    } else {
        insert_by_count(sort_by_count(s.drop_last()), s.last())
    }
}

/// Counts never increase along the sequence.
pub open spec fn counts_descending(s: Seq<PairView>) -> bool {
    forall|i: int, j: int| #![trigger s[i], s[j]] 0 <= i <= j < s.len() ==> s[i].2 >= s[j].2
}

/// The tools of the pairs with model `m`, in order.
pub open spec fn tools_paired_with(pairs: Seq<PairView>, m: Seq<char>) -> Seq<Seq<char>>
    decreases pairs.len(),
{
    if pairs.len() == 0 {
        Seq::empty()
    } else {
        let r = tools_paired_with(pairs.drop_last(), m);
        if pairs.last().0 == m {
            r.push(pairs.last().1)
        } else {
            r
        }
    }
}

/// The texts of a list of strings.
pub open spec fn texts(v: Seq<String>) -> Seq<Seq<char>> {
    v.map_values(|s: String| s@)
}

/// Tracker of (model, tool) co-occurrences.
pub struct ColocationTracker {
    pair_counts: Vec<ColocationPair>,
    total_observations: u64,
    top_pairs: Vec<ColocationPair>,
}

/// Inserting by count puts `x` at the first position whose count is below
/// that of `x`.
proof fn lemma_insert_by_count(s: Seq<PairView>, x: PairView, p: int)
    requires
        0 <= p <= s.len(),
        forall|j: int| 0 <= j < p ==> (#[trigger] s[j]).2 >= x.2,
        p < s.len() ==> s[p].2 < x.2,
    ensures
        insert_by_count(s, x) == s.take(p) + seq![x] + s.skip(p),
    decreases s.len(),
{
    if s.len() == 0 {
        assert(s.take(p) + seq![x] + s.skip(p) =~= seq![x]);
    } else if p == 0 {
        assert(s.take(0) + seq![x] + s.skip(0) =~= seq![x] + s);
    } else {
        let t = s.drop_first();
        assert forall|j: int| 0 <= j < p - 1 implies (#[trigger] t[j]).2 >= x.2 by {
            assert(t[j] == s[j + 1]);
        }
        lemma_insert_by_count(t, x, p - 1);
        assert(seq![s[0]] + (t.take(p - 1) + seq![x] + t.skip(p - 1)) =~= s.take(p) + seq![x] + s.skip(p));
    }
}

/// Inserting by count keeps a descending sequence descending.
proof fn lemma_insert_keeps_descending(s: Seq<PairView>, x: PairView)
    requires
        counts_descending(s),
    ensures
        counts_descending(insert_by_count(s, x)),
        insert_by_count(s, x).len() == s.len() + 1,
        insert_by_count(s, x).to_multiset() == s.to_multiset().insert(x),
    decreases s.len(),
{
    broadcast use vstd::seq_lib::group_to_multiset_ensures;
    if s.len() == 0 {
        assert(insert_by_count(s, x) =~= seq![x]);
        assert(seq![x] =~= s.push(x));
    } else if s[0].2 >= x.2 {
        let t = s.drop_first();
        assert(counts_descending(t)) by {
            assert forall|i: int, j: int| 0 <= i <= j < t.len() implies #[trigger] t[i].2 >= #[trigger] t[j].2 by {
                assert(t[i] == s[i + 1] && t[j] == s[j + 1]);
            }
        }
        lemma_insert_keeps_descending(t, x);
        let r = insert_by_count(t, x);
        let out = seq![s[0]] + r;
        assert(out == insert_by_count(s, x));
        assert forall|i: int, j: int| 0 <= i <= j < out.len() implies #[trigger] out[i].2 >= #[trigger] out[j].2 by {
            if i == 0 && j > 0 {
                assert(out[j] == r[j - 1]);
                assert(r.to_multiset().contains(r[j - 1]));
                assert(r.to_multiset().count(r[j - 1]) > 0);
                assert(t.to_multiset().insert(x).count(r[j - 1]) > 0);
                if r[j - 1] != x {
                    assert(t.to_multiset().count(r[j - 1]) > 0);
                    assert(t.contains(r[j - 1]));
                    let k = choose|k: int| 0 <= k < t.len() && t[k] == r[j - 1];
                    assert(s[k + 1] == t[k]);
                }
            } else if i > 0 {
                assert(out[i] == r[i - 1] && out[j] == r[j - 1]);
            }
        }
        assert(s =~= seq![s[0]] + t);
        assert((seq![s[0]] + t).to_multiset() =~= t.to_multiset().insert(s[0])) by {
            vstd::seq_lib::lemma_multiset_commutative(seq![s[0]], t);
            assert(seq![s[0]].to_multiset() =~= vstd::multiset::Multiset::empty().insert(s[0])) by {
                assert(seq![s[0]] =~= Seq::<PairView>::empty().push(s[0]));
            }
        }
        assert(out.to_multiset() =~= r.to_multiset().insert(s[0])) by {
            vstd::seq_lib::lemma_multiset_commutative(seq![s[0]], r);
            assert(seq![s[0]] =~= Seq::<PairView>::empty().push(s[0]));
        }
    } else {
        let out = seq![x] + s;
        assert forall|i: int, j: int| 0 <= i <= j < out.len() implies #[trigger] out[i].2 >= #[trigger] out[j].2 by {
            if i == 0 && j > 0 {
                assert(out[j] == s[j - 1]);
                assert(s[0].2 >= s[j - 1].2);
            } else if i > 0 {
                assert(out[i] == s[i - 1] && out[j] == s[j - 1]);
            }
        }
        assert(out.to_multiset() =~= s.to_multiset().insert(x)) by {
            vstd::seq_lib::lemma_multiset_commutative(seq![x], s);
            assert(seq![x] =~= Seq::<PairView>::empty().push(x));
        }
    }
}

/// Law: sorting by count gives a descending sequence with the same pairs.
pub proof fn law_sort_by_count(s: Seq<PairView>)
    ensures
        counts_descending(sort_by_count(s)),
        sort_by_count(s).to_multiset() == s.to_multiset(),
        sort_by_count(s).len() == s.len(),
    decreases s.len(),
{
    broadcast use vstd::seq_lib::group_to_multiset_ensures;
    if s.len() > 0 {
        law_sort_by_count(s.drop_last());
        lemma_insert_keeps_descending(sort_by_count(s.drop_last()), s.last());
        assert(s.drop_last().push(s.last()) =~= s);
    }
}

impl ColocationTracker {
    /// The pair counts, in order of first observation.
    pub closed spec fn counts_view(&self) -> Seq<PairView> {
        pairs_view(self.pair_counts@)
    }

    /// Number of observations recorded.
    pub closed spec fn total_view(&self) -> u64 {
        self.total_observations
    }

    /// The top pairs last computed.
    pub closed spec fn top_view(&self) -> Seq<PairView> {
        pairs_view(self.top_pairs@)
    }

    /// Every count is at most the number of observations.
    pub closed spec fn wf(&self) -> bool {
        forall|i: int| 0 <= i < self.pair_counts@.len() ==> (#[trigger] self.pair_counts@[i]).count <= self.total_observations
    }

    /// An empty tracker.
    pub fn new() -> (t: Self)
        ensures
            t.wf(),
            t.counts_view() == Seq::<PairView>::empty(),
            t.total_view() == 0,
            t.top_view() == Seq::<PairView>::empty(),
    {
        let t = ColocationTracker { pair_counts: Vec::new(), total_observations: 0, top_pairs: Vec::new() };
        assert(pairs_view(t.pair_counts@) =~= Seq::<PairView>::empty());
        assert(pairs_view(t.top_pairs@) =~= Seq::<PairView>::empty());
        t
    }

    /// Position of the pair (m, t), if recorded.
    fn find_pair(&self, m: &String, t: &String) -> (r: Option<usize>)
        ensures
            r matches Some(i) ==> pair_index(self.counts_view(), m@, t@) == Some(i as int) && i < self.pair_counts@.len(),
            r is None ==> pair_index(self.counts_view(), m@, t@) is None,
    {
        let ghost pairs = self.counts_view();
        let mut i: usize = 0;
        while i < self.pair_counts.len()
            invariant
                pairs == self.counts_view(),
                pairs.len() == self.pair_counts@.len(),
                i <= pairs.len(),
                forall|j: int| 0 <= j < i ==> !((#[trigger] pairs[j]).0 == m@ && pairs[j].1 == t@),
            decreases self.pair_counts.len() - i,
        {
            assert(pairs[i as int] == pair_view(self.pair_counts@[i as int]));
            if self.pair_counts[i].model_id == *m && self.pair_counts[i].tool_id == *t {
                proof {
                    let k = choose|k: int|
                        0 <= k < pairs.len() && (#[trigger] pairs[k]).0 == m@ && pairs[k].1 == t@ && forall|j: int|
                            0 <= j < k ==> !((#[trigger] pairs[j]).0 == m@ && pairs[j].1 == t@);
                    assert(k == i) by {
                        if k > i {
                            assert(pairs[i as int].0 == m@);
                        }
                    }
                }
                return Some(i);
            }
            i = i + 1;
        }
        None
    }

    /// Records one observation of model `m` with tool `t`.
    fn record_pair(&mut self, m: &String, t: &String)
        requires
            old(self).wf(),
            old(self).total_view() < u64::MAX,
        ensures
            final(self).wf(),
            final(self).counts_view() == record_one(old(self).counts_view(), m@, t@),
            final(self).total_view() == old(self).total_view() + 1,
            final(self).top_view() == old(self).top_view(),
    {
        match self.find_pair(m, t) {
            Some(i) => {
                let ghost before = self.pair_counts@;
                let p = ColocationPair {
                    model_id: m.clone(),
                    tool_id: t.clone(),
                    count: self.pair_counts[i].count + 1,
                };
                self.pair_counts.set(i, p);
                proof {
                    assert(pairs_view(self.pair_counts@) =~= pairs_view(before).update(i as int, (m@, t@, p.count)));
                }
            },
            None => {
                let ghost before = self.pair_counts@;
                self.pair_counts.push(ColocationPair { model_id: m.clone(), tool_id: t.clone(), count: 1 });
                proof {
                    assert(pairs_view(self.pair_counts@) =~= pairs_view(before).push((m@, t@, 1u64)));
                }
            },
        }
        self.total_observations = self.total_observations + 1;
    }

    /// Records a completed step: one observation of its model with each of
    /// its tools. A step without a model records nothing.
    pub fn record_step_completion(&mut self, model_used: Option<&str>, tools_used: &Vec<String>)
        requires
            old(self).wf(),
            old(self).total_view() + tools_used@.len() <= u64::MAX,
        ensures
            final(self).wf(),
            final(self).top_view() == old(self).top_view(),
            match model_used {
                Some(m) => final(self).counts_view() == record_all(old(self).counts_view(), m@, texts(tools_used@))
                    && final(self).total_view() == old(self).total_view() + tools_used@.len(),
                None => final(self).counts_view() == old(self).counts_view() && final(self).total_view()
                    == old(self).total_view(),
            },
    {
        let model = match model_used {
            Some(m) => owned(m),
            None => {
                return;
            },
        };
        let ghost tools = texts(tools_used@);
        let mut k: usize = 0;
        while k < tools_used.len()
            invariant
                self.wf(),
                k <= tools_used@.len(),
                tools == texts(tools_used@),
                model_used matches Some(m) && model@ == m@,
                self.counts_view() == record_all(old(self).counts_view(), model@, tools.take(k as int)),
                self.total_view() == old(self).total_view() + k,
                old(self).total_view() + tools_used@.len() <= u64::MAX,
                self.top_view() == old(self).top_view(),
            decreases tools_used.len() - k,
        {
            assert(tools.take(k + 1).drop_last() =~= tools.take(k as int));
            assert(tools.take(k + 1).last() == tools_used@[k as int]@);
            self.record_pair(&model, &tools_used[k]);
            k = k + 1;
        }
        assert(tools.take(k as int) =~= tools);
    }

    /// Copies a list of pairs.
    fn copy_pairs(v: &Vec<ColocationPair>) -> (r: Vec<ColocationPair>)
        ensures
            pairs_view(r@) == pairs_view(v@),
    {
        let mut r: Vec<ColocationPair> = Vec::new();
        let mut i: usize = 0;
        while i < v.len()
            invariant
                i <= v@.len(),
                pairs_view(r@) == pairs_view(v@).take(i as int),
            decreases v.len() - i,
        {
            let p = ColocationPair { model_id: v[i].model_id.clone(), tool_id: v[i].tool_id.clone(), count: v[i].count };
            let ghost before = r@;
            r.push(p);
            assert(pairs_view(r@) =~= pairs_view(before).push(pair_view(p)));
            assert(pairs_view(v@).take(i + 1) =~= pairs_view(v@).take(i as int).push(pair_view(v@[i as int])));
            i = i + 1;
        }
        assert(pairs_view(v@).take(i as int) =~= pairs_view(v@));
        r
    }

    /// The `limit` most frequent pairs, by count, highest first (pairs with
    /// equal counts in order of first observation); also kept as the top
    /// pairs.
    pub fn compute_top_pairs(&mut self, limit: usize) -> (r: Vec<ColocationPair>)
        requires
            old(self).wf(),
        ensures
            final(self).wf(),
            final(self).counts_view() == old(self).counts_view(),
            final(self).total_view() == old(self).total_view(),
            old(self).total_view() == 0 ==> pairs_view(r@) == Seq::<PairView>::empty(),
            old(self).total_view() != 0 ==> pairs_view(r@) == sort_by_count(old(self).counts_view()).take(
                if limit < old(self).counts_view().len() {
                    limit as int
                } else {
                    old(self).counts_view().len() as int
                },
            ),
            final(self).top_view() == pairs_view(r@),
    {
        if self.total_observations == 0 {
            self.top_pairs = Vec::new();
            assert(pairs_view(self.top_pairs@) =~= Seq::<PairView>::empty());
            return Self::copy_pairs(&self.top_pairs);
        }
        let ghost counts = self.counts_view();
        let mut sorted: Vec<ColocationPair> = Vec::new();
        let mut i: usize = 0;
        while i < self.pair_counts.len()
            invariant
                i <= self.pair_counts@.len(),
                counts == self.counts_view(),
                counts.len() == self.pair_counts@.len(),
                pairs_view(sorted@) == sort_by_count(counts.take(i as int)),
            decreases self.pair_counts.len() - i,
        {
            let x = &self.pair_counts[i];
            let ghost xv = pair_view(*x);
            assert(counts[i as int] == xv);
            let ghost s = pairs_view(sorted@);
            let mut p: usize = 0;
            while p < sorted.len() && sorted[p].count >= x.count
                invariant
                    p <= sorted@.len(),
                    s == pairs_view(sorted@),
                    xv == pair_view(*x),
                    forall|j: int| 0 <= j < p ==> (#[trigger] s[j]).2 >= xv.2,
                decreases sorted.len() - p,
            {
                assert(s[p as int] == pair_view(sorted@[p as int]));
                p = p + 1;
            }
            proof {
                if p < s.len() {
                    assert(s[p as int] == pair_view(sorted@[p as int]));
                }
                lemma_insert_by_count(s, xv, p as int);
                assert(counts.take(i + 1).drop_last() =~= counts.take(i as int));
                assert(counts.take(i + 1).last() == xv);
            }
            let ghost before = sorted@;
            let copy = ColocationPair { model_id: x.model_id.clone(), tool_id: x.tool_id.clone(), count: x.count };
            sorted.insert(p, copy);
            assert(pairs_view(sorted@) =~= s.take(p as int) + seq![xv] + s.skip(p as int)) by {
                assert(sorted@ =~= before.take(p as int).push(copy) + before.skip(p as int));
            }
            i = i + 1;
        }
        assert(counts.take(i as int) =~= counts);
        proof {
            law_sort_by_count(counts);
        }
        let n = if limit < sorted.len() {
            limit
        } else {
            sorted.len()
        };
        sorted.truncate(n);
        assert(pairs_view(sorted@) =~= sort_by_count(counts).take(n as int));
        self.top_pairs = Self::copy_pairs(&sorted);
        sorted
    }

    /// The tools paired with `model_id` among the top pairs, in order.
    pub fn frequently_paired_tools(&self, model_id: &str) -> (r: Vec<String>)
        ensures
            texts(r@) == tools_paired_with(self.top_view(), model_id@),
    {
        let ghost top = self.top_view();
        let m = owned(model_id);
        let mut r: Vec<String> = Vec::new();
        let mut i: usize = 0;
        while i < self.top_pairs.len()
            invariant
                i <= self.top_pairs@.len(),
                top == self.top_view(),
                top.len() == self.top_pairs@.len(),
                m@ == model_id@,
                texts(r@) == tools_paired_with(top.take(i as int), model_id@),
            decreases self.top_pairs.len() - i,
        {
            assert(top.take(i + 1).drop_last() =~= top.take(i as int));
            assert(top.take(i + 1).last() == pair_view(self.top_pairs@[i as int]));
            let p = &self.top_pairs[i];
            if p.model_id == m {
                let ghost before = r@;
                r.push(p.tool_id.clone());
                assert(texts(r@) =~= texts(before).push(p.tool_id@));
            }
            i = i + 1;
        }
        assert(top.take(i as int) =~= top);
        r
    }

    /// Whether a node with `node_tools` earns the co-location bonus for
    /// `model_id`: it holds a tool that the top pairs pair with the model.
    pub fn qualifies_for_colocation_bonus(&self, model_id: &str, node_tools: &Vec<String>) -> (b: bool)
        ensures
            b == exists|i: int, j: int|
                0 <= i < tools_paired_with(self.top_view(), model_id@).len() && 0 <= j < node_tools@.len()
                    && #[trigger] tools_paired_with(self.top_view(), model_id@)[i] == #[trigger] node_tools@[j]@,
    {
        let paired = self.frequently_paired_tools(model_id);
        let ghost pv = texts(paired@);
        let mut i: usize = 0;
        while i < paired.len()
            invariant
                i <= paired@.len(),
                pv == texts(paired@),
                pv == tools_paired_with(self.top_view(), model_id@),
                forall|a: int, j: int| 0 <= a < i && 0 <= j < node_tools@.len() ==> #[trigger] pv[a] != #[trigger] node_tools@[j]@,
            decreases paired.len() - i,
        {
            let mut j: usize = 0;
            while j < node_tools.len()
                invariant
                    i < paired@.len(),
                    j <= node_tools@.len(),
                    pv == texts(paired@),
                    pv == tools_paired_with(self.top_view(), model_id@),
                    forall|b: int| 0 <= b < j ==> pv[i as int] != #[trigger] node_tools@[b]@,
                decreases node_tools.len() - j,
            {
                if paired[i] == node_tools[j] {
                    assert(pv[i as int] == node_tools@[j as int]@);
                    return true;
                }
                j = j + 1;
            }
            i = i + 1;
        }
        false
    }

    /// Clears all counts, observations and top pairs.
    pub fn reset(&mut self)
        ensures
            final(self).wf(),
            final(self).counts_view() == Seq::<PairView>::empty(),
            final(self).total_view() == 0,
            final(self).top_view() == Seq::<PairView>::empty(),
    {
        self.pair_counts = Vec::new();
        self.total_observations = 0;
        self.top_pairs = Vec::new();
        assert(pairs_view(self.pair_counts@) =~= Seq::<PairView>::empty());
        assert(pairs_view(self.top_pairs@) =~= Seq::<PairView>::empty());
    }

    /// Number of observations recorded.
    pub fn total_observations(&self) -> (n: u64)
        ensures
            n == self.total_view(),
    {
        self.total_observations
    }

    /// The top pairs last computed.
    pub fn top_pairs(&self) -> (r: &Vec<ColocationPair>)
        ensures
            pairs_view(r@) == self.top_view(),
    {
        &self.top_pairs
    }

    /// The recorded pair counts, in order of first observation.
    pub fn pair_counts(&self) -> (r: &Vec<ColocationPair>)
        ensures
            pairs_view(r@) == self.counts_view(),
    {
        &self.pair_counts
    }
}

} // verus!
