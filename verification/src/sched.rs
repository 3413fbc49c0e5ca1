//! The dependency scheduler: a mutable tree mapping each `(name,
//! version)` node to the set of prerequisites it still waits on.  A node
//! is ready when that set is empty; finishing a node removes it from the
//! tree and from every other node's set.
//!
//! Ready nodes are served in stored entry order, so with entries loaded
//! in lexicographic order the earliest ready node is the lexicographically
//! first — any deterministic policy would do, but this one is the
//! documented choice.

use vstd::prelude::*;
use crate::strutil::{str_eq, chars_of, string_of};

verus! {

/// A `(name, version)` pair at the spec level.
pub type IdV = (Seq<char>, Seq<char>);

/// The tree at the spec level: entries in stored order.
pub type TreeV = Seq<(IdV, Seq<IdV>)>;

pub struct DepTree {
    pub entries: Vec<((String, String), Vec<(String, String)>)>,
}

/// The keys of the entries, in order.
pub open spec fn keys_of(s: TreeV) -> Seq<IdV> {
    s.map_values(|e: (IdV, Seq<IdV>)| e.0)
}

/// Entry keys are pairwise distinct.
pub open spec fn distinct_keys(s: TreeV) -> bool {
    forall|i: int, j: int| 0 <= i < j < s.len() ==> (#[trigger] s[i]).0 != (#[trigger] s[j]).0
}

/// Every dependency names some entry of the tree.
pub open spec fn closed(s: TreeV) -> bool {
    forall|i: int, k: int|
        0 <= i < s.len() && 0 <= k < s[i].1.len() ==> keys_of(s).contains(#[trigger] s[i].1[k])
}

/// A rank certificate: every dependency ranks strictly below the node
/// that declares it.
pub open spec fn rank_ok(s: TreeV, rank: spec_fn(IdV) -> int) -> bool {
    forall|i: int, k: int|
        0 <= i < s.len() && 0 <= k < s[i].1.len() ==> rank(#[trigger] s[i].1[k]) < rank(s[i].0)
}

/// A dependency graph is acyclic when some rank certificate exists.
pub open spec fn acyclic(s: TreeV) -> bool {
    exists|rank: spec_fn(IdV) -> int| rank_ok(s, rank)
}

/// Selects the entries whose prerequisite set is empty.
pub open spec fn is_ready_entry() -> spec_fn((IdV, Seq<IdV>)) -> bool {
    |e: (IdV, Seq<IdV>)| e.1.len() == 0
}

/// The ready nodes, in entry order.
pub open spec fn ready_ids(s: TreeV) -> Seq<IdV> {
    s.filter(is_ready_entry()).map_values(|e: (IdV, Seq<IdV>)| e.0)
}

/// Keeps the entries whose key is not `d`.
pub open spec fn keeps(d: IdV) -> spec_fn((IdV, Seq<IdV>)) -> bool {
    |e: (IdV, Seq<IdV>)| e.0 != d
}

/// Keeps the dependencies that are not `d`.
pub open spec fn not_id(d: IdV) -> spec_fn(IdV) -> bool {
    |x: IdV| x != d
}

/// What finishing node `d` leaves behind: the entry keyed `d` goes, and
/// `d` disappears from every remaining dependency list.
pub open spec fn finish_view(s: TreeV, d: IdV) -> TreeV {
    s.filter(keeps(d)).map_values(|e: (IdV, Seq<IdV>)| (e.0, e.1.filter(not_id(d))))
}

impl DepTree {
    /// Entry keys are pairwise distinct.
    pub open spec fn wf(&self) -> bool {
        distinct_keys(self@)
    }

    pub open spec fn view(&self) -> TreeV {
        self.entries.deep_view()
    }

    pub fn new() -> (r: DepTree)
        ensures
            r.wf(),
            r@ == Seq::<(IdV, Seq<IdV>)>::empty(),
    {
        let r = DepTree { entries: Vec::new() };
        proof {
            assert(r@ =~= Seq::<(IdV, Seq<IdV>)>::empty());
        }
        r
    }

    pub fn len(&self) -> (r: usize)
        ensures
            r == self@.len(),
    {
        self.entries.len()
    }

    /// Add a node with its prerequisites.  The key must be new.
    pub fn add_node(&mut self, id: (String, String), deps: Vec<(String, String)>)
        requires
            old(self).wf(),
            forall|i: int|
                0 <= i < old(self)@.len() ==> (#[trigger] old(self)@[i]).0 != (id.0@, id.1@),
        ensures
            final(self).wf(),
            final(self)@ == old(self)@.push(((id.0@, id.1@), deps.deep_view())),
    {
        let ghost before = self@;
        proof {
            assert(before == self.entries.deep_view());
        }
        self.entries.push((id, deps));
        proof {
            assert(self@ =~= before.push(((id.0@, id.1@), deps.deep_view())));
        }
    }

    /// Every node whose prerequisite set is empty, in entry order.
    pub fn ready_to_build(&self) -> (r: Vec<(String, String)>)
        ensures
            r.deep_view() == ready_ids(self@),
    {
        let ghost sv = self@;
        let mut r: Vec<(String, String)> = Vec::new();
        let mut i: usize = 0;
        proof {
            reveal(Seq::filter);
            assert(r.deep_view() =~= ready_ids(sv.take(0)));
        }
        while i < self.entries.len()
            invariant
                sv == self@,
                sv.len() == self.entries@.len(),
                i <= sv.len(),
                r.deep_view() == ready_ids(sv.take(i as int)),
            decreases sv.len() - i,
        {
            proof {
                reveal(Seq::filter);
                assert(sv.take(i + 1).drop_last() =~= sv.take(i as int));
                assert(sv.take(i + 1).last() == sv[i as int]);
                assert(sv[i as int] == self.entries@[i as int].deep_view());
            }
            if self.entries[i].1.len() == 0 {
                let ghost rb = r.deep_view();
                let name = self.entries[i].0.0.clone();
                let version = self.entries[i].0.1.clone();
                r.push((name, version));
                proof {
                    reveal(Seq::filter);
                    assert(r.deep_view() =~= rb.push(sv[i as int].0));
                    assert(sv.take(i + 1).filter(is_ready_entry()) =~= sv.take(i as int).filter(
                        is_ready_entry(),
                    ).push(sv[i as int]));
                    assert(r.deep_view() =~= ready_ids(sv.take(i + 1)));
                }
            } else {
                proof {
                    reveal(Seq::filter);
                    assert(sv.take(i + 1).filter(is_ready_entry()) =~= sv.take(i as int).filter(
                        is_ready_entry(),
                    ));
                    assert(r.deep_view() =~= ready_ids(sv.take(i + 1)));
                }
            }
            i = i + 1;
        }
        proof {
            assert(sv.take(sv.len() as int) =~= sv);
        }
        r
    }

    /// The first node, in entry order, whose prerequisite set is empty.
    pub fn next_ready(&self) -> (r: Option<(String, String)>)
        ensures
            match r {
                Some(id) => exists|i: int|
                    {
                        &&& 0 <= i < self@.len()
                        &&& (#[trigger] self@[i]).0 == (id.0@, id.1@)
                        &&& self@[i].1.len() == 0
                        &&& forall|j: int| 0 <= j < i ==> (#[trigger] self@[j]).1.len() > 0
                    },
                None => forall|i: int| 0 <= i < self@.len() ==> (#[trigger] self@[i]).1.len() > 0,
            },
    {
        let mut i: usize = 0;
        while i < self.entries.len()
            invariant
                i <= self@.len(),
                self@.len() == self.entries@.len(),
                forall|j: int| 0 <= j < i ==> (#[trigger] self@[j]).1.len() > 0,
            decreases self@.len() - i,
        {
            proof {
                assert(self@[i as int] == self.entries@[i as int].deep_view());
            }
            if self.entries[i].1.len() == 0 {
                let name = self.entries[i].0.0.clone();
                let version = self.entries[i].0.1.clone();
                return Some((name, version));
            }
            i = i + 1;
        }
        None
    }

    /// Remove a finished node and strike it from every prerequisite set.
    pub fn finish_dep(&mut self, dep: &(String, String))
        requires
            old(self).wf(),
        ensures
            final(self).wf(),
            final(self)@ == finish_view(old(self)@, (dep.0@, dep.1@)),
    {
        let ghost d: IdV = (dep.0@, dep.1@);
        let ghost before = self@;
        let mut out: Vec<((String, String), Vec<(String, String)>)> = Vec::new();
        let mut i: usize = 0;
        while i < self.entries.len()
            invariant
                self@ == before,
                self@.len() == self.entries@.len(),
                i <= self@.len(),
                d == (dep.0@, dep.1@),
                out.deep_view() == finish_view(before.take(i as int), d),
            decreases self@.len() - i,
        {
            proof {
                assert(before.take(i + 1).drop_last() =~= before.take(i as int));
                assert(before.take(i + 1).last() == before[i as int]);
                assert(before[i as int] == self.entries@[i as int].deep_view());
            }
            let keep = !(str_eq(self.entries[i].0.0.as_str(), dep.0.as_str()) && str_eq(
                self.entries[i].0.1.as_str(),
                dep.1.as_str(),
            ));
            if keep {
                let ghost ev: Seq<IdV> = before[i as int].1;
                let mut deps_out: Vec<(String, String)> = Vec::new();
                let dn = self.entries[i].1.len();
                let mut k: usize = 0;
                while k < dn
                    invariant
                        self@ == before,
                        self@.len() == self.entries@.len(),
                        i < self@.len(),
                        ev == before[i as int].1,
                        dn == ev.len(),
                        k <= dn,
                        d == (dep.0@, dep.1@),
                        deps_out.deep_view() == ev.take(k as int).filter(not_id(d)),
                    decreases dn - k,
                {
                    proof {
                        reveal(Seq::filter);
                        assert(before[i as int] == self.entries@[i as int].deep_view());
                        assert(ev.take(k + 1).drop_last() =~= ev.take(k as int));
                        assert(ev.take(k + 1).last() == ev[k as int]);
                        assert(ev[k as int] == self.entries@[i as int].1@[k as int].deep_view());
                    }
                    let is_d = str_eq(self.entries[i].1[k].0.as_str(), dep.0.as_str()) && str_eq(
                        self.entries[i].1[k].1.as_str(),
                        dep.1.as_str(),
                    );
                    if !is_d {
                        deps_out.push(
                            (self.entries[i].1[k].0.clone(), self.entries[i].1[k].1.clone()),
                        );
                        proof {
                            reveal(Seq::filter);
                            assert(deps_out.deep_view()
                                =~= ev.take(k + 1).filter(not_id(d)));
                        }
                    } else {
                        proof {
                            reveal(Seq::filter);
                            assert(deps_out.deep_view()
                                =~= ev.take(k + 1).filter(not_id(d)));
                        }
                    }
                    k = k + 1;
                }
                proof {
                    assert(ev.take(ev.len() as int) =~= ev);
                }
                out.push(
                    ((self.entries[i].0.0.clone(), self.entries[i].0.1.clone()), deps_out),
                );
                proof {
                    reveal(Seq::filter);
                    let p = before.take(i as int);
                    let q = before.take(i + 1);
                    assert(q.filter(keeps(d)) =~= p.filter(keeps(d)).push(before[i as int]));
                    assert(out.deep_view().last()
                        == (before[i as int].0, before[i as int].1.filter(not_id(d))));
                    assert(out.deep_view().drop_last() =~= finish_view(p, d));
                    assert(finish_view(q, d).len() == out.deep_view().len());
                    assert forall|m: int|
                        0 <= m < out.deep_view().len() implies out.deep_view()[m]
                        == #[trigger] finish_view(q, d)[m] by {
                        if m < out.deep_view().len() - 1 {
                            assert(out.deep_view()[m] == out.deep_view().drop_last()[m]);
                            assert(finish_view(q, d)[m] == finish_view(p, d)[m]);
                        } else {
                            assert(out.deep_view()[m] == out.deep_view().last());
                            assert(finish_view(q, d)[m]
                                == (before[i as int].0, before[i as int].1.filter(not_id(d))));
                        }
                    }
                    assert(out.deep_view() =~= finish_view(q, d));
                }
            } else {
                proof {
                    reveal(Seq::filter);
                    assert(before[i as int].0 == d);
                    let p = before.take(i as int);
                    let q = before.take(i + 1);
                    assert(q.filter(keeps(d)) =~= p.filter(keeps(d)));
                    assert(out.deep_view() == finish_view(q, d));
                }
            }
            i = i + 1;
        }
        proof {
            assert(before.take(before.len() as int) =~= before);
        }
        self.entries = out;
        proof {
            lemma_finish_wf(before, d);
        }
    }
}

/// Finishing keeps keys distinct, and every surviving entry stems from
/// the old tree with its dependency list thinned.
proof fn lemma_finish_wf(s: TreeV, d: IdV)
    requires
        distinct_keys(s),
    ensures
        distinct_keys(finish_view(s, d)),
{
    let kept = s.filter(keeps(d));
    lemma_filter_keeps_distinct(s, d);
    assert forall|i: int, j: int|
        0 <= i < j < finish_view(s, d).len() implies (#[trigger] finish_view(s, d)[i]).0
        != (#[trigger] finish_view(s, d)[j]).0 by {
        assert(finish_view(s, d)[i].0 == kept[i].0);
        assert(finish_view(s, d)[j].0 == kept[j].0);
    }
}

/// Filtering a distinct-keyed sequence keeps the keys distinct.
proof fn lemma_filter_keeps_distinct(s: TreeV, d: IdV)
    requires
        distinct_keys(s),
    ensures
        distinct_keys(s.filter(keeps(d))),
    decreases s.len(),
{
    if s.len() > 0 {
        reveal(Seq::filter);
        let p = keeps(d);
        let pre = s.drop_last();
        assert(distinct_keys(pre)) by {
            assert(forall|i: int| 0 <= i < pre.len() ==> pre[i] == s[i]);
        }
        lemma_filter_keeps_distinct(pre, d);
        s.filter_lemma(p);
        pre.filter_lemma(p);
        if p(s.last()) {
            assert(s.filter(p) =~= pre.filter(p).push(s.last()));
            assert forall|i: int, j: int|
                0 <= i < j < s.filter(p).len() implies (#[trigger] s.filter(p)[i]).0
                != (#[trigger] s.filter(p)[j]).0 by {
                if j < s.filter(p).len() - 1 {
                } else {
                    let fi = s.filter(p)[i];
                    assert(pre.filter(p).contains(fi)) by {
                        assert(pre.filter(p)[i] == fi);
                    }
                    pre.lemma_filter_contains_rev(p, fi);
                    let w = choose|w: int| 0 <= w < pre.len() && pre[w] == fi;
                    assert(pre[w] == s[w]);
                    assert(s.filter(p)[j] == s.last());
                    assert(s[w].0 != s.last().0);
                }
            }
        } else {
            assert(s.filter(p) =~= pre.filter(p));
        }
    }
}

/// Progress: a nonempty, closed, acyclic tree has a ready node.
pub proof fn lemma_ready_exists(s: TreeV)
    requires
        s.len() > 0,
        closed(s),
        acyclic(s),
    ensures
        exists|i: int| 0 <= i < s.len() && (#[trigger] s[i]).1.len() == 0,
{
    let rank = choose|rank: spec_fn(IdV) -> int| rank_ok(s, rank);
    let m = lemma_min_rank(s, rank);
    if s[m].1.len() > 0 {
        let dep = s[m].1[0];
        assert(keys_of(s).contains(dep));
        let j = choose|j: int| 0 <= j < keys_of(s).len() && keys_of(s)[j] == dep;
        assert(s[j].0 == dep);
        assert(rank(dep) < rank(s[m].0));
        assert(rank(s[m].0) <= rank(s[j].0));
        assert(false);
    }
}

/// Some entry's key has minimal rank.
proof fn lemma_min_rank(s: TreeV, rank: spec_fn(IdV) -> int) -> (m: int)
    requires
        s.len() > 0,
    ensures
        0 <= m < s.len(),
        forall|j: int| 0 <= j < s.len() ==> rank((#[trigger] s[m]).0) <= rank((#[trigger] s[j]).0),
    decreases s.len(),
{
    if s.len() == 1 {
        0
    } else {
        let pre = s.drop_last();
        let m0 = lemma_min_rank(pre, rank);
        assert(forall|j: int| 0 <= j < pre.len() ==> pre[j] == s[j]);
        if rank(s.last().0) < rank(s[m0].0) {
            s.len() - 1
        } else {
            m0
        }
    }
}

/// Finishing any node preserves closure and the rank certificate, and
/// removes exactly the entries keyed by that node.
pub proof fn lemma_finish_preserves(s: TreeV, d: IdV, rank: spec_fn(IdV) -> int)
    requires
        closed(s),
        rank_ok(s, rank),
    ensures
        closed(finish_view(s, d)),
        rank_ok(finish_view(s, d), rank),
{
    let p = keeps(d);
    let px = not_id(d);
    let kept = s.filter(p);
    let t = finish_view(s, d);
    s.filter_lemma(p);
    assert forall|i: int, k: int|
        0 <= i < t.len() && 0 <= k < t[i].1.len() implies rank(#[trigger] t[i].1[k]) < rank(
        t[i].0,
    ) && keys_of(t).contains(t[i].1[k]) by {
        let e = kept[i];
        assert(t[i] == (e.0, e.1.filter(px)));
        e.1.filter_lemma(px);
        let x = t[i].1[k];
        assert(e.1.filter(px).contains(x)) by {
            assert(e.1.filter(px)[k] == x);
        }
        e.1.lemma_filter_contains_rev(px, x);
        let w = choose|w: int| 0 <= w < e.1.len() && e.1[w] == x;
        assert(s.filter(p).contains(e)) by {
            assert(s.filter(p)[i] == e);
        }
        s.lemma_filter_contains_rev(p, e);
        let u = choose|u: int| 0 <= u < s.len() && s[u] == e;
        assert(rank(s[u].1[w]) < rank(s[u].0));
        assert(keys_of(s).contains(x));
        let v = choose|v: int| 0 <= v < keys_of(s).len() && keys_of(s)[v] == x;
        assert(s[v].0 == x);
        assert(x != d);
        assert(p(s[v]));
        assert(s.filter(p).contains(s[v]));
        let q = choose|q: int| 0 <= q < s.filter(p).len() && s.filter(p)[q] == s[v];
        assert(t[q].0 == x);
        assert(keys_of(t)[q] == x);
        assert(keys_of(t).contains(x));
    }
}

/// Finishing strikes exactly the finished key from the key set.
pub proof fn lemma_finish_keys(s: TreeV, d: IdV)
    requires
        distinct_keys(s),
    ensures
        forall|x: IdV|
            keys_of(finish_view(s, d)).contains(x) <==> (x != d && keys_of(s).contains(x)),
{
    reveal(Seq::filter);
    let p = keeps(d);
    let kept = s.filter(p);
    let t = finish_view(s, d);
    s.filter_lemma(p);
    assert forall|x: IdV| keys_of(t).contains(x) implies (x != d && keys_of(s).contains(x)) by {
        let w = choose|w: int| 0 <= w < keys_of(t).len() && keys_of(t)[w] == x;
        assert(t[w].0 == x);
        assert(t[w] == (kept[w].0, kept[w].1.filter(not_id(d))));
        assert(kept.contains(kept[w])) by {
            assert(kept[w] == kept[w]);
        }
        s.lemma_filter_contains_rev(p, kept[w]);
        let u = choose|u: int| 0 <= u < s.len() && s[u] == kept[w];
        assert(keys_of(s)[u] == x);
        assert(keys_of(s).contains(x));
        assert(p(kept[w]));
    }
    assert forall|x: IdV| (x != d && keys_of(s).contains(x)) implies keys_of(t).contains(x) by {
        let w = choose|w: int| 0 <= w < keys_of(s).len() && keys_of(s)[w] == x;
        assert(s[w].0 == x);
        assert(p(s[w]));
        assert(kept.contains(s[w]));
        let u = choose|u: int| 0 <= u < kept.len() && kept[u] == s[w];
        assert(t[u].0 == x);
        assert(keys_of(t)[u] == x);
    }
}

/// Finishing a present key shrinks the tree by exactly one entry.
pub proof fn lemma_finish_len(s: TreeV, d: IdV)
    requires
        distinct_keys(s),
        keys_of(s).contains(d),
    ensures
        finish_view(s, d).len() == s.len() - 1,
    decreases s.len(),
{
    reveal(Seq::filter);
    let p = keeps(d);
    if s.len() > 0 {
        let pre = s.drop_last();
        assert(distinct_keys(pre)) by {
            assert(forall|i: int| 0 <= i < pre.len() ==> pre[i] == s[i]);
        }
        if s.last().0 == d {
            assert(forall|i: int| 0 <= i < pre.len() ==> (#[trigger] pre[i]).0 != d) by {
                assert(forall|i: int| 0 <= i < pre.len() ==> pre[i] == s[i]);
            }
            lemma_filter_all_kept(pre, d);
            assert(s.filter(p) =~= pre.filter(p));
        } else {
            assert(keys_of(pre).contains(d)) by {
                let w = choose|w: int| 0 <= w < keys_of(s).len() && keys_of(s)[w] == d;
                assert(s[w].0 == d);
                assert(w < pre.len());
                assert(keys_of(pre)[w] == d);
            }
            lemma_finish_len(pre, d);
            assert(s.filter(p) =~= pre.filter(p).push(s.last()));
        }
    }
}

/// A tree none of whose keys is `d` survives the filter whole.
proof fn lemma_filter_all_kept(s: TreeV, d: IdV)
    requires
        forall|i: int| 0 <= i < s.len() ==> (#[trigger] s[i]).0 != d,
    ensures
        s.filter(keeps(d)) == s,
    decreases s.len(),
{
    reveal(Seq::filter);
    if s.len() > 0 {
        let pre = s.drop_last();
        assert(forall|i: int| 0 <= i < pre.len() ==> (#[trigger] pre[i]).0 != d) by {
            assert(forall|i: int| 0 <= i < pre.len() ==> pre[i] == s[i]);
        }
        lemma_filter_all_kept(pre, d);
        assert(s.filter(keeps(d)) =~= pre.push(s.last()));
        assert(pre.push(s.last()) =~= s);
    }
}

impl DepTree {
    /// Finish every node whose prerequisites are met, repeatedly, as
    /// the coordinator does when each considered node is served from
    /// the cache.  Returns the finished nodes in the order they were
    /// picked: each old node is finished at most once, and over a
    /// closed, acyclic tree every node is finished — a second run
    /// against a full cache dispatches nothing and leaves nothing
    /// remaining.
    pub fn drain_ready(&mut self) -> (r: Vec<(String, String)>)
        requires
            old(self).wf(),
        ensures
            final(self).wf(),
            forall|i: int|
                0 <= i < final(self)@.len() ==> (#[trigger] final(self)@[i]).1.len() > 0,
            r.deep_view().no_duplicates(),
            forall|x: IdV|
                keys_of(final(self)@).contains(x) <==> (keys_of(old(self)@).contains(x)
                    && !r.deep_view().contains(x)),
            forall|x: IdV| r.deep_view().contains(x) ==> keys_of(old(self)@).contains(x),
            closed(old(self)@) && acyclic(old(self)@) ==> final(self)@.len() == 0,
    {
        let ghost orig = self@;
        let ghost rank0 = choose|rank: spec_fn(IdV) -> int| rank_ok(orig, rank);
        let mut r: Vec<(String, String)> = Vec::new();
        proof {
            assert(r.deep_view() =~= Seq::<IdV>::empty());
        }
        loop
            invariant
                orig == old(self)@,
                self.wf(),
                r.deep_view().no_duplicates(),
                forall|x: IdV|
                    keys_of(self@).contains(x) <==> (keys_of(orig).contains(x)
                        && !r.deep_view().contains(x)),
                forall|x: IdV| r.deep_view().contains(x) ==> keys_of(orig).contains(x),
                closed(orig) && acyclic(orig) ==> closed(self@) && rank_ok(self@, rank0),
            decreases self@.len(),
        {
            let next = self.next_ready();
            match next {
                None => {
                    proof {
                        if closed(orig) && acyclic(orig) && self@.len() > 0 {
                            lemma_ready_exists(self@);
                        }
                    }
                    return r;
                },
                Some(id) => {
                    let ghost d: IdV = (id.0@, id.1@);
                    let ghost before = self@;
                    proof {
                        let w = choose|i: int|
                            {
                                &&& 0 <= i < before.len()
                                &&& (#[trigger] before[i]).0 == d
                                &&& before[i].1.len() == 0
                                &&& forall|j: int|
                                    0 <= j < i ==> (#[trigger] before[j]).1.len() > 0
                            };
                        assert(keys_of(before)[w] == d);
                        assert(keys_of(before).contains(d));
                    }
                    self.finish_dep(&id);
                    proof {
                        lemma_finish_keys(before, d);
                        lemma_finish_len(before, d);
                        if closed(orig) && acyclic(orig) {
                            lemma_finish_preserves(before, d, rank0);
                        }
                        assert(!r.deep_view().contains(d)) by {
                            assert(keys_of(before).contains(d));
                        }
                    }
                    let ghost rb = r.deep_view();
                    r.push(id);
                    proof {
                        assert(r.deep_view() =~= rb.push(d));
                        assert forall|x: IdV|
                            #[trigger] r.deep_view().contains(x) <==> (rb.contains(x) || x
                                == d) by {
                            let rv = r.deep_view();
                            if rv.contains(x) {
                                let w = choose|w: int| 0 <= w < rv.len() && rv[w] == x;
                                if w < rb.len() {
                                    assert(rb[w] == x);
                                    assert(rb.contains(x));
                                }
                            }
                            if rb.contains(x) {
                                let w = choose|w: int| 0 <= w < rb.len() && rb[w] == x;
                                assert(rv[w] == x);
                                assert(rv.contains(x));
                            }
                            if x == d {
                                assert(rv[rb.len() as int] == d);
                                assert(rv.contains(x));
                            }
                        }
                        assert(r.deep_view().no_duplicates()) by {
                            assert(rb.no_duplicates());
                            assert(!rb.contains(d));
                            assert(forall|i: int, j: int|
                                0 <= i < j < r.deep_view().len() ==> r.deep_view()[i]
                                    != r.deep_view()[j]) by {
                                assert(forall|i: int|
                                    0 <= i < rb.len() ==> r.deep_view()[i] == rb[i]);
                                assert(forall|i: int|
                                    0 <= i < rb.len() ==> rb.contains(#[trigger] rb[i]));
                            }
                        }
                    }
                },
            }
        }
    }
}

/// Path of a cached artefact: `build-cache/build/<h[0:2]>/<h[2:4]>/<h>`.
pub fn dep_path(hash: &str) -> (r: String)
    requires
        hash@.len() >= 4,
    ensures
        r@ == "build-cache/build/"@ + hash@.take(2) + "/"@ + hash@.subrange(2, 4) + "/"@ + hash@,
{
    let hc = chars_of(hash);
    let mut out = chars_of("build-cache/build/");
    let pre = crate::strutil::copy_range(&hc, 0, 2);
    proof {
        assert(pre@ =~= hash@.take(2));
    }
    crate::strutil::append_chars(&mut out, &pre);
    let sep = chars_of("/");
    crate::strutil::append_chars(&mut out, &sep);
    let mid = crate::strutil::copy_range(&hc, 2, 4);
    crate::strutil::append_chars(&mut out, &mid);
    crate::strutil::append_chars(&mut out, &sep);
    crate::strutil::append_chars(&mut out, &hc);
    string_of(&out)
}

} // verus!
