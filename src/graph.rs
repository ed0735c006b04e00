//! The prerequisite graph: an edge `(dependent, dependency)` says that
//! `dependent` may not be studied before `dependency` is resolved.
use vstd::prelude::*;

use crate::error::CoreError;

verus! {

/// `p` walks along edges of `g`.
pub open spec fn is_path(g: Set<(u64, u64)>, p: Seq<u64>) -> bool {
    &&& p.len() >= 1
    &&& forall|i: int| 0 <= i < p.len() - 1 ==> #[trigger] g.contains((p[i], p[i + 1]))
}

/// `y` can be reached from `x` by following zero or more edges of `g`.
pub open spec fn reaches(g: Set<(u64, u64)>, x: u64, y: u64) -> bool {
    exists|p: Seq<u64>| is_path(g, p) && p[0] == x && p.last() == y
}

/// No edge closes a path back to its own source.
pub open spec fn acyclic(g: Set<(u64, u64)>) -> bool {
    forall|a: u64, b: u64| g.contains((a, b)) ==> !reaches(g, b, a)
}

pub open spec fn edge_set(s: Seq<(u64, u64)>) -> Set<(u64, u64)> {
    Set::new(|e: (u64, u64)| s.contains(e))
}

proof fn lemma_reaches_self(g: Set<(u64, u64)>, x: u64)
    ensures
        reaches(g, x, x),
{
    let p = seq![x];
    assert(is_path(g, p) && p[0] == x && p.last() == x);
}

proof fn lemma_reaches_step(g: Set<(u64, u64)>, x: u64, y: u64, z: u64)
    requires
        reaches(g, x, y),
        g.contains((y, z)),
    ensures
        reaches(g, x, z),
{
    let p = choose|p: Seq<u64>| is_path(g, p) && p[0] == x && p.last() == y;
    let q = p.push(z);
    assert forall|i: int| 0 <= i < q.len() - 1 implies #[trigger] g.contains((q[i], q[i + 1])) by {
        if i < p.len() - 1 {
            assert(g.contains((p[i], p[i + 1])));
        }
    }
    assert(is_path(g, q) && q[0] == x && q.last() == z);
}

proof fn lemma_reaches_trans(g: Set<(u64, u64)>, x: u64, y: u64, z: u64)
    requires
        reaches(g, x, y),
        reaches(g, y, z),
    ensures
        reaches(g, x, z),
{
    let q = choose|q: Seq<u64>| is_path(g, q) && q[0] == y && q.last() == z;
    lemma_trans_prefix(g, x, q, q.len() - 1);
}

proof fn lemma_trans_prefix(g: Set<(u64, u64)>, x: u64, q: Seq<u64>, n: int)
    requires
        is_path(g, q),
        reaches(g, x, q[0]),
        0 <= n < q.len(),
    ensures
        reaches(g, x, q[n]),
    decreases n,
{
    if n > 0 {
        lemma_trans_prefix(g, x, q, n - 1);
        let m = n - 1;
        assert(g.contains((q[m], q[m + 1])));
        lemma_reaches_step(g, x, q[n - 1], q[n]);
    }
}

/// A set that holds `x` and is closed under the edges of `g` holds every node
/// reachable from `x`.
proof fn lemma_closed_holds_reachable(g: Set<(u64, u64)>, s: Set<u64>, x: u64, y: u64)
    requires
        s.contains(x),
        forall|a: u64, b: u64| s.contains(a) && #[trigger] g.contains((a, b)) ==> s.contains(b),
        reaches(g, x, y),
    ensures
        s.contains(y),
{
    let p = choose|p: Seq<u64>| is_path(g, p) && p[0] == x && p.last() == y;
    lemma_closed_prefix(g, s, p, p.len() - 1);
}

proof fn lemma_closed_prefix(g: Set<(u64, u64)>, s: Set<u64>, p: Seq<u64>, n: int)
    requires
        s.contains(p[0]),
        forall|a: u64, b: u64| s.contains(a) && #[trigger] g.contains((a, b)) ==> s.contains(b),
        is_path(g, p),
        0 <= n < p.len(),
    ensures
        s.contains(p[n]),
    decreases n,
{
    if n > 0 {
        lemma_closed_prefix(g, s, p, n - 1);
        let m = n - 1;
        assert(g.contains((p[m], p[m + 1])));
    }
}

/// What is reachable in `g` plus the edge `(d, e)` is reachable in `g`
/// alone, or by way of `d` and then `e`.
proof fn lemma_reaches_with_edge(g: Set<(u64, u64)>, d: u64, e: u64, x: u64, y: u64)
    requires
        reaches(g.insert((d, e)), x, y),
    ensures
        reaches(g, x, y) || (reaches(g, x, d) && reaches(g, e, y)),
{
    let g2 = g.insert((d, e));
    let p = choose|p: Seq<u64>| is_path(g2, p) && p[0] == x && p.last() == y;
    lemma_reaches_with_edge_prefix(g, d, e, p, p.len() - 1);
}

proof fn lemma_reaches_with_edge_prefix(g: Set<(u64, u64)>, d: u64, e: u64, p: Seq<u64>, n: int)
    requires
        is_path(g.insert((d, e)), p),
        0 <= n < p.len(),
    ensures
        reaches(g, p[0], p[n]) || (reaches(g, p[0], d) && reaches(g, e, p[n])),
    decreases n,
{
    if n == 0 {
        lemma_reaches_self(g, p[0]);
    } else {
        lemma_reaches_with_edge_prefix(g, d, e, p, n - 1);
        let m = n - 1;
        assert(g.insert((d, e)).contains((p[m], p[m + 1])));
        if g.contains((p[n - 1], p[n])) {
            if reaches(g, p[0], p[n - 1]) {
                lemma_reaches_step(g, p[0], p[n - 1], p[n]);
            } else {
                lemma_reaches_step(g, e, p[n - 1], p[n]);
            }
        } else {
            assert(p[n - 1] == d && p[n] == e);
            lemma_reaches_self(g, e);
        }
    }
}

/// Adding the edge `(d, e)` to an acyclic graph in which `d` cannot be reached
/// from `e` leaves the graph acyclic.
pub proof fn lemma_insert_keeps_acyclic(g: Set<(u64, u64)>, d: u64, e: u64)
    requires
        acyclic(g),
        !reaches(g, e, d),
    ensures
        acyclic(g.insert((d, e))),
{
    let g2 = g.insert((d, e));
    assert forall|a: u64, b: u64| g2.contains((a, b)) implies !reaches(g2, b, a) by {
        if reaches(g2, b, a) {
            lemma_reaches_with_edge(g, d, e, b, a);
            if g.contains((a, b)) {
                if reaches(g, b, d) && reaches(g, e, a) {
                    lemma_reaches_step(g, e, a, b);
                    lemma_reaches_trans(g, e, b, d);
                }
            } else {
                assert(a == d && b == e);
            }
        }
    }
}

/// An edge `(d, e)` closes a cycle exactly when `d` is reachable from `e`.
pub proof fn lemma_insert_cycle_iff(g: Set<(u64, u64)>, d: u64, e: u64)
    requires
        acyclic(g),
    ensures
        acyclic(g.insert((d, e))) <==> !reaches(g, e, d),
{
    if !reaches(g, e, d) {
        lemma_insert_keeps_acyclic(g, d, e);
    } else {
        let g2 = g.insert((d, e));
        let p = choose|p: Seq<u64>| is_path(g, p) && p[0] == e && p.last() == d;
        assert forall|i: int| 0 <= i < p.len() - 1 implies #[trigger] g2.contains(
            (p[i], p[i + 1]),
        ) by {
            assert(g.contains((p[i], p[i + 1])));
        }
        assert(is_path(g2, p));
        assert(reaches(g2, e, d));
        assert(g2.contains((d, e)));
    }
}

/// Taking edges away from an acyclic graph leaves it acyclic.
pub proof fn lemma_subset_keeps_acyclic(g: Set<(u64, u64)>, h: Set<(u64, u64)>)
    requires
        acyclic(g),
        h.subset_of(g),
    ensures
        acyclic(h),
{
    assert forall|a: u64, b: u64| h.contains((a, b)) implies !reaches(h, b, a) by {
        if reaches(h, b, a) {
            let p = choose|p: Seq<u64>| is_path(h, p) && p[0] == b && p.last() == a;
            assert forall|i: int| 0 <= i < p.len() - 1 implies #[trigger] g.contains(
                (p[i], p[i + 1]),
            ) by {
                assert(h.contains((p[i], p[i + 1])));
            }
            assert(is_path(g, p));
            assert(reaches(g, b, a));
            assert(g.contains((a, b)));
        }
    }
}

/// `v` is `from`, or the target of a marked edge.
spec fn reached(edges: Seq<(u64, u64)>, marks: Seq<bool>, from: u64, v: u64) -> bool {
    v == from || exists|j: int| 0 <= j < marks.len() && #[trigger] marks[j] && edges[j].1 == v
}

spec fn count_unmarked(marks: Seq<bool>) -> nat
    decreases marks.len(),
{
    if marks.len() == 0 {
        0
    } else {
        count_unmarked(marks.drop_last()) + if marks.last() {
            0nat
        } else {
            1nat
        }
    }
}

proof fn lemma_mark_one(marks: Seq<bool>, i: int)
    requires
        0 <= i < marks.len(),
        !marks[i],
    ensures
        count_unmarked(marks.update(i, true)) + 1 == count_unmarked(marks),
    decreases marks.len(),
{
    let m2 = marks.update(i, true);
    if i < marks.len() - 1 {
        assert(m2.drop_last() == marks.drop_last().update(i, true));
        lemma_mark_one(marks.drop_last(), i);
    } else {
        assert(m2.drop_last() == marks.drop_last());
    }
}

fn is_reached(edges: &Vec<(u64, u64)>, marks: &Vec<bool>, from: u64, v: u64) -> (r: bool)
    requires
        marks.len() == edges.len(),
    ensures
        r == reached(edges@, marks@, from, v),
{
    if v == from {
        return true;
    }
    let mut j: usize = 0;
    while j < marks.len()
        invariant
            marks.len() == edges.len(),
            v != from,
            forall|k: int| 0 <= k < j ==> !(#[trigger] marks@[k] && edges@[k].1 == v),
        decreases marks.len() - j,
    {
        if marks[j] && edges[j].1 == v {
            return true;
        }
        j += 1;
    }
    false
}

/// Decides whether `to` can be reached from `from` along `edges`.
fn search(edges: &Vec<(u64, u64)>, from: u64, to: u64) -> (r: bool)
    ensures
        r == reaches(edge_set(edges@), from, to),
{
    let ghost g = edge_set(edges@);
    let n = edges.len();
    let mut marks: Vec<bool> = Vec::new();
    while marks.len() < n
        invariant
            n == edges.len(),
            marks.len() <= n,
            forall|j: int| 0 <= j < marks.len() ==> !marks@[j],
        decreases n - marks.len(),
    {
        marks.push(false);
    }
    loop
        invariant
            n == edges.len(),
            marks.len() == n,
            g == edge_set(edges@),
            forall|j: int| 0 <= j < n && #[trigger] marks@[j] ==> reaches(g, from, edges@[j].1),
        decreases count_unmarked(marks@),
    {
        let ghost start = marks@;
        let mut changed = false;
        let mut i: usize = 0;
        while i < n
            invariant
                n == edges.len(),
                marks.len() == n,
                0 <= i <= n,
                start.len() == n,
                g == edge_set(edges@),
                forall|j: int| 0 <= j < n && #[trigger] marks@[j] ==> reaches(g, from, edges@[j].1),
                count_unmarked(marks@) + (if changed { 1int } else { 0int }) <= count_unmarked(start),
                !changed ==> marks@ == start,
                !changed ==> forall|j: int|
                    0 <= j < i ==> #[trigger] marks@[j] || !reached(edges@, start, from, edges@[j].0),
            decreases n - i,
        {
            if !marks[i] {
                let a = edges[i].0;
                if is_reached(edges, &marks, from, a) {
                    proof {
                        if a != from {
                            let j = choose|j: int|
                                0 <= j < marks.len() && #[trigger] marks@[j] && edges@[j].1 == a;
                            assert(reaches(g, from, a));
                        } else {
                            lemma_reaches_self(g, from);
                        }
                        assert(edges@.contains(edges@[i as int]));
                        assert(edges@[i as int] == (a, edges@[i as int].1));
                        assert(g.contains((a, edges@[i as int].1)));
                        lemma_reaches_step(g, from, a, edges@[i as int].1);
                        lemma_mark_one(marks@, i as int);
                    }
                    marks[i] = true;
                    changed = true;
                }
            }
            i += 1;
        }
        if !changed {
            proof {
                let s = Set::new(|v: u64| reached(edges@, marks@, from, v));
                assert forall|a: u64, b: u64| s.contains(a) && #[trigger] g.contains((a, b)) implies s.contains(b) by {
                    assert(edges@.contains((a, b)));
                    let k = choose|k: int| 0 <= k < edges@.len() && edges@[k] == (a, b);
                    assert(reached(edges@, start, from, edges@[k].0));
                    assert(marks@[k] || !reached(edges@, start, from, edges@[k].0));
                    assert(marks@[k]);
                }
                if reaches(g, from, to) {
                    lemma_closed_holds_reachable(g, s, from, to);
                }
                if reached(edges@, marks@, from, to) && to != from {
                    let j = choose|j: int| 0 <= j < marks.len() && #[trigger] marks@[j] && edges@[j].1 == to;
                    assert(reaches(g, from, to));
                }
                if to == from {
                    lemma_reaches_self(g, from);
                }
            }
            return is_reached(edges, &marks, from, to);
        }
    }
}

/// The prerequisite edges in memory, kept free of cycles.
pub struct DependencyGraph {
    edges: Vec<(u64, u64)>,
}

impl DependencyGraph {
    /// The set of `(dependent, dependency)` pairs.
    pub closed spec fn view(&self) -> Set<(u64, u64)> {
        edge_set(self.edges@)
    }

    pub closed spec fn wf(&self) -> bool {
        acyclic(self.view())
    }

    pub fn new() -> (r: Self)
        ensures
            r.wf(),
            r.view() == Set::<(u64, u64)>::empty(),
    {
        let r = DependencyGraph { edges: Vec::new() };
        assert(r.view() =~= Set::<(u64, u64)>::empty());
        proof {
            lemma_empty_acyclic(r.view());
        }
        r
    }

    /// Records that `dependent` needs `dependency`. Refuses an item that
    /// depends on itself and an edge that would close a cycle; on refusal the
    /// graph is left as it was.
    pub fn add_edge(&mut self, dependent: u64, dependency: u64) -> (r: Result<(), CoreError>)
        requires
            old(self).wf(),
        ensures
            final(self).wf(),
            dependent == dependency ==> r == Err::<(), CoreError>(CoreError::SelfDependency),
            dependent != dependency && reaches(old(self).view(), dependency, dependent) ==> r
                == Err::<(), CoreError>(CoreError::CycleDetected),
            dependent != dependency && !reaches(old(self).view(), dependency, dependent) ==> r
                is Ok,
            r is Ok ==> final(self).view() == old(self).view().insert((dependent, dependency)),
            r is Err ==> final(self).view() == old(self).view(),
    {
        if dependent == dependency {
            proof {
                lemma_reaches_self(self.view(), dependent);
            }
            return Err(CoreError::SelfDependency);
        }
        if search(&self.edges, dependency, dependent) {
            return Err(CoreError::CycleDetected);
        }
        proof {
            lemma_insert_keeps_acyclic(self.view(), dependent, dependency);
        }
        self.edges.push((dependent, dependency));
        proof {
            let ne = (dependent, dependency);
            assert forall|x: (u64, u64)| self.edges@.contains(x) <==> old(self).edges@.contains(x) || x == ne by {
                if self.edges@.contains(x) {
                    let k = choose|k: int| 0 <= k < self.edges@.len() && self.edges@[k] == x;
                    if k < old(self).edges@.len() {
                        assert(old(self).edges@[k] == x);
                    }
                }
                if old(self).edges@.contains(x) {
                    let k = choose|k: int| 0 <= k < old(self).edges@.len() && old(self).edges@[k] == x;
                    assert(self.edges@[k] == x);
                }
                if x == ne {
                    assert(self.edges@[old(self).edges@.len() as int] == x);
                }
            }
        }
        assert(self.view() =~= old(self).view().insert((dependent, dependency)));
        Ok(())
    }

    /// Removes the edge if it is there; does nothing otherwise.
    pub fn remove_edge(&mut self, dependent: u64, dependency: u64)
        requires
            old(self).wf(),
        ensures
            final(self).wf(),
            final(self).view() == old(self).view().remove((dependent, dependency)),
    {
        let ghost old_edges = self.edges@;
        let mut kept: Vec<(u64, u64)> = Vec::new();
        let mut i: usize = 0;
        while i < self.edges.len()
            invariant
                self.edges@ == old_edges,
                0 <= i <= old_edges.len(),
                forall|e: (u64, u64)| kept@.contains(e) <==> (e != (dependent, dependency)
                    && exists|k: int| 0 <= k < i && old_edges[k] == e),
            decreases old_edges.len() - i,
        {
            let e = self.edges[i];
            assert(old_edges[i as int] == e);
            if e.0 != dependent || e.1 != dependency {
                proof {
                    assert forall|x: (u64, u64)| kept@.push(e).contains(x) <==> (x != (
                        dependent,
                        dependency,
                    ) && exists|k: int| 0 <= k < i + 1 && old_edges[k] == x) by {
                        if kept@.push(e).contains(x) && x != e {
                            let j = choose|j: int| 0 <= j < kept@.push(e).len() && kept@.push(e)[j] == x;
                            assert(kept@.contains(x));
                        }
                        if x == e {
                            assert(kept@.push(e)[kept@.len() as int] == x);
                        }
                        if x != e && x != (dependent, dependency) && exists|k: int|
                            0 <= k < i + 1 && old_edges[k] == x {
                            let k = choose|k: int| 0 <= k < i + 1 && old_edges[k] == x;
                            assert(k < i);
                            assert(kept@.contains(x));
                            let j = choose|j: int| 0 <= j < kept@.len() && kept@[j] == x;
                            assert(kept@.push(e)[j] == x);
                        }
                    }
                }
                kept.push(e);
            } else {
                assert forall|x: (u64, u64)| kept@.contains(x) <==> (x != (dependent, dependency)
                    && exists|k: int| 0 <= k < i + 1 && old_edges[k] == x) by {
                    if x != (dependent, dependency) && exists|k: int| 0 <= k < i + 1 && old_edges[k] == x {
                        let k = choose|k: int| 0 <= k < i + 1 && old_edges[k] == x;
                        assert(k < i);
                    }
                }
            }
            i += 1;
        }
        self.edges = kept;
        assert(self.view() =~= old(self).view().remove((dependent, dependency)));
        proof {
            lemma_subset_keeps_acyclic(old(self).view(), self.view());
        }
    }

    /// The direct prerequisites of `item`.
    pub fn dependencies_of(&self, item: u64) -> (r: Vec<u64>)
        ensures
            forall|x: u64| r@.contains(x) <==> self.view().contains((item, x)),
    {
        let mut out: Vec<u64> = Vec::new();
        let mut i: usize = 0;
        while i < self.edges.len()
            invariant
                0 <= i <= self.edges.len(),
                forall|x: u64| out@.contains(x) <==> exists|k: int|
                    0 <= k < i && self.edges@[k] == (item, x),
            decreases self.edges.len() - i,
        {
            let e = self.edges[i];
            if e.0 == item {
                proof {
                    assert forall|x: u64| out@.push(e.1).contains(x) <==> exists|k: int|
                        0 <= k < i + 1 && self.edges@[k] == (item, x) by {
                        if out@.push(e.1).contains(x) && x != e.1 {
                            let j = choose|j: int| 0 <= j < out@.push(e.1).len() && out@.push(e.1)[j] == x;
                            assert(out@.contains(x));
                        }
                        if x == e.1 {
                            assert(out@.push(e.1)[out@.len() as int] == x);
                        }
                        if x != e.1 && exists|k: int| 0 <= k < i + 1 && self.edges@[k] == (item, x) {
                            let k = choose|k: int| 0 <= k < i + 1 && self.edges@[k] == (item, x);
                            assert(k < i);
                            assert(out@.contains(x));
                            let j = choose|j: int| 0 <= j < out@.len() && out@[j] == x;
                            assert(out@.push(e.1)[j] == x);
                        }
                    }
                }
                out.push(e.1);
            } else {
                assert forall|x: u64| out@.contains(x) <==> exists|k: int|
                    0 <= k < i + 1 && self.edges@[k] == (item, x) by {
                    if exists|k: int| 0 <= k < i + 1 && self.edges@[k] == (item, x) {
                        let k = choose|k: int| 0 <= k < i + 1 && self.edges@[k] == (item, x);
                        assert(k < i);
                    }
                }
            }
            i += 1;
        }
        proof {
            assert forall|x: u64| out@.contains(x) <==> self.view().contains((item, x)) by {
                if self.view().contains((item, x)) {
                    let k = choose|k: int| 0 <= k < self.edges@.len() && self.edges@[k] == (item, x);
                }
            }
        }
        out
    }
}

/// A well-formed graph is acyclic.
pub proof fn lemma_wf_acyclic(g: &DependencyGraph)
    requires
        g.wf(),
    ensures
        acyclic(g.view()),
{
}

proof fn lemma_empty_acyclic(g: Set<(u64, u64)>)
    requires
        g == Set::<(u64, u64)>::empty(),
    ensures
        acyclic(g),
{
}

} // verus!
