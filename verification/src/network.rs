//! The layering of the network chart: the whole connected family graph drawn
//! in bands. Persons are ranked by longest path with partners unified (a
//! union's partners share the deeper rank, each child sits one rank below),
//! in at most `persons + 4` rounds so that a malformed cycle stops. On a
//! doubled scale a person of rank `r` sits on layer `2r` and a union on the
//! odd layer just below its partners. Every edge then runs down between
//! adjacent layers: a longer one is split by one dummy node per crossed
//! layer. Each layer is seeded with its persons, then its unions, then its
//! dummies, in the graph's own order. (Crossing reduction and coordinates are
//! computed by the application.)

use vstd::prelude::*;
use crate::walk::{NodeRef, RelEdge, RelativeGraph, UnionNode};

verus! {

/// A node of the layered graph: a person card, a union joiner, or a dummy
/// that only carries a long edge across a layer.
#[derive(Debug, Clone, Copy, PartialEq, Eq, Structural)]
pub enum LRef {
    /// A person.
    Person(NodeRef),
    /// A union.
    Union(NodeRef),
    /// A routing point, numbered in creation order.
    Dummy(u32),
}

/// The layered network chart before ordering sweeps and coordinates.
#[derive(Debug, Clone, PartialEq, Eq)]
pub struct NetworkLayers {
    /// Each person's node and layer, in the graph's person order.
    pub person_layers: Vec<(NodeRef, i32)>,
    /// Each union's node and layer, in the graph's union order.
    pub union_layers: Vec<(NodeRef, i32)>,
    /// The layer of each dummy, by its number.
    pub dummy_layers: Vec<i32>,
    /// Every link, upper node first, in the order the edges made them.
    pub links: Vec<(LRef, LRef)>,
    /// The dummies each long edge was split by, keyed by the edge's two nodes
    /// in the edge's own order.
    pub chains: Vec<((NodeRef, NodeRef), Vec<u32>)>,
    /// Each layer's nodes, left to right: persons, then unions, then dummies.
    pub order: Vec<Vec<LRef>>,
}

/// Person ranks: a rank for every node (`0` where none was set).
pub type Ranks = spec_fn(NodeRef) -> int;

/// The nodes a union links to, in edge order: its partners (`partner`) or
/// its children.
pub open spec fn linked(edges: Seq<RelEdge>, u: NodeRef, partner: bool) -> Seq<NodeRef>
    decreases edges.len(),
{
    if edges.len() == 0 {
        seq![]
    } else {
        linked(edges.drop_last(), u, partner) + match edges.last() {
            RelEdge::Partner { person, union } => if partner && union == u {
                seq![person]
            } else {
                seq![]
            },
            RelEdge::Descent { union, child } => if !partner && union == u {
                seq![child]
            } else {
                seq![]
            },
        }
    }
}

/// The largest rank among `ns` (`0` for none).
pub open spec fn max_rank(r: Ranks, ns: Seq<NodeRef>) -> int
    decreases ns.len(),
{
    if ns.len() == 0 {
        0
    } else {
        let m = max_rank(r, ns.drop_last());
        if r(ns.last()) > m {
            r(ns.last())
        } else {
            m
        }
    }
}

/// The smallest rank among `ns` (`0` for none).
pub open spec fn min_rank(r: Ranks, ns: Seq<NodeRef>) -> int
    decreases ns.len(),
{
    if ns.len() == 0 {
        0
    } else if ns.len() == 1 {
        r(ns[0])
    } else {
        let m = min_rank(r, ns.drop_last());
        if r(ns.last()) < m {
            r(ns.last())
        } else {
            m
        }
    }
}

/// `r` with every node of `ns` below `v` raised to `v`.
pub open spec fn raise(r: Ranks, ns: Seq<NodeRef>, v: int) -> Ranks {
    |n: NodeRef|
        if ns.contains(n) && r(n) < v {
            v
        } else {
            r(n)
        }
}

/// One union's constraint: its partners rise to the deepest partner rank,
/// its children to one below it.
pub open spec fn union_step(edges: Seq<RelEdge>, r: Ranks, u: NodeRef) -> Ranks {
    let pr = max_rank(r, linked(edges, u, true));
    raise(raise(r, linked(edges, u, true), pr), linked(edges, u, false), pr + 1)
}

/// One round: the constraints of the unions `us`, in order.
pub open spec fn rank_round(edges: Seq<RelEdge>, us: Seq<NodeRef>, r: Ranks) -> Ranks
    decreases us.len(),
{
    if us.len() == 0 {
        r
    } else {
        union_step(edges, rank_round(edges, us.drop_last(), r), us.last())
    }
}

/// The ranks after `k` rounds from all zero.
pub open spec fn rank_fix(edges: Seq<RelEdge>, us: Seq<NodeRef>, k: nat) -> Ranks
    decreases k,
{
    if k == 0 {
        |n: NodeRef| 0int
    } else {
        rank_round(edges, us, rank_fix(edges, us, (k - 1) as nat))
    }
}

/// The nodes of a list of unions, in order.
pub open spec fn nodes_of_unions(us: Seq<UnionNode>) -> Seq<NodeRef> {
    Seq::new(us.len(), |i: int| us[i].node)
}

/// The nodes of a graph's unions, in order.
pub open spec fn union_nodes(g: RelativeGraph) -> Seq<NodeRef> {
    nodes_of_unions(g.unions@)
}

/// The nodes of a graph's persons, in order.
pub open spec fn person_nodes(g: RelativeGraph) -> Seq<NodeRef> {
    Seq::new(g.persons@.len(), |i: int| g.persons@[i].node)
}

/// The ranks of a graph's persons: the fixpoint of the union constraints,
/// reached within `persons + 4` rounds (which also bounds a cycle).
pub open spec fn graph_ranks(g: RelativeGraph) -> Ranks {
    rank_fix(g.edges@, union_nodes(g), (g.persons@.len() + 4) as nat)
}

/// The rank of `n` in a rank list: its last entry's, else `0`.
pub open spec fn rank_at(v: Seq<(NodeRef, i32)>, n: NodeRef) -> int
    decreases v.len(),
{
    if v.len() == 0 {
        0
    } else if v.last().0 == n {
        v.last().1 as int
    } else {
        rank_at(v.drop_last(), n)
    }
}

/// A rank list read as ranks.
pub open spec fn rank_fn(v: Seq<(NodeRef, i32)>) -> Ranks {
    |n: NodeRef| rank_at(v, n)
}

/// Whether every entry of a rank list lies in `0..=b`.
pub open spec fn ranks_within(v: Seq<(NodeRef, i32)>, b: int) -> bool {
    forall|j: int| 0 <= j < v.len() ==> 0 <= (#[trigger] v[j]).1 <= b
}

/// A rank list's ranks lie within its entries' bounds.
proof fn lemma_rank_at_within(v: Seq<(NodeRef, i32)>, b: int, n: NodeRef)
    requires
        ranks_within(v, b),
        0 <= b,
    ensures
        0 <= rank_at(v, n) <= b,
    decreases v.len(),
{
    if v.len() > 0 {
        assert(0 <= v[v.len() - 1].1 <= b);
        if v.last().0 != n {
            assert forall|j: int| 0 <= j < v.drop_last().len() implies 0 <= (#[trigger] v.drop_last()[j]).1 <= b by {
                assert(v.drop_last()[j] == v[j]);
            }
            lemma_rank_at_within(v.drop_last(), b, n);
        }
    }
}

/// Reading back a rank just written.
proof fn lemma_rank_push(v: Seq<(NodeRef, i32)>, m: NodeRef, x: i32)
    ensures
        rank_fn(v.push((m, x))) == (|n: NodeRef|
            if n == m {
                x as int
            } else {
                rank_at(v, n)
            }),
{
    assert(v.push((m, x)).drop_last() =~= v);
    assert(rank_fn(v.push((m, x))) =~= (|n: NodeRef|
        if n == m {
            x as int
        } else {
            rank_at(v, n)
        }));
}

/// A node is in a sequence with one more node exactly when it is that node
/// or was there already.
proof fn lemma_contains_push(ns: Seq<NodeRef>, n: NodeRef, m: NodeRef)
    ensures
        ns.push(n).contains(m) <==> (ns.contains(m) || m == n),
{
    if ns.contains(m) {
        let k = choose|k: int| 0 <= k < ns.len() && ns[k] == m;
        assert(ns.push(n)[k] == m);
    }
    if m == n {
        assert(ns.push(n)[ns.len() as int] == m);
    }
    if ns.push(n).contains(m) && m != n {
        let k = choose|k: int| 0 <= k < ns.push(n).len() && ns.push(n)[k] == m;
        assert(ns[k] == m);
    }
}

/// The rank of `n`: its last entry's, else `0`.
fn rank_get(v: &Vec<(NodeRef, i32)>, n: NodeRef) -> (r: i32)
    ensures
        r == rank_at(v@, n),
{
    let mut i: usize = v.len();
    assert(v@.take(v.len() as int) =~= v@);
    while i > 0
        invariant
            i <= v.len(),
            rank_at(v@, n) == rank_at(v@.take(i as int), n),
        decreases i,
    {
        assert(v@.take(i as int).drop_last() =~= v@.take(i - 1));
        if v[i - 1].0 == n {
            return v[i - 1].1;
        }
        i = i - 1;
    }
    0
}

/// The largest rank among a union's partners (`0` for none).
fn partner_max(edges: &Vec<RelEdge>, v: &Vec<(NodeRef, i32)>, u: NodeRef, Ghost(b): Ghost<int>) -> (r: i32)
    requires
        ranks_within(v@, b),
        0 <= b <= i32::MAX,
    ensures
        r == max_rank(rank_fn(v@), linked(edges@, u, true)),
        0 <= r <= b,
{
    let mut m: i32 = 0;
    let mut i: usize = 0;
    while i < edges.len()
        invariant
            i <= edges.len(),
            ranks_within(v@, b),
            0 <= b <= i32::MAX,
            m == max_rank(rank_fn(v@), linked(edges@.take(i as int), u, true)),
            0 <= m <= b,
        decreases edges.len() - i,
    {
        let ghost ns0 = linked(edges@.take(i as int), u, true);
        assert(edges@.take(i + 1).drop_last() =~= edges@.take(i as int));
        match edges[i] {
            RelEdge::Partner { person, union } => {
                if union == u {
                    let x = rank_get(v, person);
                    proof {
                        lemma_rank_at_within(v@, b, person);
                        assert(linked(edges@.take(i + 1), u, true) == ns0.push(person));
                        assert(ns0.push(person).drop_last() =~= ns0);
                    }
                    if x > m {
                        m = x;
                    }
                } else {
                    assert(linked(edges@.take(i + 1), u, true) =~= ns0);
                }
            },
            RelEdge::Descent { .. } => {
                assert(linked(edges@.take(i + 1), u, true) =~= ns0);
            },
        }
        i = i + 1;
    }
    assert(edges@.take(edges.len() as int) =~= edges@);
    m
}

/// The smallest rank among a union's children, if it has any.
fn child_min(edges: &Vec<RelEdge>, v: &Vec<(NodeRef, i32)>, u: NodeRef, Ghost(b): Ghost<int>) -> (r: Option<i32>)
    requires
        ranks_within(v@, b),
        0 <= b <= i32::MAX,
    ensures
        match r {
            Some(x) => linked(edges@, u, false).len() > 0 && x == min_rank(rank_fn(v@), linked(edges@, u, false))
                && 0 <= x <= b,
            None => linked(edges@, u, false).len() == 0,
        },
{
    let mut m: Option<i32> = None;
    let mut i: usize = 0;
    while i < edges.len()
        invariant
            i <= edges.len(),
            ranks_within(v@, b),
            0 <= b <= i32::MAX,
            match m {
                Some(x) => linked(edges@.take(i as int), u, false).len() > 0 && x == min_rank(
                    rank_fn(v@),
                    linked(edges@.take(i as int), u, false),
                ) && 0 <= x <= b,
                None => linked(edges@.take(i as int), u, false).len() == 0,
            },
        decreases edges.len() - i,
    {
        let ghost ns0 = linked(edges@.take(i as int), u, false);
        assert(edges@.take(i + 1).drop_last() =~= edges@.take(i as int));
        match edges[i] {
            RelEdge::Descent { union, child } => {
                if union == u {
                    let x = rank_get(v, child);
                    proof {
                        lemma_rank_at_within(v@, b, child);
                        assert(linked(edges@.take(i + 1), u, false) == ns0.push(child));
                        assert(ns0.push(child).drop_last() =~= ns0);
                    }
                    m = match m {
                        None => Some(x),
                        Some(y) => if x < y {
                            Some(x)
                        } else {
                            Some(y)
                        },
                    };
                } else {
                    assert(linked(edges@.take(i + 1), u, false) =~= ns0);
                }
            },
            RelEdge::Partner { .. } => {
                assert(linked(edges@.take(i + 1), u, false) =~= ns0);
            },
        }
        i = i + 1;
    }
    assert(edges@.take(edges.len() as int) =~= edges@);
    m
}

/// Raises the partners (`partner`) or the children of union `u` that sit
/// below `val` to `val`; tells whether any rank changed.
fn raise_linked(
    v: &mut Vec<(NodeRef, i32)>,
    edges: &Vec<RelEdge>,
    u: NodeRef,
    partner: bool,
    val: i32,
    Ghost(b): Ghost<int>,
) -> (changed: bool)
    requires
        ranks_within(old(v)@, b),
        0 <= val <= b <= i32::MAX,
    ensures
        rank_fn(final(v)@) == raise(rank_fn(old(v)@), linked(edges@, u, partner), val as int),
        ranks_within(final(v)@, b),
        !changed ==> rank_fn(final(v)@) == rank_fn(old(v)@),
{
    let ghost r0 = rank_fn(v@);
    let mut changed = false;
    let mut i: usize = 0;
    assert(rank_fn(v@) =~= raise(r0, linked(edges@.take(0), u, partner), val as int));
    while i < edges.len()
        invariant
            i <= edges.len(),
            0 <= val <= b <= i32::MAX,
            ranks_within(v@, b),
            rank_fn(v@) == raise(r0, linked(edges@.take(i as int), u, partner), val as int),
            !changed ==> rank_fn(v@) == r0,
        decreases edges.len() - i,
    {
        let ghost ns0 = linked(edges@.take(i as int), u, partner);
        assert(edges@.take(i + 1).drop_last() =~= edges@.take(i as int));
        let e = edges[i];
        let target = match e {
            RelEdge::Partner { person, union } => if partner && union == u {
                Some(person)
            } else {
                None
            },
            RelEdge::Descent { union, child } => if !partner && union == u {
                Some(child)
            } else {
                None
            },
        };
        match target {
            Some(n) => {
                proof {
                    assert(linked(edges@.take(i + 1), u, partner) == ns0.push(n));
                }
                let x = rank_get(v, n);
                if x < val {
                    let ghost before = v@;
                    v.push((n, val));
                    changed = true;
                    proof {
                        lemma_rank_push(before, n, val);
                        assert forall|j: int| 0 <= j < v@.len() implies 0 <= (#[trigger] v@[j]).1 <= b by {
                            if j < before.len() {
                                assert(v@[j] == before[j]);
                            }
                        }
                        assert forall|m: NodeRef| #[trigger] rank_fn(v@)(m) == raise(r0, ns0.push(n), val as int)(m) by {
                            lemma_contains_push(ns0, n, m);
                            assert(rank_fn(before)(m) == raise(r0, ns0, val as int)(m));
                        }
                        assert(rank_fn(v@) =~= raise(r0, ns0.push(n), val as int));
                    }
                } else {
                    proof {
                        assert forall|m: NodeRef| #[trigger] rank_fn(v@)(m) == raise(r0, ns0.push(n), val as int)(m) by {
                            lemma_contains_push(ns0, n, m);
                            assert(rank_fn(v@)(m) == raise(r0, ns0, val as int)(m));
                        }
                        assert(rank_fn(v@) =~= raise(r0, ns0.push(n), val as int));
                    }
                }
            },
            None => {
                proof {
                    assert(linked(edges@.take(i + 1), u, partner) =~= ns0);
                }
            },
        }
        i = i + 1;
    }
    assert(edges@.take(edges.len() as int) =~= edges@);
    changed
}

/// The largest rank a layer can be derived from: `2 · rank + 1` still fits an
/// `i32`.
pub open spec fn rank_limit() -> int {
    1073741823
}

/// Whether `r` ranks `c` beyond [`rank_limit`].
pub open spec fn beyond(r: Ranks, c: NodeRef) -> bool {
    r(c) > rank_limit()
}

/// Raising only ever raises.
proof fn lemma_step_grows(edges: Seq<RelEdge>, r: Ranks, u: NodeRef, n: NodeRef)
    ensures
        union_step(edges, r, u)(n) >= r(n),
{
}

/// A round only ever raises.
proof fn lemma_round_grows(edges: Seq<RelEdge>, us: Seq<NodeRef>, r: Ranks, n: NodeRef)
    ensures
        rank_round(edges, us, r)(n) >= r(n),
    decreases us.len(),
{
    if us.len() > 0 {
        lemma_round_grows(edges, us.drop_last(), r, n);
        lemma_step_grows(edges, rank_round(edges, us.drop_last(), r), us.last(), n);
    }
}

/// A whole round raises at least as far as any part of it.
proof fn lemma_round_prefix(edges: Seq<RelEdge>, us: Seq<NodeRef>, k: int, r: Ranks, n: NodeRef)
    requires
        0 <= k <= us.len(),
    ensures
        rank_round(edges, us, r)(n) >= rank_round(edges, us.take(k), r)(n),
    decreases us.len(),
{
    if k == us.len() {
        assert(us.take(k) =~= us);
    } else {
        assert(us.drop_last().take(k) =~= us.take(k));
        lemma_round_prefix(edges, us.drop_last(), k, r, n);
        lemma_step_grows(edges, rank_round(edges, us.drop_last(), r), us.last(), n);
    }
}

/// Later rounds rank no lower.
proof fn lemma_fix_grows(edges: Seq<RelEdge>, us: Seq<NodeRef>, a: nat, b: nat, n: NodeRef)
    requires
        a <= b,
    ensures
        rank_fix(edges, us, b)(n) >= rank_fix(edges, us, a)(n),
    decreases b,
{
    if a < b {
        lemma_fix_grows(edges, us, a, (b - 1) as nat, n);
        lemma_round_grows(edges, us, rank_fix(edges, us, (b - 1) as nat), n);
    }
}

/// Applies union `u`'s constraint; tells whether any rank changed, or gives
/// `None` when a child would rank beyond [`rank_limit`].
fn apply_union(v: &mut Vec<(NodeRef, i32)>, edges: &Vec<RelEdge>, u: NodeRef) -> (r: Option<bool>)
    requires
        ranks_within(old(v)@, rank_limit()),
    ensures
        match r {
            Some(changed) => {
                &&& rank_fn(final(v)@) == union_step(edges@, rank_fn(old(v)@), u)
                &&& ranks_within(final(v)@, rank_limit())
                &&& !changed ==> rank_fn(final(v)@) == rank_fn(old(v)@)
            },
            None => exists|c: NodeRef| #[trigger] beyond(union_step(edges@, rank_fn(old(v)@), u), c),
        },
{
    let ghost r0 = rank_fn(v@);
    let pr = partner_max(edges, v, u, Ghost(rank_limit()));
    let c1 = raise_linked(v, edges, u, true, pr, Ghost(rank_limit()));
    let ghost r1 = rank_fn(v@);
    if pr < 1073741823 {
        let c2 = raise_linked(v, edges, u, false, pr + 1, Ghost(rank_limit()));
        Some(c1 || c2)
    } else if has_linked(edges, u, false) {
        proof {
            let c = linked(edges@, u, false)[0];
            assert(linked(edges@, u, false).contains(c));
            lemma_rank_at_within(v@, rank_limit(), c);
            assert(r1(c) <= rank_limit());
            assert(union_step(edges@, r0, u)(c) == pr + 1);
            assert(beyond(union_step(edges@, r0, u), c));
        }
        None
    } else {
        proof {
            assert(raise(r1, linked(edges@, u, false), pr + 1) =~= r1);
        }
        Some(c1)
    }
}

/// Applies the constraints of all unions once, in order; tells whether any
/// rank changed, or gives `None` when a rank would pass [`rank_limit`].
fn apply_round(v: &mut Vec<(NodeRef, i32)>, edges: &Vec<RelEdge>, unions: &Vec<UnionNode>) -> (r: Option<bool>)
    requires
        ranks_within(old(v)@, rank_limit()),
    ensures
        match r {
            Some(changed) => {
                &&& rank_fn(final(v)@) == rank_round(edges@, nodes_of_unions(unions@), rank_fn(old(v)@))
                &&& ranks_within(final(v)@, rank_limit())
                &&& !changed ==> rank_fn(final(v)@) == rank_fn(old(v)@)
            },
            None => exists|c: NodeRef|
                #[trigger] beyond(rank_round(edges@, nodes_of_unions(unions@), rank_fn(old(v)@)), c),
        },
{
    let ghost r0 = rank_fn(v@);
    let ghost ns = nodes_of_unions(unions@);
    let mut changed = false;
    let mut k: usize = 0;
    assert(ns.take(0) =~= Seq::<NodeRef>::empty());
    while k < unions.len()
        invariant
            k <= unions.len(),
            ns == nodes_of_unions(unions@),
            r0 == rank_fn(old(v)@),
            ranks_within(v@, rank_limit()),
            rank_fn(v@) == rank_round(edges@, ns.take(k as int), r0),
            !changed ==> rank_fn(v@) == r0,
        decreases unions.len() - k,
    {
        proof {
            assert(ns.take(k + 1).drop_last() =~= ns.take(k as int));
            assert(ns.take(k + 1).last() == unions@[k as int].node);
        }
        let ghost pre = rank_fn(v@);
        match apply_union(v, edges, unions[k].node) {
            Some(c) => {
                if c {
                    changed = true;
                }
            },
            None => {
                proof {
                    let c = choose|c: NodeRef| #[trigger] beyond(union_step(edges@, pre, unions@[k as int].node), c);
                    assert(rank_round(edges@, ns.take(k + 1), r0) == union_step(edges@, pre, unions@[k as int].node));
                    assert(beyond(rank_round(edges@, ns.take(k + 1), r0), c));
                    lemma_round_prefix(edges@, ns, k + 1, r0, c);
                    assert(beyond(rank_round(edges@, ns, r0), c));
                }
                return None;
            },
        }
        k = k + 1;
    }
    assert(ns.take(unions.len() as int) =~= ns);
    Some(changed)
}

/// A fixpoint of a round stays one in every later round.
proof fn lemma_fix_stays(edges: Seq<RelEdge>, us: Seq<NodeRef>, t: nat, k: nat)
    requires
        t <= k,
        rank_round(edges, us, rank_fix(edges, us, t)) == rank_fix(edges, us, t),
    ensures
        rank_fix(edges, us, k) == rank_fix(edges, us, t),
    decreases k,
{
    if k > t {
        lemma_fix_stays(edges, us, t, (k - 1) as nat);
    }
}

/// Whether every rank lies within [`rank_limit`].
pub open spec fn ranks_fit(g: RelativeGraph) -> bool {
    forall|n: NodeRef| #[trigger] graph_ranks(g)(n) <= rank_limit()
}

/// The persons' ranks, as a rank list (see [`graph_ranks`]), or `None` when
/// a rank passes [`rank_limit`].
fn person_ranks(g: &RelativeGraph) -> (r: Option<Vec<(NodeRef, i32)>>)
    requires
        g.persons@.len() + 4 <= usize::MAX,
    ensures
        match r {
            Some(v) => rank_fn(v@) == graph_ranks(*g) && ranks_within(v@, rank_limit()) && ranks_fit(*g),
            None => !ranks_fit(*g),
        },
{
    let ghost us = union_nodes(*g);
    let cap = g.persons.len() + 4;
    let mut v: Vec<(NodeRef, i32)> = Vec::new();
    let mut t: usize = 0;
    let mut stable = false;
    assert(rank_fn(v@) =~= rank_fix(g.edges@, us, 0));
    while t < cap && !stable
        invariant
            cap == g.persons@.len() + 4,
            us == union_nodes(*g),
            t <= cap,
            rank_fn(v@) == rank_fix(g.edges@, us, t as nat),
            ranks_within(v@, rank_limit()),
            stable ==> rank_round(g.edges@, us, rank_fix(g.edges@, us, t as nat)) == rank_fix(g.edges@, us, t as nat),
        decreases cap - t, if stable { 0int } else { 1int },
    {
        match apply_round(&mut v, &g.edges, &g.unions) {
            Some(changed) => {
                if !changed {
                    stable = true;
                } else {
                    t = t + 1;
                }
            },
            None => {
                proof {
                    let c = choose|c: NodeRef| #[trigger] beyond(rank_round(g.edges@, us, rank_fix(g.edges@, us, t as nat)), c);
                    lemma_fix_grows(g.edges@, us, (t + 1) as nat, cap as nat, c);
                    assert(graph_ranks(*g)(c) > rank_limit());
                }
                return None;
            },
        }
    }
    proof {
        if stable {
            lemma_fix_stays(g.edges@, us, t as nat, cap as nat);
        }
        assert forall|n: NodeRef| #[trigger] graph_ranks(*g)(n) <= rank_limit() by {
            lemma_rank_at_within(v@, rank_limit(), n);
        }
    }
    Some(v)
}

/// The rank a union sits below: its deepest partner's; for a union without
/// partners one above its shallowest child (never below `0`); else `0`.
pub open spec fn union_rank(edges: Seq<RelEdge>, r: Ranks, u: NodeRef) -> int {
    let ps = linked(edges, u, true);
    let cs = linked(edges, u, false);
    if ps.len() > 0 {
        max_rank(r, ps)
    } else if cs.len() > 0 {
        if min_rank(r, cs) - 1 > 0 {
            min_rank(r, cs) - 1
        } else {
            0
        }
    } else {
        0
    }
}

/// The layer of a person or union node: `2 · rank` for a person, the odd
/// layer `2 · union_rank + 1` for a union (`0` for a dummy, whose layer is
/// kept apart).
pub open spec fn node_layer(g: RelativeGraph, n: LRef) -> int {
    match n {
        LRef::Person(p) => 2 * graph_ranks(g)(p),
        LRef::Union(u) => 2 * union_rank(g.edges@, graph_ranks(g), u) + 1,
        LRef::Dummy(_) => 0,
    }
}

/// An edge's two nodes, the person or union it starts from first, and its key.
pub open spec fn edge_ends(e: RelEdge) -> (LRef, LRef, (NodeRef, NodeRef)) {
    match e {
        RelEdge::Partner { person, union } => (LRef::Person(person), LRef::Union(union), (person, union)),
        RelEdge::Descent { union, child } => (LRef::Union(union), LRef::Person(child), (union, child)),
    }
}

/// What splitting edges has produced so far: the links (upper node first),
/// the dummies' layers, and the dummy chain of each long edge.
pub struct Split {
    /// The links, upper node first.
    pub links: Seq<(LRef, LRef)>,
    /// The layer of each dummy, by number.
    pub dummies: Seq<i32>,
    /// Each long edge's key and dummies.
    pub chains: Seq<((NodeRef, NodeRef), Seq<u32>)>,
}

/// Splits one more edge: one link between adjacent (or equal) layers, else a
/// chain through one new dummy per crossed layer, numbered on from the
/// dummies so far.
pub open spec fn split_one(g: RelativeGraph, st: Split, e: RelEdge) -> Split {
    let (a, b, key) = edge_ends(e);
    let la = node_layer(g, a);
    let lb = node_layer(g, b);
    let (top, bot, lt, lo) = if la <= lb {
        (a, b, la, lb)
    } else {
        (b, a, lb, la)
    };
    if lo - lt <= 1 {
        Split { links: st.links.push((top, bot)), dummies: st.dummies, chains: st.chains }
    } else {
        let k = lo - lt - 1;
        let n = st.dummies.len();
        Split {
            links: st.links + Seq::new(
                (k + 1) as nat,
                |i: int|
                    (
                        if i == 0 {
                            top
                        } else {
                            LRef::Dummy((n + i - 1) as u32)
                        },
                        if i == k {
                            bot
                        } else {
                            LRef::Dummy((n + i) as u32)
                        },
                    ),
            ),
            dummies: st.dummies + Seq::new(k as nat, |i: int| (lt + 1 + i) as i32),
            chains: st.chains.push((key, Seq::new(k as nat, |i: int| (n + i) as u32))),
        }
    }
}

/// The links, dummies and chains of the edges `es`, split in order.
pub open spec fn split_edges(g: RelativeGraph, es: Seq<RelEdge>) -> Split
    decreases es.len(),
{
    if es.len() == 0 {
        Split { links: seq![], dummies: seq![], chains: seq![] }
    } else {
        split_one(g, split_edges(g, es.drop_last()), es.last())
    }
}

/// Every node with its layer: persons, then unions, then dummies.
pub open spec fn placed(g: RelativeGraph) -> Seq<(LRef, i32)> {
    let ds = split_edges(g, g.edges@).dummies;
    Seq::new(g.persons@.len(), |i: int| (LRef::Person(g.persons@[i].node), node_layer(g, LRef::Person(g.persons@[i].node)) as i32))
        + Seq::new(g.unions@.len(), |i: int| (LRef::Union(g.unions@[i].node), node_layer(g, LRef::Union(g.unions@[i].node)) as i32))
        + Seq::new(ds.len(), |i: int| (LRef::Dummy(i as u32), ds[i]))
}

/// The deepest layer among placed nodes (`0` for none).
pub open spec fn max_layer(ps: Seq<(LRef, i32)>) -> int
    decreases ps.len(),
{
    if ps.len() == 0 {
        0
    } else {
        let m = max_layer(ps.drop_last());
        if ps.last().1 > m {
            ps.last().1 as int
        } else {
            m
        }
    }
}

/// Every placed node lies no deeper than the deepest layer.
proof fn lemma_max_layer_bounds(ps: Seq<(LRef, i32)>)
    ensures
        forall|k: int| 0 <= k < ps.len() ==> (#[trigger] ps[k]).1 <= max_layer(ps),
        0 <= max_layer(ps),
    decreases ps.len(),
{
    if ps.len() > 0 {
        lemma_max_layer_bounds(ps.drop_last());
        assert forall|k: int| 0 <= k < ps.len() implies (#[trigger] ps[k]).1 <= max_layer(ps) by {
            if k < ps.len() - 1 {
                assert(ps[k] == ps.drop_last()[k]);
            }
        }
    }
}

/// The placed nodes on layer `l`, in order.
pub open spec fn on_layer(ps: Seq<(LRef, i32)>, l: int) -> Seq<LRef>
    decreases ps.len(),
{
    if ps.len() == 0 {
        seq![]
    } else {
        on_layer(ps.drop_last(), l) + if ps.last().1 == l {
            seq![ps.last().0]
        } else {
            seq![]
        }
    }
}

/// Whether every edge joins nodes of the graph: a partner edge a person and
/// a union, a descent edge a union and a person.
pub open spec fn edges_known(g: RelativeGraph) -> bool {
    forall|i: int|
        0 <= i < g.edges@.len() ==> match #[trigger] g.edges@[i] {
            RelEdge::Partner { person, union } => person_nodes(g).contains(person) && union_nodes(g).contains(union),
            RelEdge::Descent { union, child } => union_nodes(g).contains(union) && person_nodes(g).contains(child),
        }
}

/// Whether a union links to any partner (`partner`) or any child.
fn has_linked(edges: &Vec<RelEdge>, u: NodeRef, partner: bool) -> (r: bool)
    ensures
        r == (linked(edges@, u, partner).len() > 0),
{
    let mut i: usize = 0;
    while i < edges.len()
        invariant
            i <= edges.len(),
            linked(edges@.take(i as int), u, partner).len() == 0,
        decreases edges.len() - i,
    {
        assert(edges@.take(i + 1).drop_last() =~= edges@.take(i as int));
        let hit = match edges[i] {
            RelEdge::Partner { union, .. } => partner && union == u,
            RelEdge::Descent { union, .. } => !partner && union == u,
        };
        if hit {
            assert(linked(edges@.take(i + 1), u, partner).len() > 0);
            proof {
                lemma_linked_prefix(edges@, i + 1, u, partner);
            }
            return true;
        }
        i = i + 1;
    }
    assert(edges@.take(edges.len() as int) =~= edges@);
    false
}

/// A union's links in a prefix of the edges come first among all its links.
proof fn lemma_linked_prefix(edges: Seq<RelEdge>, k: int, u: NodeRef, partner: bool)
    requires
        0 <= k <= edges.len(),
    ensures
        linked(edges.take(k), u, partner).len() <= linked(edges, u, partner).len(),
    decreases edges.len() - k,
{
    if k < edges.len() {
        lemma_linked_prefix(edges, k + 1, u, partner);
        assert(edges.take(k + 1).drop_last() =~= edges.take(k));
    } else {
        assert(edges.take(k) =~= edges);
    }
}

/// The layer of a union (see [`union_rank`]).
fn union_layer_of(edges: &Vec<RelEdge>, v: &Vec<(NodeRef, i32)>, u: NodeRef, Ghost(b): Ghost<int>) -> (r: i32)
    requires
        ranks_within(v@, b),
        0 <= b,
        2 * b + 1 <= i32::MAX,
    ensures
        r == 2 * union_rank(edges@, rank_fn(v@), u) + 1,
        1 <= r <= 2 * b + 1,
{
    let pr = if has_linked(edges, u, true) {
        partner_max(edges, v, u, Ghost(b))
    } else {
        match child_min(edges, v, u, Ghost(b)) {
            Some(m) => if m - 1 > 0 {
                m - 1
            } else {
                0
            },
            None => 0,
        }
    };
    2 * pr + 1
}

/// The layer of a person or union node.
fn layer_of_node(g: &RelativeGraph, v: &Vec<(NodeRef, i32)>, n: LRef) -> (r: i32)
    requires
        rank_fn(v@) == graph_ranks(*g),
        ranks_within(v@, rank_limit()),
        !(n is Dummy),
    ensures
        r == node_layer(*g, n),
        0 <= r <= 2 * rank_limit() + 1,
{
    match n {
        LRef::Person(p) => {
            let x = rank_get(v, p);
            proof {
                lemma_rank_at_within(v@, rank_limit(), p);
            }
            2 * x
        },
        LRef::Union(u) => union_layer_of(&g.edges, v, u, Ghost(rank_limit())),
        LRef::Dummy(_) => 0,
    }
}

/// The layered network chart of a graph: person and union layers, the links
/// between adjacent layers with one dummy per crossed layer on a long edge
/// (edges in order, dummies numbered in order), and each layer seeded with
/// its persons, then its unions, then its dummies.
pub fn network_layers(g: &RelativeGraph) -> (r: Option<NetworkLayers>)
    requires
        g.persons@.len() + 4 <= usize::MAX,
        edges_known(*g),
    ensures
        r is Some <==> layers_fit(*g),
        r matches Some(r) ==> {
            &&& r.person_layers@.len() == g.persons@.len()
            &&& forall|i: int|
                0 <= i < g.persons@.len() ==> (#[trigger] r.person_layers@[i]).0 == g.persons@[i].node
                    && r.person_layers@[i].1 == 2 * graph_ranks(*g)(g.persons@[i].node)
            &&& r.union_layers@.len() == g.unions@.len()
            &&& forall|i: int|
                0 <= i < g.unions@.len() ==> (#[trigger] r.union_layers@[i]).0 == g.unions@[i].node
                    && r.union_layers@[i].1 == 2 * union_rank(g.edges@, graph_ranks(*g), g.unions@[i].node) + 1
            &&& r.links@ == split_edges(*g, g.edges@).links
            &&& r.dummy_layers@ == split_edges(*g, g.edges@).dummies
            &&& r.chains@.len() == split_edges(*g, g.edges@).chains.len()
            &&& forall|i: int|
                0 <= i < r.chains@.len() ==> (#[trigger] r.chains@[i]).0 == split_edges(*g, g.edges@).chains[i].0
                    && r.chains@[i].1@ == split_edges(*g, g.edges@).chains[i].1
            &&& r.order@.len() == max_layer(placed(*g)) + 1
            &&& forall|l: int| 0 <= l < r.order@.len() ==> (#[trigger] r.order@[l])@ == on_layer(placed(*g), l)
        },
{
    let ghost top: int = 2 * rank_limit() + 1;
    let ranks = match person_ranks(g) {
        Some(v) => v,
        None => return None,
    };
    let mut placed_v: Vec<(LRef, i32)> = Vec::new();

    // Persons.
    let mut person_layers: Vec<(NodeRef, i32)> = Vec::new();
    let mut i: usize = 0;
    while i < g.persons.len()
        invariant
            i <= g.persons.len(),
            top == 2 * rank_limit() + 1,
            ranks_fit(*g),
            rank_fn(ranks@) == graph_ranks(*g),
            ranks_within(ranks@, rank_limit()),
            person_layers@.len() == i,
            forall|k: int|
                0 <= k < i ==> (#[trigger] person_layers@[k]).0 == g.persons@[k].node
                    && person_layers@[k].1 == 2 * graph_ranks(*g)(g.persons@[k].node),
            placed_v@ == Seq::new(i as nat, |k: int| (LRef::Person(g.persons@[k].node), node_layer(*g, LRef::Person(g.persons@[k].node)) as i32)),
            forall|k: int| 0 <= k < placed_v@.len() ==> 0 <= (#[trigger] placed_v@[k]).1 <= top,
        decreases g.persons.len() - i,
    {
        let n = g.persons[i].node;
        let l = layer_of_node(g, &ranks, LRef::Person(n));
        person_layers.push((n, l));
        let ghost pv0 = placed_v@;
        placed_v.push((LRef::Person(n), l));
        proof {
            assert forall|k: int| 0 <= k < placed_v@.len() implies 0 <= (#[trigger] placed_v@[k]).1 <= top by {
                if k < pv0.len() {
                    assert(placed_v@[k] == pv0[k]);
                }
            }
            assert(placed_v@ =~= Seq::new((i + 1) as nat, |k: int| (LRef::Person(g.persons@[k].node), node_layer(*g, LRef::Person(g.persons@[k].node)) as i32)));
        }
        i = i + 1;
    }

    // Unions.
    let ghost pp = placed_v@;
    let mut union_layers: Vec<(NodeRef, i32)> = Vec::new();
    let mut i: usize = 0;
    while i < g.unions.len()
        invariant
            i <= g.unions.len(),
            top == 2 * rank_limit() + 1,
            ranks_fit(*g),
            pp.len() == g.persons@.len(),
            forall|k: int| 0 <= k < pp.len() ==> 0 <= (#[trigger] pp[k]).1 <= top,
            rank_fn(ranks@) == graph_ranks(*g),
            ranks_within(ranks@, rank_limit()),
            union_layers@.len() == i,
            forall|k: int|
                0 <= k < i ==> (#[trigger] union_layers@[k]).0 == g.unions@[k].node
                    && union_layers@[k].1 == 2 * union_rank(g.edges@, graph_ranks(*g), g.unions@[k].node) + 1,
            placed_v@ == pp + Seq::new(i as nat, |k: int| (LRef::Union(g.unions@[k].node), node_layer(*g, LRef::Union(g.unions@[k].node)) as i32)),
            forall|k: int| 0 <= k < placed_v@.len() ==> 0 <= (#[trigger] placed_v@[k]).1 <= top,
        decreases g.unions.len() - i,
    {
        let n = g.unions[i].node;
        let l = layer_of_node(g, &ranks, LRef::Union(n));
        union_layers.push((n, l));
        let ghost pv0 = placed_v@;
        placed_v.push((LRef::Union(n), l));
        proof {
            assert forall|k: int| 0 <= k < placed_v@.len() implies 0 <= (#[trigger] placed_v@[k]).1 <= top by {
                if k < pv0.len() {
                    assert(placed_v@[k] == pv0[k]);
                }
            }
            assert(placed_v@ =~= pp + Seq::new((i + 1) as nat, |k: int| (LRef::Union(g.unions@[k].node), node_layer(*g, LRef::Union(g.unions@[k].node)) as i32)));
        }
        i = i + 1;
    }
    let ghost pu = placed_v@;

    // Edges, split into adjacent-layer links.
    let mut links: Vec<(LRef, LRef)> = Vec::new();
    let mut dummy_layers: Vec<i32> = Vec::new();
    let mut chains: Vec<((NodeRef, NodeRef), Vec<u32>)> = Vec::new();
    let mut e: usize = 0;
    while e < g.edges.len()
        invariant
            e <= g.edges.len(),
            top == 2 * rank_limit() + 1,
            ranks_fit(*g),
            rank_fn(ranks@) == graph_ranks(*g),
            ranks_within(ranks@, rank_limit()),
            links@ == split_edges(*g, g.edges@.take(e as int)).links,
            dummy_layers@ == split_edges(*g, g.edges@.take(e as int)).dummies,
            chains@.len() == split_edges(*g, g.edges@.take(e as int)).chains.len(),
            forall|i: int|
                0 <= i < chains@.len() ==> (#[trigger] chains@[i]).0 == split_edges(*g, g.edges@.take(e as int)).chains[i].0
                    && chains@[i].1@ == split_edges(*g, g.edges@.take(e as int)).chains[i].1,
            dummy_layers@.len() <= u32::MAX,
            forall|k: int| 0 <= k < dummy_layers@.len() ==> 0 <= (#[trigger] dummy_layers@[k]) <= top,
        decreases g.edges.len() - e,
    {
        let ghost st = split_edges(*g, g.edges@.take(e as int));
        proof {
            assert(g.edges@.take(e + 1).drop_last() =~= g.edges@.take(e as int));
        }
        let (a, b, key) = match g.edges[e] {
            RelEdge::Partner { person, union } => (LRef::Person(person), LRef::Union(union), (person, union)),
            RelEdge::Descent { union, child } => (LRef::Union(union), LRef::Person(child), (union, child)),
        };
        let la = layer_of_node(g, &ranks, a);
        let lb = layer_of_node(g, &ranks, b);
        let (top_n, bot_n, lt, lo) = if la <= lb {
            (a, b, la, lb)
        } else {
            (b, a, lb, la)
        };
        if lo - lt <= 1 {
            links.push((top_n, bot_n));
        } else {
            let ghost n0 = dummy_layers@.len();
            let ghost l0 = links@;
            let ghost d0 = dummy_layers@;
            let mut prev = top_n;
            let mut chain: Vec<u32> = Vec::new();
            let mut l: i32 = lt + 1;
            while l < lo
                invariant
                    lt + 1 <= l <= lo,
                    0 <= lt,
                    lo <= top,
                    n0 == split_edges(*g, g.edges@.take(e as int)).dummies.len(),
                    split_edges(*g, g.edges@.take(e + 1)).dummies.len() == n0 + (lo - lt - 1),
                    e < g.edges.len(),
                    dummy_layers@.len() <= u32::MAX,
                    dummy_layers@.len() == n0 + (l - lt - 1),
                    dummy_layers@ == d0 + Seq::new((l - lt - 1) as nat, |i: int| (lt + 1 + i) as i32),
                    links@ == l0 + Seq::new(
                        (l - lt - 1) as nat,
                        |i: int|
                            (
                                if i == 0 {
                                    top_n
                                } else {
                                    LRef::Dummy((n0 + i - 1) as u32)
                                },
                                LRef::Dummy((n0 + i) as u32),
                            ),
                    ),
                    chain@ == Seq::new((l - lt - 1) as nat, |i: int| (n0 + i) as u32),
                    prev == if l == lt + 1 {
                        top_n
                    } else {
                        LRef::Dummy((n0 + (l - lt - 1) - 1) as u32)
                    },
                    forall|k: int| 0 <= k < dummy_layers@.len() ==> 0 <= (#[trigger] dummy_layers@[k]) <= top,
                decreases lo - l,
            {
                if dummy_layers.len() >= 4294967295 {
                    proof {
                        lemma_split_grows(*g, g.edges@, e + 1);
                    }
                    return None;
                }
                let id = dummy_layers.len() as u32;
                let d = LRef::Dummy(id);
                dummy_layers.push(l);
                links.push((prev, d));
                chain.push(id);
                prev = d;
                proof {
                    let j = l - lt - 1;
                    assert(dummy_layers@ =~= d0 + Seq::new((j + 1) as nat, |i: int| (lt + 1 + i) as i32));
                    assert(links@ =~= l0 + Seq::new(
                        (j + 1) as nat,
                        |i: int|
                            (
                                if i == 0 {
                                    top_n
                                } else {
                                    LRef::Dummy((n0 + i - 1) as u32)
                                },
                                LRef::Dummy((n0 + i) as u32),
                            ),
                    ));
                    assert(chain@ =~= Seq::new((j + 1) as nat, |i: int| (n0 + i) as u32));
                }
                l = l + 1;
            }
            links.push((prev, bot_n));
            proof {
                let k = lo - lt - 1;
                assert(links@ =~= l0 + Seq::new(
                    (k + 1) as nat,
                    |i: int|
                        (
                            if i == 0 {
                                top_n
                            } else {
                                LRef::Dummy((n0 + i - 1) as u32)
                            },
                            if i == k {
                                bot_n
                            } else {
                                LRef::Dummy((n0 + i) as u32)
                            },
                        ),
                ));
            }
            chains.push((key, chain));
        }
        proof {
            let st1 = split_edges(*g, g.edges@.take(e + 1));
            assert(chains@.len() == st1.chains.len());
            assert forall|i: int| 0 <= i < chains@.len() implies (#[trigger] chains@[i]).0 == st1.chains[i].0
                && chains@[i].1@ == st1.chains[i].1 by {
            }
        }
        e = e + 1;
    }
    assert(g.edges@.take(g.edges.len() as int) =~= g.edges@);
    proof {
        assert(dummy_layers@.len() <= u32::MAX);
    }

    // Dummies join the placed nodes.
    let mut i: usize = 0;
    while i < dummy_layers.len()
        invariant
            i <= dummy_layers.len(),
            dummy_layers@.len() <= u32::MAX,
            dummy_layers@ == split_edges(*g, g.edges@).dummies,
            placed_v@ == pu + Seq::new(i as nat, |k: int| (LRef::Dummy(k as u32), dummy_layers@[k])),
            forall|k: int| 0 <= k < dummy_layers@.len() ==> 0 <= (#[trigger] dummy_layers@[k]) <= top,
            forall|k: int| 0 <= k < placed_v@.len() ==> 0 <= (#[trigger] placed_v@[k]).1 <= top,
        decreases dummy_layers.len() - i,
    {
        placed_v.push((LRef::Dummy(i as u32), dummy_layers[i]));
        proof {
            assert(placed_v@ =~= pu + Seq::new((i + 1) as nat, |k: int| (LRef::Dummy(k as u32), dummy_layers@[k])));
        }
        i = i + 1;
    }
    assert(placed_v@ =~= placed(*g));

    let order = seed_order(&placed_v, Ghost(top));
    Some(NetworkLayers { person_layers, union_layers, dummy_layers, links, chains, order })
}

/// Whether a graph's layering fits its types: every rank within
/// [`rank_limit`], and the dummies numbered within `u32`.
pub open spec fn layers_fit(g: RelativeGraph) -> bool {
    &&& ranks_fit(g)
    &&& split_edges(g, g.edges@).dummies.len() <= u32::MAX
}

/// Splitting more edges never removes a dummy.
proof fn lemma_split_grows(g: RelativeGraph, es: Seq<RelEdge>, k: int)
    requires
        0 <= k <= es.len(),
    ensures
        split_edges(g, es).dummies.len() >= split_edges(g, es.take(k)).dummies.len(),
    decreases es.len(),
{
    if k == es.len() {
        assert(es.take(k) =~= es);
    } else {
        assert(es.drop_last().take(k) =~= es.take(k));
        lemma_split_grows(g, es.drop_last(), k);
    }
}

/// Each layer's nodes, in the order `ps` places them.
fn seed_order(ps: &Vec<(LRef, i32)>, Ghost(top): Ghost<int>) -> (order: Vec<Vec<LRef>>)
    requires
        forall|k: int| 0 <= k < ps@.len() ==> 0 <= (#[trigger] ps@[k]).1 <= top,
        0 <= top <= i32::MAX,
    ensures
        order@.len() == max_layer(ps@) + 1,
        forall|l: int| 0 <= l < order@.len() ==> (#[trigger] order@[l])@ == on_layer(ps@, l),
{
    let mut m: i32 = 0;
    let mut i: usize = 0;
    while i < ps.len()
        invariant
            i <= ps.len(),
            forall|k: int| 0 <= k < ps@.len() ==> 0 <= (#[trigger] ps@[k]).1 <= top,
            m == max_layer(ps@.take(i as int)),
            0 <= m <= top,
        decreases ps.len() - i,
    {
        assert(ps@.take(i + 1).drop_last() =~= ps@.take(i as int));
        if ps[i].1 > m {
            m = ps[i].1;
        }
        i = i + 1;
    }
    assert(ps@.take(ps.len() as int) =~= ps@);
    proof {
        lemma_max_layer_bounds(ps@);
    }
    let mut order: Vec<Vec<LRef>> = Vec::new();
    let size = m as usize + 1;
    while order.len() < size
        invariant
            order.len() <= size,
            forall|l: int| 0 <= l < order@.len() ==> (#[trigger] order@[l])@ == Seq::<LRef>::empty(),
        decreases size - order.len(),
    {
        order.push(Vec::new());
    }
    let mut i: usize = 0;
    while i < ps.len()
        invariant
            i <= ps.len(),
            order.len() == size,
            size == m + 1,
            m == max_layer(ps@),
            forall|k: int| 0 <= k < ps@.len() ==> 0 <= (#[trigger] ps@[k]).1 <= m,
            forall|l: int| 0 <= l < order@.len() ==> (#[trigger] order@[l])@ == on_layer(ps@.take(i as int), l),
        decreases ps.len() - i,
    {
        assert(ps@.take(i + 1).drop_last() =~= ps@.take(i as int));
        let (n, l) = ps[i];
        let li = l as usize;
        order[li].push(n);
        i = i + 1;
    }
    assert(ps@.take(ps.len() as int) =~= ps@);
    order
}


/// The largest rank is no less than any of the ranks it is taken over.
proof fn lemma_max_rank_bounds(r: Ranks, ns: Seq<NodeRef>, k: int)
    requires
        0 <= k < ns.len(),
    ensures
        r(ns[k]) <= max_rank(r, ns),
        0 <= max_rank(r, ns),
    decreases ns.len(),
{
    if k < ns.len() - 1 {
        lemma_max_rank_bounds(r, ns.drop_last(), k);
    } else if ns.len() > 1 {
        lemma_max_rank_bounds(r, ns.drop_last(), 0);
    }
}

/// The smallest rank is no more than any of the ranks it is taken over.
proof fn lemma_min_rank_bounds(r: Ranks, ns: Seq<NodeRef>, k: int)
    requires
        0 <= k < ns.len(),
    ensures
        min_rank(r, ns) <= r(ns[k]),
    decreases ns.len(),
{
    if ns.len() > 1 && k < ns.len() - 1 {
        lemma_min_rank_bounds(r, ns.drop_last(), k);
    }
}

/// At a fixpoint of a round, every union's constraint already holds.
proof fn lemma_settled_step(edges: Seq<RelEdge>, us: Seq<NodeRef>, r: Ranks, k: int)
    requires
        rank_round(edges, us, r) == r,
        0 <= k < us.len(),
    ensures
        union_step(edges, r, us[k]) == r,
{
    assert forall|n: NodeRef| #[trigger] rank_round(edges, us.take(k), r)(n) == r(n) by {
        lemma_round_grows(edges, us.take(k), r, n);
        lemma_round_prefix(edges, us, k, r, n);
    }
    assert(rank_round(edges, us.take(k), r) =~= r);
    assert forall|n: NodeRef| #[trigger] rank_round(edges, us.take(k + 1), r)(n) == r(n) by {
        lemma_round_grows(edges, us.take(k + 1), r, n);
        lemma_round_prefix(edges, us, k + 1, r, n);
    }
    assert(us.take(k + 1).drop_last() =~= us.take(k));
    assert(rank_round(edges, us.take(k + 1), r) =~= r);
}

/// Whether the ranking reached a fixpoint within its rounds (on a graph
/// without cycles it always does).
pub open spec fn ranks_settled(g: RelativeGraph) -> bool {
    rank_round(g.edges@, union_nodes(g), graph_ranks(g)) == graph_ranks(g)
}

/// Once the ranks settle, every union sits on the layer just below its
/// partners, who all share one layer, and every child of it sits below the
/// union.
pub proof fn law_union_between_generations(g: RelativeGraph, k: int, p: NodeRef, c: NodeRef)
    requires
        ranks_settled(g),
        0 <= k < g.unions@.len(),
    ensures
        linked(g.edges@, g.unions@[k].node, true).contains(p) ==> node_layer(g, LRef::Person(p)) + 1 == node_layer(
            g,
            LRef::Union(g.unions@[k].node),
        ),
        linked(g.edges@, g.unions@[k].node, false).contains(c) ==> node_layer(g, LRef::Person(c)) >= node_layer(
            g,
            LRef::Union(g.unions@[k].node),
        ) + 1,
{
    let r = graph_ranks(g);
    let us = union_nodes(g);
    let u = g.unions@[k].node;
    assert(us[k] == u);
    lemma_settled_step(g.edges@, us, r, k);
    let ps = linked(g.edges@, u, true);
    let cs = linked(g.edges@, u, false);
    let pr = max_rank(r, ps);
    let r1 = raise(r, ps, pr);
    assert(union_step(g.edges@, r, u) == raise(r1, cs, pr + 1));
    if ps.contains(p) {
        let i = choose|i: int| 0 <= i < ps.len() && ps[i] == p;
        lemma_max_rank_bounds(r, ps, i);
        assert(raise(r1, cs, pr + 1)(p) == r(p));
    }
    if cs.contains(c) {
        assert(raise(r1, cs, pr + 1)(c) == r(c));
        assert(r(c) >= pr + 1);
        if ps.len() == 0 {
            let j = choose|j: int| 0 <= j < cs.len() && cs[j] == c;
            lemma_min_rank_bounds(r, cs, j);
        }
    }
}

/// The layer of a node of the layered graph, a dummy's from `ds`.
pub open spec fn link_layer(g: RelativeGraph, ds: Seq<i32>, n: LRef) -> int {
    match n {
        LRef::Dummy(i) => ds[i as int] as int,
        _ => node_layer(g, n),
    }
}

/// Whether every link joins a node to one on the next layer down, and names
/// only dummies there are.
pub open spec fn links_adjacent(g: RelativeGraph, st: Split) -> bool {
    forall|k: int|
        0 <= k < st.links.len() ==> {
            &&& (#[trigger] st.links[k]).0 matches LRef::Dummy(i) ==> i < st.dummies.len()
            &&& st.links[k].1 matches LRef::Dummy(i) ==> i < st.dummies.len()
            &&& link_layer(g, st.dummies, st.links[k].1) == link_layer(g, st.dummies, st.links[k].0) + 1
        }
}

/// Ranks are never negative.
proof fn lemma_ranks_nonneg(g: RelativeGraph, n: NodeRef)
    ensures
        graph_ranks(g)(n) >= 0,
{
    lemma_fix_grows(g.edges@, union_nodes(g), 0, (g.persons@.len() + 4) as nat, n);
}

/// The largest and smallest ranks among nodes ranked within `0..=b` lie
/// there too.
proof fn lemma_rank_range(r: Ranks, ns: Seq<NodeRef>, b: int)
    requires
        forall|n: NodeRef| 0 <= #[trigger] r(n) <= b,
    ensures
        0 <= max_rank(r, ns) <= b,
        0 <= min_rank(r, ns) <= b,
    decreases ns.len(),
{
    if ns.len() > 0 {
        lemma_rank_range(r, ns.drop_last(), b);
        assert(0 <= r(ns.last()) <= b);
        assert(0 <= r(ns[0]) <= b);
    }
}

/// With ranks that fit, every person or union layer lies in
/// `0..=2 · rank_limit + 1`.
proof fn lemma_layer_range(g: RelativeGraph, n: LRef)
    requires
        ranks_fit(g),
        !(n is Dummy),
    ensures
        0 <= node_layer(g, n) <= 2 * rank_limit() + 1,
{
    let r = graph_ranks(g);
    assert forall|m: NodeRef| 0 <= #[trigger] r(m) <= rank_limit() by {
        lemma_ranks_nonneg(g, m);
    }
    if let LRef::Union(u) = n {
        lemma_rank_range(r, linked(g.edges@, u, true), rank_limit());
        lemma_rank_range(r, linked(g.edges@, u, false), rank_limit());
    }
}

/// Persons sit on even layers, unions on odd ones.
proof fn lemma_layer_parity(g: RelativeGraph, n: LRef)
    requires
        !(n is Dummy),
    ensures
        n is Person ==> node_layer(g, n) % 2 == 0,
        n is Union ==> node_layer(g, n) % 2 == 1,
{
}

/// Every edge joins a person and a union, so its two ends are an odd number
/// of layers apart.
proof fn lemma_edge_odd(g: RelativeGraph, e: RelEdge)
    ensures
        (node_layer(g, edge_ends(e).0) - node_layer(g, edge_ends(e).1)) % 2 == 1,
{
    let (a, b, _) = edge_ends(e);
    lemma_layer_parity(g, a);
    lemma_layer_parity(g, b);
}

/// Splitting edges keeps every link between adjacent layers.
proof fn lemma_split_adjacent(g: RelativeGraph, es: Seq<RelEdge>)
    requires
        split_edges(g, es).dummies.len() <= u32::MAX,
        ranks_fit(g),
    ensures
        links_adjacent(g, split_edges(g, es)),
    decreases es.len(),
{
    if es.len() > 0 {
        let st = split_edges(g, es.drop_last());
        lemma_split_grows(g, es, es.len() - 1);
        assert(es.take(es.len() - 1) =~= es.drop_last());
        lemma_split_adjacent(g, es.drop_last());
        let e = es.last();
        let (a, b, key) = edge_ends(e);
        let la = node_layer(g, a);
        let lb = node_layer(g, b);
        lemma_edge_odd(g, e);
        let st2 = split_one(g, st, e);
        assert(st2 == split_edges(g, es));
        let (top, bot, lt, lo) = if la <= lb {
            (a, b, la, lb)
        } else {
            (b, a, lb, la)
        };
        assert((lo - lt) % 2 == 1);
        lemma_layer_parity(g, a);
        lemma_layer_parity(g, b);
        lemma_layer_range(g, a);
        lemma_layer_range(g, b);
        assert forall|k: int| 0 <= k < st2.links.len() implies {
            &&& (#[trigger] st2.links[k]).0 matches LRef::Dummy(i) ==> i < st2.dummies.len()
            &&& st2.links[k].1 matches LRef::Dummy(i) ==> i < st2.dummies.len()
            &&& link_layer(g, st2.dummies, st2.links[k].1) == link_layer(g, st2.dummies, st2.links[k].0) + 1
        } by {
            if k < st.links.len() {
                assert(st2.links[k] == st.links[k]);
                if let LRef::Dummy(i) = st.links[k].0 {
                    assert(st2.dummies[i as int] == st.dummies[i as int]);
                }
                if let LRef::Dummy(i) = st.links[k].1 {
                    assert(st2.dummies[i as int] == st.dummies[i as int]);
                }
            } else if lo - lt <= 1 {
                assert(st2.links[k] == (top, bot));
                assert(link_layer(g, st2.dummies, top) == lt);
                assert(link_layer(g, st2.dummies, bot) == lo);
            } else {
                let n = st.dummies.len() as int;
                let kk = lo - lt - 1;
                let i = k - st.links.len();
                assert(st2.dummies.len() == n + kk);
                assert(st2.links[k] == (
                    if i == 0 {
                        top
                    } else {
                        LRef::Dummy((n + i - 1) as u32)
                    },
                    if i == kk {
                        bot
                    } else {
                        LRef::Dummy((n + i) as u32)
                    },
                ));
                if i == 0 {
                    assert(link_layer(g, st2.dummies, st2.links[k].0) == lt);
                } else {
                    assert(((n + i - 1) as u32) as int == n + i - 1);
                    assert(st2.dummies[n + i - 1] == (lt + 1 + (i - 1)) as i32);
                    assert(link_layer(g, st2.dummies, st2.links[k].0) == lt + i);
                }
                if i == kk {
                    assert(link_layer(g, st2.dummies, st2.links[k].1) == lo);
                } else {
                    assert(((n + i) as u32) as int == n + i);
                    assert(st2.dummies[n + i] == (lt + 1 + i) as i32);
                    assert(link_layer(g, st2.dummies, st2.links[k].1) == lt + i + 1);
                }
            }
        }
    }
}

/// Every link of the layered chart runs from a node to one on the next
/// layer down: a long edge's chain steps through its dummies one layer at a
/// time.
pub proof fn law_links_join_adjacent_layers(g: RelativeGraph)
    requires
        layers_fit(g),
    ensures
        links_adjacent(g, split_edges(g, g.edges@)),
{
    lemma_split_adjacent(g, g.edges@);
}

} // verus!
