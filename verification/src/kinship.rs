//! The kinship graph of the ancestral shrine: the officers tied to the
//! ruler by marriage or descent, reached breadth-first, and the generation
//! of each relative to the ruler.

use vstd::prelude::*;
use crate::game::{Faction, GameState, OfficerGender, officer_index};
use crate::shrine::{ShrineKinshipEdge, ShrineKinshipEdgeKind, kinship_ties, lists_ties, shrine_all_kinship_edges, tie_record_count};
use crate::tags::{TagSet, lemma_ascending_insert, strictly_ascending};
use crate::text::{owned, str_eq};

verus! {

/// The officers tied to `x` by an edge of `es`, in either direction.
pub open spec fn neighbour_set(es: Seq<ShrineKinshipEdge>, x: Seq<char>) -> Set<Seq<char>> {
    Set::new(
        |y: Seq<char>| exists|i: int| 0 <= i < es.len() && ((es[i].from_id@ == x && es[i].to_id@ == y) || (es[i].to_id@ == x && es[i].from_id@ == y)),
    )
}

/// The neighbours of `x`, ascending by identifier, each once.
pub open spec fn neighbour_list(es: Seq<ShrineKinshipEdge>, x: Seq<char>) -> Seq<Seq<char>> {
    choose|l: Seq<Seq<char>>| strictly_ascending(l) && l.to_set() == neighbour_set(es, x)
}

/// A state of the search: the officers discovered so far, in the order
/// found, and how many of them have been expanded.
pub type SearchState = (Seq<Seq<char>>, int);

/// One step of the search: the next officer not yet expanded adds its
/// neighbours not yet discovered, in ascending order, to the end of the
/// list. A finished search stays as it is.
pub open spec fn search_step(es: Seq<ShrineKinshipEdge>, s: SearchState) -> SearchState {
    let (found, head) = s;
    if head < 0 || head >= found.len() {
        s
    } else {
        let x = found[head];
        (found + neighbour_list(es, x).filter(|n: Seq<char>| !found.contains(n)), head + 1)
    }
}

/// The search from `start` after `k` steps.
pub open spec fn search_after(es: Seq<ShrineKinshipEdge>, start: Seq<char>, k: nat) -> SearchState
    decreases k,
{
    if k == 0 {
        (seq![start], 0)
    } else {
        search_step(es, search_after(es, start, (k - 1) as nat))
    }
}

/// `order` is the breadth-first order of the officers tied to `start`:
/// the search from `start`, run until every discovered officer has been
/// expanded, discovers exactly `order`.
pub open spec fn breadth_first_order(es: Seq<ShrineKinshipEdge>, start: Seq<char>, order: Seq<Seq<char>>) -> bool {
    exists|k: nat| #[trigger] search_after(es, start, k) == (order, order.len() as int)
}

/// Officer `b` is tied to officer `a` by an edge of `es`, in either direction.
pub open spec fn tied(es: Seq<ShrineKinshipEdge>, a: Seq<char>, b: Seq<char>) -> bool {
    neighbour_set(es, a).contains(b)
}

/// The officers tied to `x` by one of the first `n` edges of `es`.
spec fn neighbours_among(es: Seq<ShrineKinshipEdge>, x: Seq<char>, n: int) -> Set<Seq<char>> {
    Set::new(
        |y: Seq<char>| exists|j: int| 0 <= j < n && ((es[j].from_id@ == x && es[j].to_id@ == y) || (es[j].to_id@ == x && es[j].from_id@ == y)),
    )
}

/// The officers tied to `x` by the first `n` edges can be listed in
/// ascending order.
proof fn lemma_neighbours_among_listed(es: Seq<ShrineKinshipEdge>, x: Seq<char>, n: int) -> (l: Seq<Seq<char>>)
    requires
        0 <= n <= es.len(),
    ensures
        strictly_ascending(l),
        l.to_set() == neighbours_among(es, x, n),
    decreases n,
{
    if n == 0 {
        let l = Seq::<Seq<char>>::empty();
        assert(l.to_set() =~= neighbours_among(es, x, 0));
        l
    } else {
        let l0 = lemma_neighbours_among_listed(es, x, n - 1);
        let e = es[n - 1];
        let l1 = if e.from_id@ == x { lemma_ascending_insert(l0, e.to_id@) } else { l0 };
        let l2 = if e.to_id@ == x { lemma_ascending_insert(l1, e.from_id@) } else { l1 };
        let before = neighbours_among(es, x, n - 1);
        let target = neighbours_among(es, x, n);
        assert forall|y: Seq<char>| #[trigger] l2.to_set().contains(y) <==> target.contains(y) by {
            if target.contains(y) {
                let j = choose|j: int| 0 <= j < n && ((es[j].from_id@ == x && es[j].to_id@ == y) || (es[j].to_id@ == x && es[j].from_id@ == y));
                if j < n - 1 {
                    assert(before.contains(y));
                }
            }
            if l2.to_set().contains(y) && !before.contains(y) {
                assert(e.from_id@ == x && e.to_id@ == y || e.to_id@ == x && e.from_id@ == y);
            }
        }
        assert(l2.to_set() =~= target);
        l2
    }
}

/// The neighbour list of `x` is ascending and holds exactly its neighbours.
pub proof fn lemma_neighbour_list(es: Seq<ShrineKinshipEdge>, x: Seq<char>)
    ensures
        strictly_ascending(neighbour_list(es, x)),
        neighbour_list(es, x).to_set() == neighbour_set(es, x),
{
    let l = lemma_neighbours_among_listed(es, x, es.len() as int);
    assert(neighbours_among(es, x, es.len() as int) =~= neighbour_set(es, x));
    assert(strictly_ascending(l) && l.to_set() == neighbour_set(es, x));
}

/// Some officer among the first `h` of `f`, and before position `j`, is tied
/// to the officer at `j`.
pub open spec fn tied_to_earlier(es: Seq<ShrineKinshipEdge>, f: Seq<Seq<char>>, h: int, j: int) -> bool {
    exists|i: int| 0 <= i < h && i < j && #[trigger] tied(es, f[i], f[j])
}

/// If the officer at `j2` is tied to the one at `i`, the officer at `j1`
/// (listed after the first, before `j2`) is tied to one at `i` or before.
pub open spec fn layered_at(es: Seq<ShrineKinshipEdge>, f: Seq<Seq<char>>, j1: int, j2: int, i: int) -> bool {
    1 <= j1 < j2 < f.len() && 0 <= i < f.len() && tied(es, f[i], f[j2]) ==> tied_to_earlier(es, f, i + 1, j1)
}

/// What holds of every state `(f, h)` of the search from `start`.
#[verifier::opaque]
spec fn search_shape(es: Seq<ShrineKinshipEdge>, start: Seq<char>, f: Seq<Seq<char>>, h: int) -> bool {
    &&& 1 <= f.len() && f[0] == start && 0 <= h <= f.len()
    &&& forall|j: int| 1 <= j < f.len() ==> #[trigger] tied_to_earlier(es, f, h, j)
    &&& forall|i: int, y: Seq<char>| 0 <= i < h && #[trigger] tied(es, f[i], y) ==> f.contains(y)
    &&& forall|j1: int, j2: int, i: int| #[trigger] layered_at(es, f, j1, j2, i)
}

proof fn lemma_search_shape(es: Seq<ShrineKinshipEdge>, start: Seq<char>, k: nat)
    ensures
        search_shape(es, start, search_after(es, start, k).0, search_after(es, start, k).1),
    decreases k,
{
    reveal(search_shape);
    if k == 0 {
        let f = seq![start];
        assert(search_after(es, start, 0) == (f, 0int));
    } else {
        lemma_search_shape(es, start, (k - 1) as nat);
        let (f, h) = search_after(es, start, (k - 1) as nat);
        assert(search_after(es, start, k) == search_step(es, (f, h)));
        if h < f.len() {
            let x = f[h];
            let nl = neighbour_list(es, x);
            let keep = |n: Seq<char>| !f.contains(n);
            let add = nl.filter(keep);
            let g = f + add;
            assert(search_after(es, start, k) == (g, h + 1));
            lemma_neighbour_list(es, x);
            assert forall|m: int| 0 <= m < add.len() implies tied(es, x, #[trigger] add[m]) && !f.contains(add[m]) by {
                nl.lemma_filter_pred(keep, m);
                assert(add.contains(add[m]));
                nl.lemma_filter_contains_rev(keep, add[m]);
                assert(nl.to_set().contains(add[m]));
            }
            assert forall|y: Seq<char>| #[trigger] tied(es, x, y) implies g.contains(y) by {
                assert(nl.to_set().contains(y));
                let q = choose|q: int| 0 <= q < nl.len() && nl[q] == y;
                if f.contains(y) {
                    let m = choose|m: int| 0 <= m < f.len() && f[m] == y;
                    assert(g[m] == y);
                } else {
                    nl.lemma_filter_contains(keep, q);
                    let m = choose|m: int| 0 <= m < add.len() && add[m] == y;
                    assert(g[f.len() + m] == y);
                }
            }
            assert forall|j: int| 1 <= j < g.len() implies #[trigger] tied_to_earlier(es, g, h + 1, j) by {
                if j < f.len() {
                    assert(tied_to_earlier(es, f, h, j));
                    let i = choose|i: int| 0 <= i < h && i < j && #[trigger] tied(es, f[i], f[j]);
                    assert(g[i] == f[i] && g[j] == f[j]);
                    assert(tied(es, g[i], g[j]));
                } else {
                    assert(g[j] == add[j - f.len()]);
                    assert(tied(es, x, add[j - f.len()]));
                    assert(g[h] == x);
                    assert(tied(es, g[h], g[j]));
                }
            }
            assert forall|i: int, y: Seq<char>| 0 <= i < h + 1 && #[trigger] tied(es, g[i], y) implies g.contains(y) by {
                assert(g[i] == f[i]);
                if i < h {
                    assert(f.contains(y));
                    let m = choose|m: int| 0 <= m < f.len() && f[m] == y;
                    assert(g[m] == y);
                }
            }
            assert forall|j1: int, j2: int, i: int| #[trigger] layered_at(es, g, j1, j2, i) by {
              if 1 <= j1 < j2 < g.len() && 0 <= i < g.len() && tied(es, g[i], g[j2]) {
                if j1 < f.len() {
                    assert(g[j1] == f[j1]);
                    assert(tied_to_earlier(es, f, h, j1));
                    let p = choose|p: int| 0 <= p < h && p < j1 && #[trigger] tied(es, f[p], f[j1]);
                    assert(g[p] == f[p]);
                    if j2 < f.len() && i < f.len() {
                        assert(g[i] == f[i] && g[j2] == f[j2]);
                        assert(layered_at(es, f, j1, j2, i));
                        assert(tied_to_earlier(es, f, i + 1, j1));
                        let p2 = choose|p2: int| 0 <= p2 < i + 1 && p2 < j1 && #[trigger] tied(es, f[p2], f[j1]);
                        assert(g[p2] == f[p2]);
                        assert(tied(es, g[p2], g[j1]));
                    } else if j2 < f.len() {
                        assert(tied(es, g[p], g[j1]));
                    } else {
                        assert(g[j2] == add[j2 - f.len()]);
                        assert(!f.contains(g[j2]));
                        if i < h {
                            assert(g[i] == f[i]);
                            assert(tied(es, f[i], g[j2]));
                            assert(f.contains(g[j2]));
                        }
                        assert(tied(es, g[p], g[j1]));
                    }
                } else {
                    assert(g[j2] == add[j2 - f.len()]);
                    assert(!f.contains(g[j2]));
                    if i < h {
                        assert(g[i] == f[i]);
                        assert(tied(es, f[i], g[j2]));
                        assert(f.contains(g[j2]));
                    }
                    assert(g[j1] == add[j1 - f.len()]);
                    assert(tied(es, x, add[j1 - f.len()]));
                    assert(g[h] == x);
                    assert(tied(es, g[h], g[j1]));
                }
              }
            }
            assert(search_shape(es, start, g, h + 1));
        } else {
            assert(search_after(es, start, k) == (f, h));
        }
    }
}

/// The breadth-first order from `start` begins with `start`; every officer
/// after it is tied to one listed before it, so every listed officer is
/// reached from `start`; every officer tied to a listed one is listed, so
/// every officer reached from `start` is listed; and the order goes by
/// distance: of two officers after the first, the one listed earlier is tied
/// to a listed officer at or before any listed officer the later one is tied
/// to.
pub proof fn lemma_breadth_first_order_shape(es: Seq<ShrineKinshipEdge>, start: Seq<char>, order: Seq<Seq<char>>)
    requires
        breadth_first_order(es, start, order),
    ensures
        order.len() >= 1,
        order[0] == start,
        forall|j: int| 1 <= j < order.len() ==> #[trigger] tied_to_earlier(es, order, j, j),
        forall|i: int, y: Seq<char>| 0 <= i < order.len() && #[trigger] tied(es, order[i], y) ==> order.contains(y),
        forall|j1: int, j2: int, i: int| #[trigger] layered_at(es, order, j1, j2, i),
{
    let k = choose|k: nat| #[trigger] search_after(es, start, k) == (order, order.len() as int);
    lemma_search_shape(es, start, k);
    assert(search_shape(es, start, order, order.len() as int));
    assert(order.len() >= 1 && order[0] == start) by {
        reveal(search_shape);
    }
    assert forall|j: int| 1 <= j < order.len() implies #[trigger] tied_to_earlier(es, order, j, j) by {
        reveal(search_shape);
        assert(tied_to_earlier(es, order, order.len() as int, j));
        let i = choose|i: int| 0 <= i < order.len() && i < j && #[trigger] tied(es, order[i], order[j]);
        assert(tied(es, order[i], order[j]));
    }
    assert forall|i: int, y: Seq<char>| 0 <= i < order.len() && #[trigger] tied(es, order[i], y) implies order.contains(y) by {
        reveal(search_shape);
    }
    assert forall|j1: int, j2: int, i: int| #[trigger] layered_at(es, order, j1, j2, i) by {
        reveal(search_shape);
    }
}

/// The officer at `k` in `p` is tied to the one after it.
pub open spec fn linked(es: Seq<ShrineKinshipEdge>, p: Seq<Seq<char>>, k: int) -> bool {
    tied(es, p[k], p[k + 1])
}

/// `p` is a chain of officers, each tied to the next.
pub open spec fn kin_chain(es: Seq<ShrineKinshipEdge>, p: Seq<Seq<char>>) -> bool {
    p.len() >= 1 && forall|k: int| 0 <= k < p.len() - 1 ==> #[trigger] linked(es, p, k)
}

/// Officer `x` is reached from `start` by a chain of ties.
pub open spec fn reachable(es: Seq<ShrineKinshipEdge>, start: Seq<char>, x: Seq<char>) -> bool {
    exists|p: Seq<Seq<char>>| #[trigger] kin_chain(es, p) && p[0] == start && p.last() == x
}

proof fn lemma_listed_reachable(es: Seq<ShrineKinshipEdge>, start: Seq<char>, order: Seq<Seq<char>>, j: int)
    requires
        0 <= j < order.len(),
        order[0] == start,
        forall|m: int| 1 <= m < order.len() ==> #[trigger] tied_to_earlier(es, order, m, m),
    ensures
        reachable(es, start, order[j]),
    decreases j,
{
    if j == 0 {
        let p = seq![start];
        assert(kin_chain(es, p));
    } else {
        assert(tied_to_earlier(es, order, j, j));
        let i = choose|i: int| 0 <= i < j && i < j && #[trigger] tied(es, order[i], order[j]);
        lemma_listed_reachable(es, start, order, i);
        let p = choose|p: Seq<Seq<char>>| #[trigger] kin_chain(es, p) && p[0] == start && p.last() == order[i];
        let q = p.push(order[j]);
        assert forall|k: int| 0 <= k < q.len() - 1 implies #[trigger] linked(es, q, k) by {
            if k < p.len() - 1 {
                assert(linked(es, p, k));
            }
        }
        assert(kin_chain(es, q));
    }
}

proof fn lemma_reachable_listed(es: Seq<ShrineKinshipEdge>, order: Seq<Seq<char>>, p: Seq<Seq<char>>, n: int)
    requires
        kin_chain(es, p),
        0 <= n < p.len(),
        order.contains(p[0]),
        forall|i: int, y: Seq<char>| 0 <= i < order.len() && #[trigger] tied(es, order[i], y) ==> order.contains(y),
    ensures
        order.contains(p[n]),
    decreases n,
{
    if n > 0 {
        lemma_reachable_listed(es, order, p, n - 1);
        assert(linked(es, p, n - 1));
        let i = choose|i: int| 0 <= i < order.len() && order[i] == p[n - 1];
        assert(tied(es, order[i], p[n]));
    }
}

/// The breadth-first order from `start` lists exactly the officers reached
/// from `start` by a chain of ties.
pub proof fn lemma_breadth_first_order_reaches(es: Seq<ShrineKinshipEdge>, start: Seq<char>, order: Seq<Seq<char>>)
    requires
        breadth_first_order(es, start, order),
    ensures
        forall|x: Seq<char>| #[trigger] order.contains(x) <==> reachable(es, start, x),
{
    lemma_breadth_first_order_shape(es, start, order);
    assert forall|x: Seq<char>| #[trigger] order.contains(x) <==> reachable(es, start, x) by {
        if order.contains(x) {
            let j = choose|j: int| 0 <= j < order.len() && order[j] == x;
            lemma_listed_reachable(es, start, order, j);
        }
        if reachable(es, start, x) {
            let p = choose|p: Seq<Seq<char>>| #[trigger] kin_chain(es, p) && p[0] == start && p.last() == x;
            assert(order.contains(p[0])) by {
                assert(order[0] == start);
            }
            lemma_reachable_listed(es, order, p, p.len() - 1);
        }
    }
}

/// The neighbours of `x` as an ascending set of identifiers.
fn neighbours_of(edges: &Vec<ShrineKinshipEdge>, x: &str) -> (ns: TagSet)
    ensures
        strictly_ascending(ns@),
        ns@.to_set() == neighbour_set(edges@, x@),
        ns@ == neighbour_list(edges@, x@),
{
    let ghost es = edges@;
    let mut ns = TagSet::new();
    let mut i: usize = 0;
    while i < edges.len()
        invariant
            es == edges@,
            i <= es.len(),
            strictly_ascending(ns@),
            ns@.to_set() == Set::new(
                |y: Seq<char>| exists|j: int| 0 <= j < i && ((es[j].from_id@ == x@ && es[j].to_id@ == y) || (es[j].to_id@ == x@ && es[j].from_id@ == y)),
            ),
        decreases es.len() - i,
    {
        let e = &edges[i];
        let ghost before = ns@.to_set();
        if str_eq(e.from_id.as_str(), x) {
            ns.insert(owned(e.to_id.as_str()));
        }
        let ghost mid = ns@.to_set();
        if str_eq(e.to_id.as_str(), x) {
            ns.insert(owned(e.from_id.as_str()));
        }
        proof {
            let target = Set::new(
                |y: Seq<char>| exists|j: int| 0 <= j < i + 1 && ((es[j].from_id@ == x@ && es[j].to_id@ == y) || (es[j].to_id@ == x@ && es[j].from_id@ == y)),
            );
            assert forall|y: Seq<char>| #[trigger] ns@.to_set().contains(y) <==> target.contains(y) by {
                if target.contains(y) {
                    let j = choose|j: int| 0 <= j < i + 1 && ((es[j].from_id@ == x@ && es[j].to_id@ == y) || (es[j].to_id@ == x@ && es[j].from_id@ == y));
                    if j < i {
                        assert(before.contains(y));
                    }
                }
                if ns@.to_set().contains(y) && !before.contains(y) {
                    assert(es[i as int].from_id@ == x@ && es[i as int].to_id@ == y || es[i as int].to_id@ == x@ && es[i as int].from_id@ == y);
                }
            }
            assert(ns@.to_set() =~= target);
        }
        i = i + 1;
    }
    proof {
        assert(ns@.to_set() =~= neighbour_set(es, x@));
        let l = neighbour_list(es, x@);
        assert(strictly_ascending(l) && l.to_set() == neighbour_set(es, x@));
        crate::tags::lemma_ascending_unique(ns@, l);
    }
    ns
}

/// The identifiers of a list of names.
pub open spec fn ids_of(v: Seq<String>) -> Seq<Seq<char>> {
    v.map_values(|s: String| s@)
}

/// Every identifier the search can reach from `start`: `start` and the ends
/// of every edge.
pub open spec fn universe(es: Seq<ShrineKinshipEdge>, start: Seq<char>) -> Seq<Seq<char>> {
    seq![start] + es.map_values(|e: ShrineKinshipEdge| e.from_id@) + es.map_values(|e: ShrineKinshipEdge| e.to_id@)
}

/// The universe holds both ends of every edge.
#[verifier::spinoff_prover]
proof fn lemma_universe_has_ends(es: Seq<ShrineKinshipEdge>, start: Seq<char>)
    ensures
        universe(es, start).len() == 1 + 2 * es.len(),
        forall|k: int| 0 <= k < es.len() ==> universe(es, start).contains(#[trigger] es[k].from_id@) && universe(es, start).contains(es[k].to_id@),
{
    let u = universe(es, start);
    assert forall|k: int| 0 <= k < es.len() implies universe(es, start).contains(#[trigger] es[k].from_id@)
        && universe(es, start).contains(es[k].to_id@) by {
        assert(u[1 + k] == es[k].from_id@);
        assert(u[1 + es.len() + k] == es[k].to_id@);
    }
}

fn listed(v: &Vec<String>, x: &str) -> (b: bool)
    ensures
        b == ids_of(v@).contains(x@),
{
    let mut i: usize = 0;
    while i < v.len()
        invariant
            i <= v@.len(),
            forall|k: int| 0 <= k < i ==> (#[trigger] v@[k])@ != x@,
        decreases v@.len() - i,
    {
        if str_eq(v[i].as_str(), x) {
            assert(ids_of(v@)[i as int] == x@);
            return true;
        }
        i = i + 1;
    }
    proof {
        if ids_of(v@).contains(x@) {
            let k = choose|k: int| 0 <= k < ids_of(v@).len() && ids_of(v@)[k] == x@;
            assert(v@[k]@ == x@);
        }
    }
    false
}

/// A list of distinct identifiers drawn from `u` is no longer than `u`.
proof fn lemma_distinct_within(found: Seq<Seq<char>>, u: Seq<Seq<char>>)
    requires
        found.no_duplicates(),
        forall|i: int| 0 <= i < found.len() ==> u.contains(#[trigger] found[i]),
    ensures
        found.len() <= u.len(),
{
    broadcast use vstd::seq_lib::seq_to_set_is_finite;
    found.unique_seq_to_set();
    u.lemma_cardinality_of_set();
    assert(found.to_set().subset_of(u.to_set())) by {
        assert forall|x: Seq<char>| found.to_set().contains(x) implies u.to_set().contains(x) by {
            let i = choose|i: int| 0 <= i < found.len() && found[i] == x;
            assert(u.contains(found[i]));
        }
    }
    vstd::set_lib::lemma_len_subset(found.to_set(), u.to_set());
}

/// The officers tied to the ruler `ruler_id` through `edges`, in
/// breadth-first order from the ruler, neighbours in ascending identifier
/// order; the ruler comes first.
pub fn shrine_connected_kinship_order(ruler_id: &str, edges: &Vec<ShrineKinshipEdge>) -> (order: Vec<String>)
    ensures
        breadth_first_order(edges@, ruler_id@, ids_of(order@)),
{
    let ghost es = edges@;
    let ghost start = ruler_id@;
    let ghost u = universe(es, start);
    let mut found: Vec<String> = Vec::new();
    found.push(owned(ruler_id));
    let mut head: usize = 0;
    let ghost bound: int = 1 + 2 * edges.len();
    proof {
        assert(ids_of(found@) =~= seq![start]);
        assert(u[0] == start);
    }
    while head < found.len()
        invariant
            es == edges@,
            start == ruler_id@,
            u == universe(es, start),
            bound == 1 + 2 * es.len(),
            u.len() == bound,
            head <= found@.len(),
            search_after(es, start, head as nat) == (ids_of(found@), head as int),
            ids_of(found@).no_duplicates(),
            forall|i: int| 0 <= i < found@.len() ==> u.contains(#[trigger] ids_of(found@)[i]),
            found@.len() <= bound,
        decreases bound - head,
    {
        let x = owned(found[head].as_str());
        let ns = neighbours_of(edges, x.as_str());
        let ghost q0 = ids_of(found@);
        let ghost keep = |n: Seq<char>| !q0.contains(n);
        let ghost nl = ns@;
        proof {
            assert(x@ == q0[head as int]);
            assert forall|k: int| 0 <= k < nl.len() implies u.contains(#[trigger] nl[k]) by {
                assert(nl.to_set().contains(nl[k]));
                assert(neighbour_set(es, x@).contains(nl[k]));
                let i = choose|i: int| 0 <= i < es.len() && ((es[i].from_id@ == x@ && es[i].to_id@ == nl[k]) || (es[i].to_id@ == x@ && es[i].from_id@ == nl[k]));
                if es[i].to_id@ == nl[k] {
                    assert(u[1 + es.len() + i] == nl[k]);
                } else {
                    assert(u[1 + i] == nl[k]);
                }
            }
        }
        let mut j: usize = 0;
        while j < ns.len()
            invariant
                nl == ns@,
                strictly_ascending(nl),
                keep == (|n: Seq<char>| !q0.contains(n)),
                j <= nl.len(),
                ids_of(found@) == q0 + nl.take(j as int).filter(keep),
                ids_of(found@).no_duplicates(),
                forall|i: int| 0 <= i < found@.len() ==> u.contains(#[trigger] ids_of(found@)[i]),
                forall|k: int| 0 <= k < nl.len() ==> u.contains(#[trigger] nl[k]),
                u.len() == bound,
            decreases nl.len() - j,
        {
            let n = ns.get(j);
            let ghost pre = nl.take(j as int);
            assert(nl.take(j as int + 1).drop_last() =~= pre);
            assert(nl.take(j as int + 1).last() == nl[j as int]);
            assert(nl.take(j as int + 1).filter(keep) == if keep(nl[j as int]) {
                pre.filter(keep).push(nl[j as int])
            } else {
                pre.filter(keep)
            }) by {
                reveal(Seq::filter);
            }
            proof {
                assert forall|k: int| 0 <= k < pre.filter(keep).len() implies pre.filter(keep)[k] != nl[j as int] by {
                    assert(pre.filter(keep).contains(pre.filter(keep)[k]));
                    pre.lemma_filter_contains_rev(keep, pre.filter(keep)[k]);
                    assert(pre.contains(pre.filter(keep)[k]));
                    let m = choose|m: int| 0 <= m < pre.len() && pre[m] == pre.filter(keep)[k];
                    assert(m < j);
                    crate::text::lemma_seq_lt_irreflexive(nl[j as int]);
                }
            }
            let seen = listed(&found, n);
            proof {
                if !keep(nl[j as int]) {
                    assert(q0.contains(nl[j as int]));
                    let m = choose|m: int| 0 <= m < q0.len() && q0[m] == nl[j as int];
                    assert(ids_of(found@)[m] == nl[j as int]);
                }
                if seen && keep(nl[j as int]) {
                    let m = choose|m: int| 0 <= m < ids_of(found@).len() && ids_of(found@)[m] == nl[j as int];
                    if m < q0.len() {
                        assert(q0[m] == ids_of(found@)[m]);
                    } else {
                        assert(ids_of(found@)[m] == pre.filter(keep)[m - q0.len()]);
                    }
                }
            }
            if !seen {
                let ghost before = found@;
                found.push(owned(n));
                proof {
                    assert(ids_of(found@) =~= ids_of(before).push(n@));
                    assert forall|i: int| 0 <= i < found@.len() implies u.contains(#[trigger] ids_of(found@)[i]) by {
                        if i < before.len() {
                            assert(ids_of(found@)[i] == ids_of(before)[i]);
                        }
                    }
                }
            }
            j = j + 1;
        }
        proof {
            assert(nl.take(nl.len() as int) =~= nl);
            assert(search_after(es, start, (head + 1) as nat) == search_step(es, search_after(es, start, head as nat)));
            lemma_distinct_within(ids_of(found@), u);
        }
        head = head + 1;
    }
    proof {
        let k = head as nat;
        assert(search_after(es, start, k) == (ids_of(found@), ids_of(found@).len() as int));
    }
    found
}

/// Gives `unknown` the generation of `known` plus `delta`, when `known` has
/// one and `unknown` has none yet; says whether it did.
pub open spec fn copy_generation(m: Map<Seq<char>, int>, known: Seq<char>, unknown: Seq<char>, delta: int) -> (Map<Seq<char>, int>, bool) {
    if m.contains_key(known) && !m.contains_key(unknown) {
        (m.insert(unknown, m[known] + delta), true)
    } else {
        (m, false)
    }
}

/// What edge `e` passes on: spouses share a generation, a child is one
/// below its parent; a tie of uncertain direction passes nothing.
pub open spec fn edge_pass(m: Map<Seq<char>, int>, e: ShrineKinshipEdge) -> (Map<Seq<char>, int>, bool) {
    let (d1, d2) = match e.kind {
        ShrineKinshipEdgeKind::Spouse => (0int, 0int),
        ShrineKinshipEdgeKind::ParentChild => (1int, -1int),
        ShrineKinshipEdgeKind::WeakParentChild => (0int, 0int),
    };
    if e.kind is WeakParentChild {
        (m, false)
    } else {
        let a = copy_generation(m, e.from_id@, e.to_id@, d1);
        let b = copy_generation(a.0, e.to_id@, e.from_id@, d2);
        (b.0, a.1 || b.1)
    }
}

/// One pass over the first `n` edges of `es`, in order.
pub open spec fn generation_round(m: Map<Seq<char>, int>, es: Seq<ShrineKinshipEdge>, n: int) -> (Map<Seq<char>, int>, bool)
    decreases n,
{
    if n <= 0 {
        (m, false)
    } else {
        let r = generation_round(m, es, n - 1);
        let p = edge_pass(r.0, es[n - 1]);
        (p.0, r.1 || p.1)
    }
}

/// `k` passes over all edges, from `m`.
pub open spec fn generation_rounds(m: Map<Seq<char>, int>, es: Seq<ShrineKinshipEdge>, k: nat) -> Map<Seq<char>, int>
    decreases k,
{
    if k == 0 {
        m
    } else {
        generation_round(generation_rounds(m, es, (k - 1) as nat), es, es.len() as int).0
    }
}

/// The generations of the kinship graph: the ruler is generation 0; as many
/// passes over the edges as there are officers (at least one) pass
/// generations on; every officer still without one is generation 0.
pub open spec fn kinship_generations(ruler: Seq<char>, selected: Seq<Seq<char>>, es: Seq<ShrineKinshipEdge>) -> Map<Seq<char>, int> {
    let rounds: nat = if selected.len() > 1 { selected.len() } else { 1 };
    let m = generation_rounds(map![ruler => 0int], es, rounds);
    Map::new(|k: Seq<char>| m.contains_key(k) || selected.contains(k), |k: Seq<char>| if m.contains_key(k) { m[k] } else { 0 })
}

/// A pass that changes nothing leaves the generations as they were.
proof fn lemma_round_unchanged(m: Map<Seq<char>, int>, es: Seq<ShrineKinshipEdge>, n: int)
    ensures
        !generation_round(m, es, n).1 ==> generation_round(m, es, n).0 == m,
    decreases n,
{
    if n > 0 {
        lemma_round_unchanged(m, es, n - 1);
    }
}

/// Once a pass changes nothing, further passes change nothing either.
proof fn lemma_rounds_stable(m: Map<Seq<char>, int>, es: Seq<ShrineKinshipEdge>, k: nat, extra: nat)
    requires
        generation_round(generation_rounds(m, es, k), es, es.len() as int).0 == generation_rounds(m, es, k),
    ensures
        generation_rounds(m, es, k + extra) == generation_rounds(m, es, k),
    decreases extra,
{
    if extra > 0 {
        lemma_rounds_stable(m, es, k, (extra - 1) as nat);
        assert(generation_rounds(m, es, k + extra) == generation_round(generation_rounds(m, es, (k + extra - 1) as nat), es, es.len() as int).0);
    }
}

/// The ties of `es` agree with the generations `g`: spouses share one, and
/// the second officer of a parent–child tie is one generation below the first.
pub open spec fn ties_consistent(es: Seq<ShrineKinshipEdge>, g: spec_fn(Seq<char>) -> int) -> bool {
    forall|i: int| 0 <= i < es.len() ==> match (#[trigger] es[i]).kind {
        ShrineKinshipEdgeKind::Spouse => g(es[i].to_id@) == g(es[i].from_id@),
        ShrineKinshipEdgeKind::ParentChild => g(es[i].to_id@) == g(es[i].from_id@) + 1,
        ShrineKinshipEdgeKind::WeakParentChild => true,
    }
}

/// Every generation in `m` is that of `g` counted from the ruler's.
spec fn follows_labels(m: Map<Seq<char>, int>, g: spec_fn(Seq<char>) -> int, ruler: Seq<char>) -> bool {
    forall|k: Seq<char>| #[trigger] m.contains_key(k) ==> m[k] == g(k) - g(ruler)
}

proof fn lemma_round_follows_labels(m: Map<Seq<char>, int>, es: Seq<ShrineKinshipEdge>, n: int, g: spec_fn(Seq<char>) -> int, ruler: Seq<char>)
    requires
        ties_consistent(es, g),
        follows_labels(m, g, ruler),
        n <= es.len(),
    ensures
        follows_labels(generation_round(m, es, n).0, g, ruler),
    decreases n,
{
    if n > 0 {
        lemma_round_follows_labels(m, es, n - 1, g, ruler);
        let r = generation_round(m, es, n - 1).0;
        let e = es[n - 1];
        assert(match e.kind {
            ShrineKinshipEdgeKind::Spouse => g(e.to_id@) == g(e.from_id@),
            ShrineKinshipEdgeKind::ParentChild => g(e.to_id@) == g(e.from_id@) + 1,
            ShrineKinshipEdgeKind::WeakParentChild => true,
        });
        let out = edge_pass(r, e).0;
        assert forall|k: Seq<char>| #[trigger] out.contains_key(k) implies out[k] == g(k) - g(ruler) by {
            assert(r.contains_key(k) ==> r[k] == g(k) - g(ruler));
        }
    }
}

proof fn lemma_rounds_follow_labels(m: Map<Seq<char>, int>, es: Seq<ShrineKinshipEdge>, k: nat, g: spec_fn(Seq<char>) -> int, ruler: Seq<char>)
    requires
        ties_consistent(es, g),
        follows_labels(m, g, ruler),
    ensures
        follows_labels(generation_rounds(m, es, k), g, ruler),
    decreases k,
{
    if k > 0 {
        lemma_rounds_follow_labels(m, es, (k - 1) as nat, g, ruler);
        lemma_round_follows_labels(generation_rounds(m, es, (k - 1) as nat), es, es.len() as int, g, ruler);
    }
}

/// The generations that the passes over the ties give out, before officers
/// left without one are put at generation 0.
pub open spec fn passed_generations(ruler: Seq<char>, selected: Seq<Seq<char>>, es: Seq<ShrineKinshipEdge>) -> Map<Seq<char>, int> {
    let rounds: nat = if selected.len() > 1 { selected.len() } else { 1 };
    generation_rounds(map![ruler => 0int], es, rounds)
}

/// Where the ties agree with some generations `g`, every officer who gets a
/// generation through the ties gets its generation in `g` counted from the
/// ruler's; so across a parent–child tie whose two officers both get one,
/// the child is exactly one generation below the parent, and spouses share a
/// generation.
pub proof fn lemma_generations_follow_consistent_ties(
    ruler: Seq<char>,
    selected: Seq<Seq<char>>,
    es: Seq<ShrineKinshipEdge>,
    g: spec_fn(Seq<char>) -> int,
)
    requires
        ties_consistent(es, g),
    ensures
        forall|x: Seq<char>| #[trigger] passed_generations(ruler, selected, es).contains_key(x)
            ==> kinship_generations(ruler, selected, es).contains_key(x)
            && kinship_generations(ruler, selected, es)[x] == g(x) - g(ruler),
        forall|i: int| 0 <= i < es.len() && (#[trigger] es[i]).kind is ParentChild
            && passed_generations(ruler, selected, es).contains_key(es[i].from_id@)
            && passed_generations(ruler, selected, es).contains_key(es[i].to_id@)
            ==> kinship_generations(ruler, selected, es)[es[i].to_id@] == kinship_generations(ruler, selected, es)[es[i].from_id@] + 1,
        forall|i: int| 0 <= i < es.len() && (#[trigger] es[i]).kind is Spouse
            && passed_generations(ruler, selected, es).contains_key(es[i].from_id@)
            && passed_generations(ruler, selected, es).contains_key(es[i].to_id@)
            ==> kinship_generations(ruler, selected, es)[es[i].to_id@] == kinship_generations(ruler, selected, es)[es[i].from_id@],
{
    let rounds: nat = if selected.len() > 1 { selected.len() } else { 1 };
    let m0 = map![ruler => 0int];
    assert(follows_labels(m0, g, ruler));
    lemma_rounds_follow_labels(m0, es, rounds, g, ruler);
    let m = passed_generations(ruler, selected, es);
    let kg = kinship_generations(ruler, selected, es);
    assert forall|x: Seq<char>| #[trigger] m.contains_key(x) implies kg.contains_key(x) && kg[x] == g(x) - g(ruler) by {
        assert(follows_labels(m, g, ruler));
    }
    assert forall|i: int| 0 <= i < es.len() && (#[trigger] es[i]).kind is ParentChild && m.contains_key(es[i].from_id@)
        && m.contains_key(es[i].to_id@) implies kg[es[i].to_id@] == kg[es[i].from_id@] + 1 by {
        assert(kg[es[i].to_id@] == g(es[i].to_id@) - g(ruler));
        assert(kg[es[i].from_id@] == g(es[i].from_id@) - g(ruler));
    }
    assert forall|i: int| 0 <= i < es.len() && (#[trigger] es[i]).kind is Spouse && m.contains_key(es[i].from_id@)
        && m.contains_key(es[i].to_id@) implies kg[es[i].to_id@] == kg[es[i].from_id@] by {
        assert(kg[es[i].to_id@] == g(es[i].to_id@) - g(ruler));
        assert(kg[es[i].from_id@] == g(es[i].from_id@) - g(ruler));
    }
}

/// Officer `b` is tied to officer `a` by a spouse or parent–child tie of
/// `es`, in either direction.
pub open spec fn firmly_tied(es: Seq<ShrineKinshipEdge>, a: Seq<char>, b: Seq<char>) -> bool {
    exists|i: int| 0 <= i < es.len() && !((#[trigger] es[i]).kind is WeakParentChild)
        && ((es[i].from_id@ == a && es[i].to_id@ == b) || (es[i].to_id@ == a && es[i].from_id@ == b))
}

/// The officer at `k` in `p` is firmly tied to the one after it.
pub open spec fn firm_link(es: Seq<ShrineKinshipEdge>, p: Seq<Seq<char>>, k: int) -> bool {
    firmly_tied(es, p[k], p[k + 1])
}

/// `p` is a chain of officers, each firmly tied to the next.
pub open spec fn firm_chain(es: Seq<ShrineKinshipEdge>, p: Seq<Seq<char>>) -> bool {
    p.len() >= 1 && forall|k: int| 0 <= k < p.len() - 1 ==> #[trigger] firm_link(es, p, k)
}

/// A pass over the ties only adds generations.
proof fn lemma_round_keeps(m: Map<Seq<char>, int>, es: Seq<ShrineKinshipEdge>, n: int, x: Seq<char>)
    requires
        m.contains_key(x),
        n <= es.len(),
    ensures
        generation_round(m, es, n).0.contains_key(x),
    decreases n,
{
    if n > 0 {
        lemma_round_keeps(m, es, n - 1, x);
    }
}

/// A pass over the first `n` ties passes a generation across tie `i < n`
/// from an officer who had one before the pass.
proof fn lemma_round_crosses(m: Map<Seq<char>, int>, es: Seq<ShrineKinshipEdge>, n: int, i: int, a: Seq<char>, b: Seq<char>)
    requires
        m.contains_key(a),
        0 <= i < n <= es.len(),
        !(es[i].kind is WeakParentChild),
        (es[i].from_id@ == a && es[i].to_id@ == b) || (es[i].to_id@ == a && es[i].from_id@ == b),
    ensures
        generation_round(m, es, n).0.contains_key(b),
    decreases n,
{
    if i < n - 1 {
        lemma_round_crosses(m, es, n - 1, i, a, b);
        let r = generation_round(m, es, n - 1).0;
        assert(edge_pass(r, es[n - 1]).0.contains_key(b));
    } else {
        lemma_round_keeps(m, es, n - 1, a);
    }
}

proof fn lemma_rounds_reach_chain(m0: Map<Seq<char>, int>, es: Seq<ShrineKinshipEdge>, p: Seq<Seq<char>>, t: nat)
    requires
        firm_chain(es, p),
        m0.contains_key(p[0]),
        t < p.len(),
    ensures
        forall|n: int| 0 <= n <= t ==> generation_rounds(m0, es, t).contains_key(#[trigger] p[n]),
    decreases t,
{
    if t > 0 {
        lemma_rounds_reach_chain(m0, es, p, (t - 1) as nat);
        let before = generation_rounds(m0, es, (t - 1) as nat);
        assert(firm_link(es, p, t - 1));
        let i = choose|i: int| 0 <= i < es.len() && !((#[trigger] es[i]).kind is WeakParentChild)
            && ((es[i].from_id@ == p[t - 1] && es[i].to_id@ == p[t as int]) || (es[i].to_id@ == p[t - 1] && es[i].from_id@ == p[t as int]));
        assert(before.contains_key(p[t - 1]));
        lemma_round_crosses(before, es, es.len() as int, i, p[t - 1], p[t as int]);
        assert forall|n: int| 0 <= n <= t implies generation_rounds(m0, es, t).contains_key(#[trigger] p[n]) by {
            if n < t {
                assert(before.contains_key(p[n]));
                lemma_round_keeps(before, es, es.len() as int, p[n]);
            }
        }
    }
}

/// Every officer linked to the ruler by a chain of at most as many spouse or
/// parent–child ties as there are passes gets a generation through the ties.
pub proof fn lemma_generations_reach_firm_kin(ruler: Seq<char>, selected: Seq<Seq<char>>, es: Seq<ShrineKinshipEdge>, p: Seq<Seq<char>>)
    requires
        firm_chain(es, p),
        p[0] == ruler,
        p.len() <= (if selected.len() > 1 { selected.len() } else { 1 }) + 1,
    ensures
        forall|n: int| 0 <= n < p.len() ==> passed_generations(ruler, selected, es).contains_key(#[trigger] p[n]),
{
    let rounds: nat = if selected.len() > 1 { selected.len() } else { 1 };
    let m0 = map![ruler => 0int];
    let t = (p.len() - 1) as nat;
    lemma_rounds_reach_chain(m0, es, p, t);
    lemma_rounds_grow(m0, es, t, (rounds - t) as nat);
    assert(rounds == t + (rounds - t) as nat);
}

/// Later passes keep every generation given out so far.
proof fn lemma_rounds_grow(m0: Map<Seq<char>, int>, es: Seq<ShrineKinshipEdge>, t: nat, extra: nat)
    ensures
        forall|x: Seq<char>| generation_rounds(m0, es, t).contains_key(x) ==> #[trigger] generation_rounds(m0, es, t + extra).contains_key(x),
    decreases extra,
{
    if extra > 0 {
        lemma_rounds_grow(m0, es, t, (extra - 1) as nat);
        assert forall|x: Seq<char>| generation_rounds(m0, es, t).contains_key(x) implies #[trigger] generation_rounds(m0, es, t + extra).contains_key(x) by {
            assert(generation_rounds(m0, es, (t + (extra - 1)) as nat).contains_key(x));
            lemma_round_keeps(generation_rounds(m0, es, (t + (extra - 1)) as nat), es, es.len() as int, x);
            assert(generation_rounds(m0, es, t + extra) == generation_round(generation_rounds(m0, es, (t + extra - 1) as nat), es, es.len() as int).0);
        }
    }
}

/// The generations as a map from identifier to generation.
pub open spec fn generations_view(v: Seq<(String, i32)>) -> Map<Seq<char>, int> {
    Map::new(
        |k: Seq<char>| exists|i: int| 0 <= i < v.len() && (#[trigger] v[i]).0@ == k,
        |k: Seq<char>| {
            let i = choose|i: int| 0 <= i < v.len() && (#[trigger] v[i]).0@ == k;
            v[i].1 as int
        },
    )
}

/// The entries of `v` have distinct identifiers.
pub open spec fn distinct_keys(v: Seq<(String, i32)>) -> bool {
    forall|i: int, j: int| 0 <= i < j < v.len() ==> (#[trigger] v[i]).0@ != (#[trigger] v[j]).0@
}

fn generation_of(v: &Vec<(String, i32)>, id: &str) -> (r: Option<i32>)
    requires
        distinct_keys(v@),
    ensures
        match r {
            Some(g) => generations_view(v@).contains_key(id@) && generations_view(v@)[id@] == g as int,
            None => !generations_view(v@).contains_key(id@),
        },
{
    let mut i: usize = 0;
    while i < v.len()
        invariant
            i <= v@.len(),
            distinct_keys(v@),
            forall|k: int| 0 <= k < i ==> (#[trigger] v@[k]).0@ != id@,
        decreases v@.len() - i,
    {
        if str_eq(v[i].0.as_str(), id) {
            proof {
                assert(generations_view(v@).contains_key(id@));
                let j = choose|j: int| 0 <= j < v@.len() && (#[trigger] v@[j]).0@ == id@;
                if j != i as int {
                    assert(v@[j].0@ != v@[i as int].0@);
                }
            }
            return Some(v[i].1);
        }
        i = i + 1;
    }
    None
}

proof fn lemma_push_generation(v: Seq<(String, i32)>, e: (String, i32))
    requires
        distinct_keys(v),
        !generations_view(v).contains_key(e.0@),
    ensures
        distinct_keys(v.push(e)),
        generations_view(v.push(e)) == generations_view(v).insert(e.0@, e.1 as int),
{
    let w = v.push(e);
    assert forall|i: int, j: int| 0 <= i < j < w.len() implies (#[trigger] w[i]).0@ != (#[trigger] w[j]).0@ by {
        if j == v.len() {
            assert(w[i] == v[i]);
            if w[i].0@ == e.0@ {
                assert(generations_view(v).contains_key(e.0@));
            }
        } else {
            assert(w[i] == v[i] && w[j] == v[j]);
        }
    }
    assert(generations_view(w) =~= generations_view(v).insert(e.0@, e.1 as int)) by {
        assert forall|k: Seq<char>| #[trigger] generations_view(w).contains_key(k) == generations_view(v).insert(e.0@, e.1 as int).contains_key(k) by {
            if generations_view(v).contains_key(k) {
                let i = choose|i: int| 0 <= i < v.len() && (#[trigger] v[i]).0@ == k;
                assert(w[i] == v[i]);
            }
            if k == e.0@ {
                assert(w[v.len() as int].0@ == k);
            }
            if generations_view(w).contains_key(k) && k != e.0@ {
                let i = choose|i: int| 0 <= i < w.len() && (#[trigger] w[i]).0@ == k;
                assert(i < v.len());
                assert(w[i] == v[i]);
            }
        }
        assert forall|k: Seq<char>| generations_view(w).contains_key(k) implies #[trigger] generations_view(w)[k] == generations_view(v).insert(
            e.0@,
            e.1 as int,
        )[k] by {
            let i = choose|i: int| 0 <= i < w.len() && (#[trigger] w[i]).0@ == k;
            if k == e.0@ {
                if i != v.len() {
                    assert(w[i].0@ != w[v.len() as int].0@);
                }
            } else {
                assert(i < v.len());
                assert(w[i] == v[i]);
                let i0 = choose|i0: int| 0 <= i0 < v.len() && (#[trigger] v[i0]).0@ == k;
                if i0 != i {
                    assert(v[i0].0@ != v[i].0@);
                }
            }
        }
    }
}

/// Generations in working order: distinct identifiers, all from `u`, and
/// every generation smaller in size than the number of entries.
pub open spec fn generations_ok(v: Seq<(String, i32)>, u: Seq<Seq<char>>) -> bool {
    &&& distinct_keys(v)
    &&& forall|i: int| 0 <= i < v.len() ==> u.contains((#[trigger] v[i]).0@)
    &&& forall|i: int| 0 <= i < v.len() ==> -(v.len() as int) < (#[trigger] v[i]).1 < v.len()
}

proof fn lemma_generations_fit(v: Seq<(String, i32)>, u: Seq<Seq<char>>)
    requires
        generations_ok(v, u),
    ensures
        v.len() <= u.len(),
{
    let ks = v.map_values(|e: (String, i32)| e.0@);
    assert forall|i: int, j: int| 0 <= i < ks.len() && 0 <= j < ks.len() && i != j implies ks[i] != ks[j] by {
        if i < j {
            assert(v[i].0@ != v[j].0@);
        } else {
            assert(v[j].0@ != v[i].0@);
        }
    }
    assert(ks.no_duplicates());
    assert forall|i: int| 0 <= i < ks.len() implies u.contains(#[trigger] ks[i]) by {
        assert(u.contains(v[i].0@));
    }
    lemma_distinct_within(ks, u);
}

fn copy_generation_exec(gens: &mut Vec<(String, i32)>, known: &str, unknown: &str, delta: i32, Ghost(u): Ghost<Seq<Seq<char>>>) -> (changed: bool)
    requires
        generations_ok(old(gens)@, u),
        u.contains(unknown@),
        u.len() <= 0x7fff_ffff,
        -1 <= delta <= 1,
    ensures
        (generations_view(final(gens)@), changed) == copy_generation(generations_view(old(gens)@), known@, unknown@, delta as int),
        generations_ok(final(gens)@, u),
{
    let ghost m = generations_view(gens@);
    let k = generation_of(gens, known);
    match k {
        None => false,
        Some(g) => {
            match generation_of(gens, unknown) {
                Some(_) => false,
                None => {
                    proof {
                        lemma_generations_fit(gens@, u);
                        let i = choose|i: int| 0 <= i < gens@.len() && (#[trigger] gens@[i]).0@ == known@;
                    }
                    let ghost before = gens@;
                    let e = (owned(unknown), g + delta);
                    gens.push(e);
                    proof {
                        lemma_push_generation(before, e);
                        assert forall|i: int| 0 <= i < gens@.len() implies -(gens@.len() as int) < (#[trigger] gens@[i]).1 < gens@.len() by {
                            if i < before.len() {
                                assert(gens@[i] == before[i]);
                            }
                        }
                        assert forall|i: int| 0 <= i < gens@.len() implies u.contains((#[trigger] gens@[i]).0@) by {
                            if i < before.len() {
                                assert(gens@[i] == before[i]);
                            }
                        }
                    }
                    true
                },
            }
        },
    }
}

fn edge_pass_exec(gens: &mut Vec<(String, i32)>, e: &ShrineKinshipEdge, Ghost(u): Ghost<Seq<Seq<char>>>) -> (changed: bool)
    requires
        generations_ok(old(gens)@, u),
        u.contains(e.from_id@),
        u.contains(e.to_id@),
        u.len() <= 0x7fff_ffff,
    ensures
        (generations_view(final(gens)@), changed) == edge_pass(generations_view(old(gens)@), *e),
        generations_ok(final(gens)@, u),
{
    match e.kind {
        ShrineKinshipEdgeKind::Spouse => {
            let a = copy_generation_exec(gens, e.from_id.as_str(), e.to_id.as_str(), 0, Ghost(u));
            let b = copy_generation_exec(gens, e.to_id.as_str(), e.from_id.as_str(), 0, Ghost(u));
            a || b
        },
        ShrineKinshipEdgeKind::ParentChild => {
            let a = copy_generation_exec(gens, e.from_id.as_str(), e.to_id.as_str(), 1, Ghost(u));
            let b = copy_generation_exec(gens, e.to_id.as_str(), e.from_id.as_str(), -1, Ghost(u));
            a || b
        },
        ShrineKinshipEdgeKind::WeakParentChild => false,
    }
}

/// The generation of each officer of the kinship graph relative to the
/// ruler `ruler_id` (generation 0): generations pass along the edges, a
/// spouse sharing one and a child one below its parent, in as many passes
/// over the edges as there are `selected_ids` (at least one), stopping early
/// once a pass changes nothing; every selected officer still without a
/// generation gets 0.
pub fn shrine_kinship_generations(ruler_id: &str, selected_ids: &TagSet, edges: &Vec<ShrineKinshipEdge>) -> (gens: Vec<(String, i32)>)
    requires
        edges@.len() < 0x4000_0000,
    ensures
        distinct_keys(gens@),
        generations_view(gens@) == kinship_generations(ruler_id@, selected_ids@, edges@),
{
    let ghost es = edges@;
    let ghost u = universe(es, ruler_id@);
    let ghost init = map![ruler_id@ => 0int];
    let mut gens: Vec<(String, i32)> = Vec::new();
    gens.push((owned(ruler_id), 0));
    proof {
        assert(u[0] == ruler_id@);
        assert(generations_view(gens@) =~= init) by {
            assert(gens@[0].0@ == ruler_id@);
        }
        assert forall|i: int| 0 <= i < gens@.len() implies u.contains((#[trigger] gens@[i]).0@) by {
            assert(u[0] == gens@[0].0@);
        }
        lemma_universe_has_ends(es, ruler_id@);
        assert(u.len() == 1 + 2 * es.len());
        assert(generations_ok(gens@, u));
    }
    let n = selected_ids.len();
    let rounds: usize = if n > 1 { n } else { 1 };
    let mut r: usize = 0;
    while r < rounds
        invariant_except_break
            r <= rounds,
            generations_view(gens@) == generation_rounds(init, es, r as nat),
        invariant
            es == edges@,
            u == universe(es, ruler_id@),
            u.len() == 1 + 2 * es.len(),
            es.len() < 0x4000_0000,
            init == map![ruler_id@ => 0int],
            generations_ok(gens@, u),
            forall|k: int| 0 <= k < es.len() ==> u.contains(#[trigger] es[k].from_id@) && u.contains(es[k].to_id@),
        ensures
            generations_view(gens@) == generation_rounds(init, es, rounds as nat),
        decreases rounds - r,
    {
        let ghost start = generations_view(gens@);
        let mut changed = false;
        let mut j: usize = 0;
        while j < edges.len()
            invariant
                es == edges@,
                u.len() == 1 + 2 * es.len(),
                es.len() < 0x4000_0000,
                generations_ok(gens@, u),
                forall|k: int| 0 <= k < es.len() ==> u.contains(#[trigger] es[k].from_id@) && u.contains(es[k].to_id@),
                j <= es.len(),
                (generations_view(gens@), changed) == generation_round(start, es, j as int),
            decreases es.len() - j,
        {
            assert(u.contains(es[j as int].from_id@) && u.contains(es[j as int].to_id@));
            let c = edge_pass_exec(&mut gens, &edges[j], Ghost(u));
            changed = changed || c;
            j = j + 1;
        }
        proof {
            assert(generation_rounds(init, es, (r + 1) as nat) == generation_round(generation_rounds(init, es, r as nat), es, es.len() as int).0);
        }
        if !changed {
            proof {
                lemma_round_unchanged(start, es, es.len() as int);
                lemma_rounds_stable(init, es, r as nat, (rounds - r) as nat);
            }
            break;
        }
        r = r + 1;
    }
    let ghost m = generations_view(gens@);
    let mut i: usize = 0;
    while i < selected_ids.len()
        invariant
            i <= selected_ids@.len(),
            distinct_keys(gens@),
            generations_view(gens@) == Map::new(
                |k: Seq<char>| m.contains_key(k) || selected_ids@.take(i as int).contains(k),
                |k: Seq<char>| if m.contains_key(k) { m[k] } else { 0 },
            ),
        decreases selected_ids@.len() - i,
    {
        let id = selected_ids.get(i);
        let ghost before = gens@;
        let ghost prev = selected_ids@.take(i as int);
        assert(selected_ids@.take(i as int + 1) =~= prev.push(id@));
        match generation_of(&gens, id) {
            Some(_) => {
                proof {
                    assert(generations_view(gens@) =~= Map::new(
                        |k: Seq<char>| m.contains_key(k) || selected_ids@.take(i as int + 1).contains(k),
                        |k: Seq<char>| if m.contains_key(k) { m[k] } else { 0 },
                    )) by {
                        assert forall|k: Seq<char>| #[trigger] selected_ids@.take(i as int + 1).contains(k) <==> prev.contains(k) || k == id@ by {
                            if prev.push(id@).contains(k) && k != id@ {
                                let w = choose|w: int| 0 <= w < prev.push(id@).len() && prev.push(id@)[w] == k;
                                assert(prev[w] == k);
                            }
                            if k == id@ {
                                assert(prev.push(id@)[prev.len() as int] == k);
                            }
                            if prev.contains(k) {
                                let w = choose|w: int| 0 <= w < prev.len() && prev[w] == k;
                                assert(prev.push(id@)[w] == k);
                            }
                        }
                    }
                }
            },
            None => {
                let e = (owned(id), 0i32);
                gens.push(e);
                proof {
                    lemma_push_generation(before, e);
                    assert(generations_view(gens@) =~= Map::new(
                        |k: Seq<char>| m.contains_key(k) || selected_ids@.take(i as int + 1).contains(k),
                        |k: Seq<char>| if m.contains_key(k) { m[k] } else { 0 },
                    )) by {
                        assert forall|k: Seq<char>| #[trigger] selected_ids@.take(i as int + 1).contains(k) <==> prev.contains(k) || k == id@ by {
                            if prev.push(id@).contains(k) && k != id@ {
                                let w = choose|w: int| 0 <= w < prev.push(id@).len() && prev.push(id@)[w] == k;
                                assert(prev[w] == k);
                            }
                            if k == id@ {
                                assert(prev.push(id@)[prev.len() as int] == k);
                            }
                            if prev.contains(k) {
                                let w = choose|w: int| 0 <= w < prev.len() && prev[w] == k;
                                assert(prev.push(id@)[w] == k);
                            }
                        }
                    }
                }
            },
        }
        i = i + 1;
    }
    proof {
        assert(selected_ids@.take(selected_ids@.len() as int) =~= selected_ids@);
        assert(generations_view(gens@) =~= kinship_generations(ruler_id@, selected_ids@, edges@));
    }
    gens
}

/// The most officers the kinship graph shows.
pub const SHRINE_MAX_KINSHIP_NODES: usize = 64;

/// The place of an officer in the ruling house.
#[derive(Clone, Copy, Debug, PartialEq, Eq, Structural)]
pub enum ShrineKinshipNodeRole {
    Ruler,
    Heir,
    Officer,
}

/// An officer of the kinship graph.
#[derive(Clone, Debug)]
pub struct ShrineKinshipNode {
    pub id: String,
    pub name: String,
    pub gender: OfficerGender,
    pub generation: i32,
    pub role: ShrineKinshipNodeRole,
}

/// The kinship graph: its officers, its edges, and how many more officers
/// are tied to the ruler than it shows.
#[derive(Clone, Debug)]
pub struct ShrineKinshipGraph {
    pub nodes: Vec<ShrineKinshipNode>,
    pub edges: Vec<ShrineKinshipEdge>,
    pub omitted_count: usize,
}

/// The role of officer `id` in `faction`.
pub open spec fn node_role(faction: Faction, id: Seq<char>) -> ShrineKinshipNodeRole {
    if faction.ruler_id@ == id {
        ShrineKinshipNodeRole::Ruler
    } else if faction.heir_id matches Some(h) && h@ == id {
        ShrineKinshipNodeRole::Heir
    } else {
        ShrineKinshipNodeRole::Officer
    }
}

/// Node `n` shows officer `id` of `game`, with generation `gens[id]`.
pub open spec fn node_of(n: ShrineKinshipNode, game: GameState, faction: Faction, id: Seq<char>, gens: Map<Seq<char>, int>) -> bool {
    &&& officer_index(game.officers@, id) matches Some(i)
    &&& n.id@ == id
    &&& n.name@ == game.officers@[i].name@
    &&& n.gender == game.officers@[i].gender
    &&& gens.contains_key(id) && n.generation == gens[id]
    &&& n.role == node_role(faction, id)
}

/// An edge with both ends among `sel`.
pub open spec fn edge_within(e: ShrineKinshipEdge, sel: Set<Seq<char>>) -> bool {
    sel.contains(e.from_id@) && sel.contains(e.to_id@)
}

/// `g` is the kinship graph of `faction`'s ruler, for the ties `all` of the
/// game in their listing order: the first officers of the breadth-first
/// order from the ruler, at most `SHRINE_MAX_KINSHIP_NODES`, in identifier
/// order, those not in the game left out; the edges between them; their
/// generations; and how many officers were cut off.
pub open spec fn kinship_graph_of(g: ShrineKinshipGraph, game: GameState, faction: Faction, all: Seq<ShrineKinshipEdge>) -> bool {
    exists|order: Seq<Seq<char>>, sel: Seq<Seq<char>>| #![trigger breadth_first_order(all, faction.ruler_id@, order), strictly_ascending(sel)] {
        let shown = if order.len() > SHRINE_MAX_KINSHIP_NODES { SHRINE_MAX_KINSHIP_NODES as int } else { order.len() as int };
        let gens = kinship_generations(faction.ruler_id@, sel, g.edges@);
        &&& breadth_first_order(all, faction.ruler_id@, order)
        &&& g.omitted_count == order.len() - shown
        &&& strictly_ascending(sel) && sel.to_set() == order.take(shown).to_set()
        &&& g.edges@ == all.filter(|e: ShrineKinshipEdge| edge_within(e, sel.to_set()))
        &&& g.nodes@.len() == sel.filter(|id: Seq<char>| officer_index(game.officers@, id) is Some).len()
        &&& forall|k: int| 0 <= k < g.nodes@.len() ==> node_of(
            #[trigger] g.nodes@[k],
            game,
            faction,
            sel.filter(|id: Seq<char>| officer_index(game.officers@, id) is Some)[k],
            gens,
        )
    }
}

/// The kinship graph of `faction`'s ruling house; `None` when its ruler is
/// not an officer of the game.
pub fn shrine_kinship_graph(game: &GameState, faction: &Faction) -> (g: Option<ShrineKinshipGraph>)
    requires
        tie_record_count(*game) < 0x4000_0000,
    ensures
        g is None <==> officer_index(game.officers@, faction.ruler_id@) is None,
        g matches Some(graph) ==> exists|all: Seq<ShrineKinshipEdge>| #[trigger] lists_ties(all, kinship_ties(*game))
            && kinship_graph_of(graph, *game, *faction, all),
{
    if game.find_officer(faction.ruler_id.as_str()).is_none() {
        return None;
    }
    let all = shrine_all_kinship_edges(game);
    proof {
        crate::shrine::lemma_kinship_ties_size(*game);
        crate::shrine::lemma_listed_ties_size(all@, kinship_ties(*game));
    }
    let order = shrine_connected_kinship_order(faction.ruler_id.as_str(), &all);
    let omitted_count: usize = if order.len() > SHRINE_MAX_KINSHIP_NODES { order.len() - SHRINE_MAX_KINSHIP_NODES } else { 0 };
    let shown: usize = order.len() - omitted_count;
    let mut first: Vec<String> = Vec::new();
    let mut i: usize = 0;
    while i < shown
        invariant
            shown <= order@.len(),
            i <= shown,
            ids_of(first@) == ids_of(order@).take(i as int),
        decreases shown - i,
    {
        first.push(owned(order[i].as_str()));
        proof {
            assert(ids_of(order@).take(i as int + 1) =~= ids_of(order@).take(i as int).push(order@[i as int]@));
        }
        i = i + 1;
    }
    let selected = TagSet::from_tags(&first);
    let ghost sel_set = selected@.to_set();
    let ghost all_v = all@;
    let ghost keep = |e: ShrineKinshipEdge| edge_within(e, sel_set);
    let mut rest = all;
    let mut edges: Vec<ShrineKinshipEdge> = Vec::new();
    let mut taken: usize = 0;
    while rest.len() > 0
        invariant
            keep == (|e: ShrineKinshipEdge| edge_within(e, sel_set)),
            sel_set == selected@.to_set(),
            taken + rest@.len() == all_v.len(),
            all_v.len() < 0x4000_0000,
            rest@ == all_v.subrange(taken as int, all_v.len() as int),
            edges@ == all_v.take(taken as int).filter(keep),
        decreases rest@.len(),
    {
        let e = rest.remove(0);
        let ghost pre = all_v.take(taken as int);
        assert(all_v.take(taken as int + 1).drop_last() =~= pre);
        assert(all_v.take(taken as int + 1).last() == e);
        assert(all_v.take(taken as int + 1).filter(keep) == if keep(e) {
            pre.filter(keep).push(e)
        } else {
            pre.filter(keep)
        }) by {
            reveal(Seq::filter);
        }
        let inside = selected.contains(e.from_id.as_str()) && selected.contains(e.to_id.as_str());
        if inside {
            edges.push(e);
        }
        taken = taken + 1;
        assert(rest@ =~= all_v.subrange(taken as int, all_v.len() as int));
    }
    assert(all_v.take(all_v.len() as int) =~= all_v);
    proof {
        lemma_filter_shorter(all_v, keep);
    }
    let gens = shrine_kinship_generations(faction.ruler_id.as_str(), &selected, &edges);
    let ghost gm = generations_view(gens@);
    let ghost present = |id: Seq<char>| officer_index(game.officers@, id) is Some;
    let ghost sel = selected@;
    let mut nodes: Vec<ShrineKinshipNode> = Vec::new();
    let mut j: usize = 0;
    while j < selected.len()
        invariant
            sel == selected@,
            gm == generations_view(gens@),
            gm == kinship_generations(faction.ruler_id@, sel, edges@),
            distinct_keys(gens@),
            present == (|id: Seq<char>| officer_index(game.officers@, id) is Some),
            j <= sel.len(),
            nodes@.len() == sel.take(j as int).filter(present).len(),
            forall|k: int| 0 <= k < nodes@.len() ==> node_of(#[trigger] nodes@[k], *game, *faction, sel.take(j as int).filter(present)[k], gm),
        decreases sel.len() - j,
    {
        let id = selected.get(j);
        let ghost pre = sel.take(j as int);
        assert(sel.take(j as int + 1).drop_last() =~= pre);
        assert(sel.take(j as int + 1).last() == id@);
        assert(sel.take(j as int + 1).filter(present) == if present(id@) {
            pre.filter(present).push(id@)
        } else {
            pre.filter(present)
        }) by {
            reveal(Seq::filter);
        }
        let ghost before = nodes@;
        match game.find_officer(id) {
            Some(k) => {
                proof {
                    assert(sel.contains(sel[j as int]));
                    assert(gm.contains_key(id@));
                }
                let generation = match generation_of(&gens, id) {
                    Some(g) => g,
                    None => 0,
                };
                let officer = &game.officers[k];
                let role = if str_eq(faction.ruler_id.as_str(), id) {
                    ShrineKinshipNodeRole::Ruler
                } else {
                    let heir = match &faction.heir_id {
                        Some(h) => str_eq(h.as_str(), id),
                        None => false,
                    };
                    if heir { ShrineKinshipNodeRole::Heir } else { ShrineKinshipNodeRole::Officer }
                };
                nodes.push(ShrineKinshipNode {
                    id: owned(id),
                    name: owned(officer.name.as_str()),
                    gender: officer.gender,
                    generation,
                    role,
                });
                proof {
                    assert forall|q: int| 0 <= q < nodes@.len() implies node_of(#[trigger] nodes@[q], *game, *faction, sel.take(j as int + 1).filter(present)[q], gm) by {
                        if q < before.len() {
                            assert(nodes@[q] == before[q]);
                        }
                    }
                }
            },
            None => {},
        }
        j = j + 1;
    }
    assert(sel.take(sel.len() as int) =~= sel);
    let graph = ShrineKinshipGraph { nodes, edges, omitted_count };
    proof {
        let order_v = ids_of(order@);
        let shown_i = if order_v.len() > SHRINE_MAX_KINSHIP_NODES { SHRINE_MAX_KINSHIP_NODES as int } else { order_v.len() as int };
        assert(shown == shown_i);
        assert(first@.map_values(|t: String| t@) == ids_of(first@));
        assert(sel.to_set() == order_v.take(shown_i).to_set());
        assert(breadth_first_order(all_v, faction.ruler_id@, order_v));
        assert(kinship_graph_of(graph, *game, *faction, all_v));
    }
    Some(graph)
}

/// Filtering does not lengthen a sequence.
proof fn lemma_filter_shorter(s: Seq<ShrineKinshipEdge>, p: spec_fn(ShrineKinshipEdge) -> bool)
    ensures
        s.filter(p).len() <= s.len(),
{
    s.lemma_filter_len(p);
}

} // verus!
