//! Territory cells of the strategic map: which cities a cell covers, which
//! faction dominates it, and how cell edges are keyed.

use vstd::prelude::*;
use crate::game::{City, GameState, faction_index, city_index, troop_total};
use crate::text::{seq_lt, str_eq, str_less};

verus! {

/// A territory cell of the boundary catalog, with its outline quantized to
/// integer map positions.
#[derive(Clone, Debug)]
pub struct TerritoryCell {
    pub boundary_id: String,
    pub name: String,
    pub parent_id: Option<String>,
    pub city_ids: Vec<String>,
    pub points: Vec<(i64, i64)>,
}

/// Whether `city` lies in `cell`: by the cell's city list when it has one,
/// else by the city's commandery bearing the cell's name.
pub open spec fn in_cell(cell: TerritoryCell, city: City) -> bool {
    if cell.city_ids@.len() > 0 {
        exists|k: int| 0 <= k < cell.city_ids@.len() && (#[trigger] cell.city_ids@[k])@ == city.id@
    } else {
        match city.profile {
            Some(p) => p.commandery@ == cell.name@,
            None => false,
        }
    }
}

/// Whether `city` lies in `cell`.
pub fn city_matches_cell(cell: &TerritoryCell, city: &City) -> (b: bool)
    ensures
        b == in_cell(*cell, *city),
{
    if cell.city_ids.len() > 0 {
        let mut k: usize = 0;
        while k < cell.city_ids.len()
            invariant
                k <= cell.city_ids.len(),
                forall|j: int| 0 <= j < k ==> (#[trigger] cell.city_ids@[j])@ != city.id@,
            decreases cell.city_ids.len() - k,
        {
            if str_eq(cell.city_ids[k].as_str(), city.id.as_str()) {
                return true;
            }
            k = k + 1;
        }
        return false;
    }
    match &city.profile {
        Some(p) => str_eq(p.commandery.as_str(), cell.name.as_str()),
        None => false,
    }
}

/// Whether the selected city, if any, lies in `cell`.
pub fn selected_city_in_cell_id(cell: &TerritoryCell, game: &GameState, selected_city_id: Option<&str>) -> (b: bool)
    ensures
        b == match selected_city_id {
            Some(id) => match city_index(game.cities@, id@) {
                Some(i) => in_cell(*cell, game.cities@[i]),
                None => false,
            },
            None => false,
        },
{
    match selected_city_id {
        None => false,
        Some(id) => match game.find_city(id) {
            Some(i) => city_matches_cell(cell, &game.cities[i]),
            None => false,
        },
    }
}

/// `a + b`, or `u32::MAX` when it does not fit.
pub open spec fn sat_add(a: int, b: int) -> int {
    if a + b > u32::MAX {
        u32::MAX as int
    } else {
        a + b
    }
}

/// The number of cities of `cs` in `cell` held by faction `fid`.
pub open spec fn cell_city_count(cs: Seq<City>, cell: TerritoryCell, fid: Seq<char>) -> nat
    decreases cs.len(),
{
    if cs.len() == 0 {
        0
    } else {
        cell_city_count(cs.drop_last(), cell, fid) + if in_cell(cell, cs.last()) && cs.last().faction_id@ == fid {
            1nat
        } else {
            0nat
        }
    }
}

/// A faction's city count in a cell is the number of cities of the cell that
/// it holds.
pub proof fn lemma_cell_city_count_counts(cs: Seq<City>, cell: TerritoryCell, fid: Seq<char>)
    ensures
        cell_city_count(cs, cell, fid) == cs.filter(|c: City| in_cell(cell, c) && c.faction_id@ == fid).len(),
    decreases cs.len(),
{
    reveal(Seq::filter);
    if cs.len() > 0 {
        lemma_cell_city_count_counts(cs.drop_last(), cell, fid);
    }
}

/// The troops of those cities, summed with saturation at `u32::MAX`.
pub open spec fn cell_troops(cs: Seq<City>, cell: TerritoryCell, fid: Seq<char>) -> int
    decreases cs.len(),
{
    if cs.len() == 0 {
        0
    } else {
        let prev = cell_troops(cs.drop_last(), cell, fid);
        if in_cell(cell, cs.last()) && cs.last().faction_id@ == fid {
            sat_add(prev, troop_total(cs.last().troops))
        } else {
            prev
        }
    }
}

/// Whether some city of `cs` in `cell` is held by faction `fid`.
pub open spec fn present_in_cell(cs: Seq<City>, cell: TerritoryCell, fid: Seq<char>) -> bool {
    exists|i: int| 0 <= i < cs.len() && in_cell(cell, #[trigger] cs[i]) && cs[i].faction_id@ == fid
}

/// Faction `f` ranks at least as high as `g` in a cell: more cities, then
/// more troops, then the later identifier.
pub open spec fn ranks_above(cs: Seq<City>, cell: TerritoryCell, f: Seq<char>, g: Seq<char>) -> bool {
    let cf = cell_city_count(cs, cell, f);
    let cg = cell_city_count(cs, cell, g);
    let tf = cell_troops(cs, cell, f);
    let tg = cell_troops(cs, cell, g);
    cf > cg || (cf == cg && (tf > tg || (tf == tg && !seq_lt(f, g))))
}

/// `fid` is the faction that dominates `cell`.
pub open spec fn dominates_cell(cs: Seq<City>, cell: TerritoryCell, fid: Seq<char>) -> bool {
    &&& present_in_cell(cs, cell, fid)
    &&& forall|g: Seq<char>| #[trigger] present_in_cell(cs, cell, g) ==> ranks_above(cs, cell, fid, g)
}

/// The faction that dominates a cell has at least as many cities there as
/// any faction present; among factions with as many cities, its cities there
/// hold at least as many troops; so a faction with as many cities and
/// strictly more troops there than another keeps that other from dominating.
pub proof fn lemma_dominance_goes_by_cities_then_troops(cs: Seq<City>, cell: TerritoryCell, d: Seq<char>, g: Seq<char>)
    requires
        dominates_cell(cs, cell, d),
        present_in_cell(cs, cell, g),
    ensures
        cell_city_count(cs, cell, d) >= cell_city_count(cs, cell, g),
        cell_city_count(cs, cell, d) == cell_city_count(cs, cell, g) ==> cell_troops(cs, cell, d) >= cell_troops(cs, cell, g),
        cell_city_count(cs, cell, d) == cell_city_count(cs, cell, g) && cell_troops(cs, cell, d) == cell_troops(cs, cell, g)
            ==> !seq_lt(d, g),
{
    assert(ranks_above(cs, cell, d, g));
}

/// A faction present in a cell with as many cities there as another present
/// faction, and strictly more troops there, ranks above it, so the other
/// does not dominate the cell.
pub proof fn lemma_more_troops_beat_equal_cities(cs: Seq<City>, cell: TerritoryCell, f: Seq<char>, g: Seq<char>)
    requires
        present_in_cell(cs, cell, f),
        present_in_cell(cs, cell, g),
        cell_city_count(cs, cell, f) == cell_city_count(cs, cell, g),
        cell_troops(cs, cell, f) > cell_troops(cs, cell, g),
    ensures
        !dominates_cell(cs, cell, g),
{
    if dominates_cell(cs, cell, g) {
        lemma_dominance_goes_by_cities_then_troops(cs, cell, g, f);
    }
}

proof fn lemma_ranks_transitive(cs: Seq<City>, cell: TerritoryCell, g: Seq<char>, f: Seq<char>, h: Seq<char>)
    requires
        ranks_above(cs, cell, g, f),
        ranks_above(cs, cell, f, h),
    ensures
        ranks_above(cs, cell, g, h),
{
    if seq_lt(g, h) {
        crate::text::lemma_seq_lt_total(f, h);
        if seq_lt(h, f) {
            crate::text::lemma_seq_lt_transitive(g, h, f);
        }
    }
}

/// Every city's troop pool fits in a `u32`.
pub open spec fn troop_pools_fit(cs: Seq<City>) -> bool {
    forall|i: int| 0 <= i < cs.len() ==> troop_total(#[trigger] cs[i].troops) <= u32::MAX
}

proof fn lemma_cell_troops_bound(cs: Seq<City>, cell: TerritoryCell, fid: Seq<char>)
    ensures
        0 <= cell_troops(cs, cell, fid) <= u32::MAX,
        cell_city_count(cs, cell, fid) <= cs.len(),
    decreases cs.len(),
{
    if cs.len() > 0 {
        lemma_cell_troops_bound(cs.drop_last(), cell, fid);
    }
}

/// The number of cities of faction `faction_id` in `cell`, and their troops
/// summed with saturation.
fn cell_faction_stats(cell: &TerritoryCell, game: &GameState, faction_id: &str) -> (r: (usize, u32))
    requires
        troop_pools_fit(game.cities@),
    ensures
        r.0 == cell_city_count(game.cities@, *cell, faction_id@),
        r.1 == cell_troops(game.cities@, *cell, faction_id@),
{
    let ghost cs = game.cities@;
    let mut count: usize = 0;
    let mut troops: u32 = 0;
    let mut i: usize = 0;
    while i < game.cities.len()
        invariant
            cs == game.cities@,
            troop_pools_fit(cs),
            i <= cs.len(),
            count == cell_city_count(cs.take(i as int), *cell, faction_id@),
            troops == cell_troops(cs.take(i as int), *cell, faction_id@),
        decreases cs.len() - i,
    {
        assert(cs.take(i as int + 1).drop_last() =~= cs.take(i as int));
        assert(cs.take(i as int + 1).last() == cs[i as int]);
        proof {
            lemma_cell_troops_bound(cs.take(i as int), *cell, faction_id@);
        }
        let city = &game.cities[i];
        if city_matches_cell(cell, city) && str_eq(city.faction_id.as_str(), faction_id) {
            count = count + 1;
            troops = troops.saturating_add(city.troops.total());
        }
        i = i + 1;
    }
    assert(cs.take(cs.len() as int) =~= cs);
    (count, troops)
}

/// The faction that dominates `cell`: the one with most cities there, then
/// most troops, then the later identifier; `None` when no city lies in the
/// cell or that faction is not in the game.
pub fn dominant_cell_faction(cell: &TerritoryCell, game: &GameState) -> (r: Option<usize>)
    requires
        troop_pools_fit(game.cities@),
    ensures
        match r {
            Some(i) => exists|fid: Seq<char>| #[trigger] dominates_cell(game.cities@, *cell, fid) && faction_index(game.factions@, fid)
                == Some(i as int),
            None => forall|fid: Seq<char>| #[trigger] dominates_cell(game.cities@, *cell, fid) ==> faction_index(game.factions@, fid) is None,
        },
{
    let ghost cs = game.cities@;
    let mut best: Option<(usize, usize, u32)> = None;
    let mut i: usize = 0;
    while i < game.cities.len()
        invariant
            cs == game.cities@,
            troop_pools_fit(cs),
            i <= cs.len(),
            match best {
                Some((b, n, t)) => b < cs.len() && in_cell(*cell, cs[b as int]) && n == cell_city_count(cs, *cell, cs[b as int].faction_id@)
                    && t == cell_troops(cs, *cell, cs[b as int].faction_id@)
                    && forall|k: int| 0 <= k < i && #[trigger] in_cell(*cell, cs[k]) ==> ranks_above(cs, *cell, cs[b as int].faction_id@, cs[k].faction_id@),
                None => forall|k: int| 0 <= k < i ==> !#[trigger] in_cell(*cell, cs[k]),
            },
        decreases cs.len() - i,
    {
        let city = &game.cities[i];
        if city_matches_cell(cell, city) {
            let (n, t) = cell_faction_stats(cell, game, city.faction_id.as_str());
            match best {
                None => {
                    best = Some((i, n, t));
                    proof {
                        crate::text::lemma_seq_lt_irreflexive(cs[i as int].faction_id@);
                    }
                },
                Some((b, bn, bt)) => {
                    let later = str_less(game.cities[b].faction_id.as_str(), city.faction_id.as_str());
                    let earlier = str_less(city.faction_id.as_str(), game.cities[b].faction_id.as_str());
                    let better = n > bn || (n == bn && (t > bt || (t == bt && later)));
                    proof {
                        let f = cs[b as int].faction_id@;
                        let g = cs[i as int].faction_id@;
                        crate::text::lemma_seq_lt_total(f, g);
                        crate::text::lemma_seq_lt_irreflexive(f);
                        crate::text::lemma_seq_lt_irreflexive(g);
                        if seq_lt(f, g) && seq_lt(g, f) {
                            crate::text::lemma_seq_lt_transitive(f, g, f);
                        }
                    }
                    if better {
                        proof {
                            let f = cs[b as int].faction_id@;
                            let g = cs[i as int].faction_id@;
                            if seq_lt(f, g) && seq_lt(g, f) {
                                crate::text::lemma_seq_lt_transitive(f, g, f);
                            }
                            assert(ranks_above(cs, *cell, g, f));
                            assert forall|k: int| 0 <= k < i + 1 && #[trigger] in_cell(*cell, cs[k]) implies ranks_above(cs, *cell, g, cs[k].faction_id@) by {
                                if k < i {
                                    lemma_ranks_transitive(cs, *cell, g, f, cs[k].faction_id@);
                                } else {
                                    crate::text::lemma_seq_lt_irreflexive(g);
                                }
                            }
                        }
                        best = Some((i, n, t));
                    } else {
                        proof {
                            let f = cs[b as int].faction_id@;
                            assert(ranks_above(cs, *cell, f, cs[i as int].faction_id@));
                        }
                    }
                },
            }
        }
        i = i + 1;
    }
    match best {
        None => {
            proof {
                assert forall|fid: Seq<char>| #[trigger] dominates_cell(game.cities@, *cell, fid) implies faction_index(game.factions@, fid) is None by {
                    assert(present_in_cell(cs, *cell, fid));
                }
            }
            None
        },
        Some((b, _, _)) => {
            let ghost f = cs[b as int].faction_id@;
            proof {
                assert(present_in_cell(cs, *cell, f));
                assert forall|g: Seq<char>| #[trigger] present_in_cell(cs, *cell, g) implies ranks_above(cs, *cell, f, g) by {
                    let k = choose|k: int| 0 <= k < cs.len() && in_cell(*cell, #[trigger] cs[k]) && cs[k].faction_id@ == g;
                    assert(in_cell(*cell, cs[k]));
                }
                assert(dominates_cell(cs, *cell, f));
                assert forall|h: Seq<char>| #[trigger] dominates_cell(cs, *cell, h) implies h == f by {
                    assert(ranks_above(cs, *cell, h, f));
                    assert(ranks_above(cs, *cell, f, h));
                    crate::text::lemma_seq_lt_total(f, h);
                }
            }
            game.find_faction(game.cities[b].faction_id.as_str())
        },
    }
}

/// The key under which a cell edge is grouped: its two quantized end points,
/// the smaller first.
#[derive(Clone, Copy, Debug, PartialEq, Eq, Structural)]
pub struct TerritoryEdgeKey {
    pub start_x: i64,
    pub start_y: i64,
    pub end_x: i64,
    pub end_y: i64,
}

/// Whether point `a` comes before or equals point `b`, by `x` then `y`.
pub open spec fn point_le(a: (i64, i64), b: (i64, i64)) -> bool {
    a.0 < b.0 || (a.0 == b.0 && a.1 <= b.1)
}

/// The key of the edge between two quantized points, in either direction.
pub open spec fn edge_key(start: (i64, i64), end: (i64, i64)) -> TerritoryEdgeKey {
    if point_le(start, end) {
        TerritoryEdgeKey { start_x: start.0, start_y: start.1, end_x: end.0, end_y: end.1 }
    } else {
        TerritoryEdgeKey { start_x: end.0, start_y: end.1, end_x: start.0, end_y: start.1 }
    }
}

/// The key of the edge between two quantized points.
pub fn territory_edge_key(start: (i64, i64), end: (i64, i64)) -> (k: TerritoryEdgeKey)
    ensures
        k == edge_key(start, end),
{
    let (a, b) = if start.0 < end.0 || (start.0 == end.0 && start.1 <= end.1) {
        (start, end)
    } else {
        (end, start)
    };
    TerritoryEdgeKey { start_x: a.0, start_y: a.1, end_x: b.0, end_y: b.1 }
}

/// An edge of a cell outline: its key, its two end points as drawn, and the
/// position of the cell in the list.
pub type CellEdge = (TerritoryEdgeKey, (i64, i64), (i64, i64), usize);

/// The edges of cell `c` at position `ci`, point `i` to the next, the last
/// back to the first.
pub open spec fn cell_edges(c: TerritoryCell, ci: usize) -> Seq<CellEdge> {
    let pts = c.points@;
    Seq::new(
        pts.len(),
        |i: int| {
            let end = if i + 1 == pts.len() { pts[0] } else { pts[i + 1] };
            (edge_key(pts[i], end), pts[i], end, ci)
        },
    )
}

/// The edges of the first `n` cells, cell by cell.
pub open spec fn outline_edges(cells: Seq<TerritoryCell>, n: int) -> Seq<CellEdge>
    decreases n,
{
    if n <= 0 {
        Seq::empty()
    } else {
        outline_edges(cells, n - 1) + cell_edges(cells[n - 1], (n - 1) as usize)
    }
}

/// Key `a` comes strictly before key `b`.
pub open spec fn key_lt(a: TerritoryEdgeKey, b: TerritoryEdgeKey) -> bool {
    a.start_x < b.start_x || (a.start_x == b.start_x && (a.start_y < b.start_y || (a.start_y == b.start_y && (a.end_x
        < b.end_x || (a.end_x == b.end_x && a.end_y < b.end_y)))))
}

/// Whether an edge has key `k`.
pub open spec fn has_key(k: TerritoryEdgeKey) -> spec_fn(CellEdge) -> bool {
    |e: CellEdge| e.0 == k
}

/// The edges of `es` with key `k`, in order.
pub open spec fn edge_group(es: Seq<CellEdge>, k: TerritoryEdgeKey) -> Seq<CellEdge> {
    es.filter(has_key(k))
}

/// The parent province of the cell at position `ci`.
pub open spec fn parent_of(cells: Seq<TerritoryCell>, ci: usize) -> Option<Seq<char>> {
    match cells[ci as int].parent_id {
        Some(p) => Some(p@),
        None => None,
    }
}

/// An edge with key `k` is drawn as a province border: no other cell shares
/// it, or the cells that share it do not all lie in the province of the
/// first.
pub open spec fn is_border(cells: Seq<TerritoryCell>, es: Seq<CellEdge>, k: TerritoryEdgeKey) -> bool {
    let g = edge_group(es, k);
    g.len() > 0 && (g.len() == 1 || exists|j: int| 0 <= j < g.len() && parent_of(cells, #[trigger] g[j].3) != parent_of(cells, g[0].3))
}

/// `r` lists the province borders of the edges `es`: one per border key,
/// by ascending key, each drawn as the first edge with that key.
pub open spec fn border_segments_of(r: Seq<((i64, i64), (i64, i64))>, cells: Seq<TerritoryCell>, es: Seq<CellEdge>) -> bool {
    exists|ks: Seq<TerritoryEdgeKey>| {
        &&& #[trigger] ks.len() == r.len()
        &&& forall|i: int, j: int| 0 <= i < j < ks.len() ==> key_lt(#[trigger] ks[i], #[trigger] ks[j])
        &&& forall|i: int| 0 <= i < ks.len() ==> is_border(cells, es, #[trigger] ks[i]) && r[i] == (
            edge_group(es, ks[i])[0].1,
            edge_group(es, ks[i])[0].2,
        )
        &&& forall|e: int| 0 <= e < es.len() && is_border(cells, es, (#[trigger] es[e]).0) ==> ks.contains(es[e].0)
    }
}

fn key_less(a: TerritoryEdgeKey, b: TerritoryEdgeKey) -> (r: bool)
    ensures
        r == key_lt(a, b),
{
    a.start_x < b.start_x || (a.start_x == b.start_x && (a.start_y < b.start_y || (a.start_y == b.start_y && (a.end_x
        < b.end_x || (a.end_x == b.end_x && a.end_y < b.end_y)))))
}

fn same_parent(cells: &Vec<TerritoryCell>, a: usize, b: usize) -> (r: bool)
    requires
        a < cells@.len(),
        b < cells@.len(),
    ensures
        r == (parent_of(cells@, a) == parent_of(cells@, b)),
{
    match (&cells[a].parent_id, &cells[b].parent_id) {
        (Some(x), Some(y)) => str_eq(x.as_str(), y.as_str()),
        (None, None) => true,
        _ => false,
    }
}

/// The edges of every cell outline.
fn collect_outline_edges(cells: &Vec<TerritoryCell>) -> (es: Vec<CellEdge>)
    ensures
        es@ == outline_edges(cells@, cells@.len() as int),
{
    let mut es: Vec<CellEdge> = Vec::new();
    let mut c: usize = 0;
    while c < cells.len()
        invariant
            c <= cells@.len(),
            es@ == outline_edges(cells@, c as int),
        decreases cells@.len() - c,
    {
        let pts = &cells[c].points;
        let ghost before = es@;
        let mut i: usize = 0;
        while i < pts.len()
            invariant
                pts@ == cells@[c as int].points@,
                c < cells@.len(),
                i <= pts@.len(),
                es@ == before + cell_edges(cells@[c as int], c).take(i as int),
            decreases pts@.len() - i,
        {
            let start = pts[i];
            let end = if i + 1 == pts.len() { pts[0] } else { pts[i + 1] };
            let k = territory_edge_key(start, end);
            es.push((k, start, end, c));
            proof {
                assert(cell_edges(cells@[c as int], c).take(i as int + 1) =~= cell_edges(cells@[c as int], c).take(i as int).push(
                    (k, start, end, c),
                ));
            }
            i = i + 1;
        }
        proof {
            assert(cell_edges(cells@[c as int], c).take(pts@.len() as int) =~= cell_edges(cells@[c as int], c));
        }
        c = c + 1;
    }
    es
}

/// The number of edges of `es` whose key comes after `last` (all of them
/// when there is no `last`).
pub open spec fn count_after(es: Seq<CellEdge>, last: Option<TerritoryEdgeKey>) -> nat
    decreases es.len(),
{
    if es.len() == 0 {
        0
    } else {
        count_after(es.drop_last(), last) + if (match last {
            Some(l) => key_lt(l, es.last().0),
            None => true,
        }) {
            1nat
        } else {
            0nat
        }
    }
}

proof fn lemma_count_after_drops(es: Seq<CellEdge>, last: Option<TerritoryEdgeKey>, k: TerritoryEdgeKey, w: int)
    requires
        0 <= w < es.len(),
        es[w].0 == k,
        match last {
            Some(l) => key_lt(l, k),
            None => true,
        },
    ensures
        count_after(es, Some(k)) < count_after(es, last),
    decreases es.len(),
{
    lemma_count_after_mono(es.drop_last(), last, k);
    if w < es.len() - 1 {
        assert(es.drop_last()[w] == es[w]);
        lemma_count_after_drops(es.drop_last(), last, k, w);
    }
}

proof fn lemma_count_after_mono(es: Seq<CellEdge>, last: Option<TerritoryEdgeKey>, k: TerritoryEdgeKey)
    requires
        match last {
            Some(l) => key_lt(l, k),
            None => true,
        },
    ensures
        count_after(es, Some(k)) <= count_after(es, last),
    decreases es.len(),
{
    if es.len() > 0 {
        lemma_count_after_mono(es.drop_last(), last, k);
    }
}

/// The province borders of the map's cells: every cell edge that no other
/// cell shares, or that cells of different provinces share, once, by
/// ascending key, drawn as the first such edge.
pub fn province_border_segments(cells: &Vec<TerritoryCell>) -> (r: Vec<((i64, i64), (i64, i64))>)
    ensures
        border_segments_of(r@, cells@, outline_edges(cells@, cells@.len() as int)),
{
    let es = collect_outline_edges(cells);
    let ghost ev = es@;
    let mut r: Vec<((i64, i64), (i64, i64))> = Vec::new();
    let ghost mut ks: Seq<TerritoryEdgeKey> = Seq::empty();
    let mut last: Option<TerritoryEdgeKey> = None;
    proof {
        assert forall|e: int| 0 <= e < ev.len() implies ev[e].3 < cells@.len() by {
            lemma_outline_cells(cells@, cells@.len() as int, e);
        }
    }
    loop
        invariant
            ev == es@,
            ev == outline_edges(cells@, cells@.len() as int),
            forall|e: int| 0 <= e < ev.len() ==> (#[trigger] ev[e]).3 < cells@.len(),
            ks.len() == r@.len(),
            forall|i: int, j: int| 0 <= i < j < ks.len() ==> key_lt(#[trigger] ks[i], #[trigger] ks[j]),
            forall|i: int| 0 <= i < ks.len() ==> is_border(cells@, ev, #[trigger] ks[i]) && r@[i] == (
                edge_group(ev, ks[i])[0].1,
                edge_group(ev, ks[i])[0].2,
            ),
            forall|i: int| 0 <= i < ks.len() ==> (last matches Some(l) && !key_lt(l, #[trigger] ks[i])),
            forall|e: int| 0 <= e < ev.len() && is_border(cells@, ev, (#[trigger] ev[e]).0) && (last matches Some(l) && !key_lt(l, ev[e].0)) ==> ks.contains(ev[e].0),
        ensures
            forall|e: int| 0 <= e < ev.len() && is_border(cells@, ev, (#[trigger] ev[e]).0) ==> ks.contains(ev[e].0),
        decreases count_after(ev, last),
    {
        // the smallest key after `last`
        let mut found: Option<usize> = None;
        let mut i: usize = 0;
        while i < es.len()
            invariant
                ev == es@,
                i <= ev.len(),
                match found {
                    Some(f) => f < i && (match last {
                        Some(l) => key_lt(l, ev[f as int].0),
                        None => true,
                    }) && forall|j: int| 0 <= j < i && (match last {
                        Some(l) => key_lt(l, ev[j].0),
                        None => true,
                    }) ==> !key_lt(#[trigger] ev[j].0, ev[f as int].0),
                    None => forall|j: int| 0 <= j < i ==> !(match last {
                        Some(l) => key_lt(l, #[trigger] ev[j].0),
                        None => true,
                    }),
                },
            decreases ev.len() - i,
        {
            let k = es[i].0;
            let after = match last {
                Some(l) => key_less(l, k),
                None => true,
            };
            if after {
                match found {
                    None => {
                        found = Some(i);
                    },
                    Some(f) => {
                        if key_less(k, es[f].0) {
                            found = Some(i);
                        }
                    },
                }
            }
            i = i + 1;
        }
        match found {
            None => {
                proof {
                    assert forall|e: int| 0 <= e < ev.len() && is_border(cells@, ev, (#[trigger] ev[e]).0) implies ks.contains(ev[e].0) by {
                        assert(!(match last {
                            Some(l) => key_lt(l, ev[e].0),
                            None => true,
                        }));
                    }
                }
                break;
            },
            Some(f) => {
                let k = es[f].0;
                // the first edge with key `k`, and whether another cell's province differs
                let mut first: usize = 0;
                let mut have_first = false;
                let mut count: usize = 0;
                let mut differs = false;
                let ghost keyk = has_key(k);
                let mut j: usize = 0;
                while j < es.len()
                    invariant
                        ev == es@,
                        keyk == has_key(k),
                        forall|e: int| 0 <= e < ev.len() ==> (#[trigger] ev[e]).3 < cells@.len(),
                        j <= ev.len(),
                        count == ev.take(j as int).filter(keyk).len(),
                        count <= j,
                        have_first == (count > 0),
                        have_first ==> first < ev.len() && ev.take(j as int).filter(keyk)[0] == ev[first as int],
                        differs == exists|q: int| 0 <= q < count && parent_of(cells@, #[trigger] ev.take(j as int).filter(keyk)[q].3)
                            != parent_of(cells@, ev[first as int].3),
                    decreases ev.len() - j,
                {
                    let ghost pre = ev.take(j as int);
                    assert(ev.take(j as int + 1).drop_last() =~= pre);
                    assert(ev.take(j as int + 1).last() == ev[j as int]);
                    assert(ev.take(j as int + 1).filter(keyk) == if keyk(ev[j as int]) {
                        pre.filter(keyk).push(ev[j as int])
                    } else {
                        pre.filter(keyk)
                    }) by {
                        reveal(Seq::filter);
                    }
                    if es[j].0 == k {
                        if !have_first {
                            first = j;
                            have_first = true;
                        } else if !same_parent(cells, es[j].3, es[first].3) {
                            differs = true;
                        }
                        count = count + 1;
                    }
                    proof {
                        let now = ev.take(j as int + 1).filter(keyk);
                        if keyk(ev[j as int]) {
                            assert(now[0] == ev[first as int]);
                            assert forall|q: int| 0 <= q < count - 1 implies #[trigger] now[q] == pre.filter(keyk)[q] by {}
                            if differs {
                                if exists|q: int| 0 <= q < count - 1 && parent_of(cells@, #[trigger] pre.filter(keyk)[q].3) != parent_of(
                                    cells@,
                                    ev[first as int].3,
                                ) {
                                    let q = choose|q: int| 0 <= q < count - 1 && parent_of(cells@, #[trigger] pre.filter(keyk)[q].3)
                                        != parent_of(cells@, ev[first as int].3);
                                    assert(now[q] == pre.filter(keyk)[q]);
                                } else {
                                    assert(now[count - 1] == ev[j as int]);
                                }
                            } else {
                                assert forall|q: int| 0 <= q < count implies parent_of(cells@, #[trigger] now[q].3) == parent_of(
                                    cells@,
                                    ev[first as int].3,
                                ) by {
                                    if q < count - 1 {
                                        assert(now[q] == pre.filter(keyk)[q]);
                                    } else {
                                        assert(now[q] == ev[j as int]);
                                    }
                                }
                            }
                        }
                    }
                    j = j + 1;
                }
                proof {
                    assert(ev.take(ev.len() as int) =~= ev);
                    assert(ev[f as int].0 == k);
                    assert(edge_group(ev, k) == ev.filter(keyk));
                    ev.lemma_filter_contains(keyk, f as int);
                }
                let border = count == 1 || differs;
                let ghost old_ks = ks;
                if border {
                    r.push((es[first].1, es[first].2));
                    proof {
                        ks = ks.push(k);
                    }
                }
                proof {
                    lemma_count_after_drops(ev, last, k, f as int);
                    assert(border == is_border(cells@, ev, k));
                    assert forall|e: int| 0 <= e < ev.len() && is_border(cells@, ev, (#[trigger] ev[e]).0) && !key_lt(k, ev[e].0) implies ks.contains(ev[e].0) by {
                        if last matches Some(l) && !key_lt(l, ev[e].0) {
                            assert(old_ks.contains(ev[e].0));
                            let w = choose|w: int| 0 <= w < old_ks.len() && old_ks[w] == ev[e].0;
                            assert(ks[w] == ev[e].0);
                        } else {
                            assert(!key_lt(ev[e].0, k));
                            assert(ev[e].0 == k);
                            assert(ks[ks.len() - 1] == k);
                        }
                    }
                }
                last = Some(k);
            },
        }
    }
    r
}

/// Every edge of the first `n` cells comes from one of them.
proof fn lemma_outline_cells(cells: Seq<TerritoryCell>, n: int, e: int)
    requires
        0 <= n <= cells.len(),
        0 <= e < outline_edges(cells, n).len(),
    ensures
        outline_edges(cells, n)[e].3 < n,
    decreases n,
{
    if n > 0 {
        let prev = outline_edges(cells, n - 1);
        if e < prev.len() {
            lemma_outline_cells(cells, n - 1, e);
        }
    }
}


/// The map's cells for one year and their province borders, kept until
/// another year is asked for.
#[derive(Debug)]
pub struct MapBoundaryViewCache {
    pub year: Option<i32>,
    pub cells: Vec<TerritoryCell>,
    pub province_segments: Vec<((i64, i64), (i64, i64))>,
}

impl MapBoundaryViewCache {
    /// The segments are the province borders of the cells.
    pub open spec fn wf(&self) -> bool {
        border_segments_of(self.province_segments@, self.cells@, outline_edges(self.cells@, self.cells@.len() as int))
    }

    /// An empty cache, for no year yet.
    pub fn new() -> (c: Self)
        ensures
            c.year is None,
            c.cells@.len() == 0,
            c.wf(),
    {
        let cells: Vec<TerritoryCell> = Vec::new();
        let province_segments = province_border_segments(&cells);
        MapBoundaryViewCache { year: None, cells, province_segments }
    }

    /// Whether the cache holds the boundaries of `year`; where it does not,
    /// the caller loads that year's cells and hands them to `store_year`.
    pub fn holds_year(&self, year: i32) -> (b: bool)
        ensures
            b == (self.year == Some(year)),
    {
        match self.year {
            Some(y) => y == year,
            None => false,
        }
    }

    /// Keeps the cells of `year` and works out their province borders.
    pub fn store_year(&mut self, year: i32, cells: Vec<TerritoryCell>)
        ensures
            final(self).year == Some(year),
            final(self).cells@ == cells@,
            final(self).wf(),
    {
        let province_segments = province_border_segments(&cells);
        self.cells = cells;
        self.province_segments = province_segments;
        self.year = Some(year);
    }
}

} // verus!
