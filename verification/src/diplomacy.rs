//! The diplomacy panel's lists: the factions one can treat with, the
//! player's cities, and the resources a city or faction can offer.

use vstd::prelude::*;
use crate::game::{City, Faction, GameState, holds_city};
use crate::faction_overview::{FactionCityTotals, city_totals_of, faction_city_totals, totals_fit};
use crate::text::{lemma_seq_lt_irreflexive, lemma_seq_lt_total, lemma_seq_lt_transitive, seq_lt, owned, str_eq, str_less};

verus! {

/// Gold, food and materials.
#[derive(Clone, Copy, Debug, PartialEq, Eq, Structural)]
pub struct ResourceBundle {
    pub gold: i32,
    pub food: i32,
    pub materials: i32,
}

/// What a city can put into a treaty: its stocks, none below zero.
pub fn city_resource_bundle(city: &City) -> (b: ResourceBundle)
    ensures
        b.gold == if city.gold > 0 { city.gold } else { 0 },
        b.food == if city.food > 0 { city.food } else { 0 },
        b.materials == if city.materials > 0 { city.materials } else { 0 },
{
    ResourceBundle {
        gold: if city.gold > 0 { city.gold } else { 0 },
        food: if city.food > 0 { city.food } else { 0 },
        materials: if city.materials > 0 { city.materials } else { 0 },
    }
}

/// The non-negative part of `v`.
pub open spec fn non_negative(v: i32) -> int {
    if v > 0 { v as int } else { 0 }
}

/// The sum of `f` over the cities of `cs` held by `fid`.
pub open spec fn stock_sum(cs: Seq<City>, fid: Seq<char>, f: spec_fn(City) -> int) -> int
    decreases cs.len(),
{
    if cs.len() == 0 {
        0
    } else {
        stock_sum(cs.drop_last(), fid, f) + if cs.last().faction_id@ == fid { f(cs.last()) } else { 0 }
    }
}

proof fn lemma_stock_sum_grows(cs: Seq<City>, fid: Seq<char>, f: spec_fn(City) -> int, i: int)
    requires
        0 <= i < cs.len(),
        forall|c: City| #[trigger] f(c) >= 0,
    ensures
        stock_sum(cs.take(i), fid, f) + (if cs[i].faction_id@ == fid { f(cs[i]) } else { 0 }) <= stock_sum(cs, fid, f),
        stock_sum(cs.take(i), fid, f) >= 0,
    decreases cs.len() - i,
{
    assert(cs.take(i + 1).drop_last() =~= cs.take(i));
    assert(cs.take(i + 1).last() == cs[i]);
    lemma_stock_sum_nonneg(cs.take(i), fid, f);
    if i + 1 < cs.len() {
        lemma_stock_sum_grows(cs, fid, f, i + 1);
        lemma_stock_sum_nonneg(cs.take(i + 1), fid, f);
    } else {
        assert(cs.take(i + 1) =~= cs);
    }
}

proof fn lemma_stock_sum_nonneg(cs: Seq<City>, fid: Seq<char>, f: spec_fn(City) -> int)
    requires
        forall|c: City| #[trigger] f(c) >= 0,
    ensures
        stock_sum(cs, fid, f) >= 0,
    decreases cs.len(),
{
    if cs.len() > 0 {
        lemma_stock_sum_nonneg(cs.drop_last(), fid, f);
    }
}

/// What faction `fid` can put into a treaty: the stocks of its cities, none
/// counted below zero. The sums must fit in `i32`.
pub fn faction_resource_bundle(game: &GameState, faction_id: &str) -> (b: ResourceBundle)
    requires
        stock_sum(game.cities@, faction_id@, |c: City| non_negative(c.gold)) <= i32::MAX,
        stock_sum(game.cities@, faction_id@, |c: City| non_negative(c.food)) <= i32::MAX,
        stock_sum(game.cities@, faction_id@, |c: City| non_negative(c.materials)) <= i32::MAX,
    ensures
        b.gold == stock_sum(game.cities@, faction_id@, |c: City| non_negative(c.gold)),
        b.food == stock_sum(game.cities@, faction_id@, |c: City| non_negative(c.food)),
        b.materials == stock_sum(game.cities@, faction_id@, |c: City| non_negative(c.materials)),
{
    let ghost cs = game.cities@;
    let ghost fid = faction_id@;
    let ghost fg = |c: City| non_negative(c.gold);
    let ghost ff = |c: City| non_negative(c.food);
    let ghost fm = |c: City| non_negative(c.materials);
    let mut b = ResourceBundle { gold: 0, food: 0, materials: 0 };
    let mut i: usize = 0;
    while i < game.cities.len()
        invariant
            cs == game.cities@,
            fid == faction_id@,
            fg == (|c: City| non_negative(c.gold)),
            ff == (|c: City| non_negative(c.food)),
            fm == (|c: City| non_negative(c.materials)),
            stock_sum(cs, fid, fg) <= i32::MAX,
            stock_sum(cs, fid, ff) <= i32::MAX,
            stock_sum(cs, fid, fm) <= i32::MAX,
            i <= cs.len(),
            b.gold == stock_sum(cs.take(i as int), fid, fg),
            b.food == stock_sum(cs.take(i as int), fid, ff),
            b.materials == stock_sum(cs.take(i as int), fid, fm),
        decreases cs.len() - i,
    {
        assert(cs.take(i as int + 1).drop_last() =~= cs.take(i as int));
        assert(cs.take(i as int + 1).last() == cs[i as int]);
        proof {
            lemma_stock_sum_grows(cs, fid, fg, i as int);
            lemma_stock_sum_grows(cs, fid, ff, i as int);
            lemma_stock_sum_grows(cs, fid, fm, i as int);
        }
        let city = &game.cities[i];
        if str_eq(city.faction_id.as_str(), faction_id) {
            let add = city_resource_bundle(city);
            b.gold = b.gold + add.gold;
            b.food = b.food + add.food;
            b.materials = b.materials + add.materials;
        }
        i = i + 1;
    }
    assert(cs.take(cs.len() as int) =~= cs);
    b
}

/// Whether `(na, ia)` comes before `(nb, ib)`: by name, then position.
pub open spec fn name_pos_less(na: Seq<char>, ia: int, nb: Seq<char>, ib: int) -> bool {
    seq_lt(na, nb) || (na == nb && ia < ib)
}

/// Positions `v` are ascending by `names` of the positions, then by position.
pub open spec fn ascending_by_name(v: Seq<usize>, names: Seq<Seq<char>>) -> bool {
    forall|i: int, j: int| 0 <= i < j < v.len() ==> name_pos_less(names[#[trigger] v[i] as int], v[i] as int, names[#[trigger] v[j] as int], v[j] as int)
}

/// Positions `picked` sorted by `names`, ties kept in position order.
pub(crate) fn sort_positions_by_name(picked: Vec<usize>, names: &Vec<&str>) -> (out: Vec<usize>)
    requires
        forall|i: int| 0 <= i < picked@.len() ==> picked@[i] < names@.len(),
        forall|i: int, j: int| 0 <= i < j < picked@.len() ==> picked@[i] != picked@[j],
    ensures
        out@.to_set() == picked@.to_set(),
        out@.len() == picked@.len(),
        ascending_by_name(out@, names@.map_values(|s: &str| s@)),
{
    let ghost ns = names@.map_values(|s: &str| s@);
    let mut rest = picked;
    let mut out: Vec<usize> = Vec::new();
    let ghost all = rest@;
    while rest.len() > 0
        invariant
            ns == names@.map_values(|s: &str| s@),
            forall|i: int| 0 <= i < rest@.len() ==> rest@[i] < names@.len(),
            forall|i: int| 0 <= i < out@.len() ==> out@[i] < names@.len(),
            forall|i: int, j: int| 0 <= i < j < rest@.len() ==> rest@[i] != rest@[j],
            forall|i: int, j: int| 0 <= i < out@.len() && 0 <= j < rest@.len() ==> name_pos_less(
                ns[#[trigger] out@[i] as int],
                out@[i] as int,
                ns[#[trigger] rest@[j] as int],
                rest@[j] as int,
            ),
            ascending_by_name(out@, ns),
            out@.to_set().union(rest@.to_set()) == all.to_set(),
            out@.len() + rest@.len() == all.len(),
        decreases rest.len(),
    {
        let mut best: usize = 0;
        let mut k: usize = 1;
        while k < rest.len()
            invariant
                ns == names@.map_values(|s: &str| s@),
                forall|i: int| 0 <= i < rest@.len() ==> rest@[i] < names@.len(),
                forall|i: int, j: int| 0 <= i < j < rest@.len() ==> rest@[i] != rest@[j],
                0 <= best < k <= rest.len(),
                forall|j: int| 0 <= j < k && j != best ==> name_pos_less(
                    ns[rest@[best as int] as int],
                    rest@[best as int] as int,
                    ns[#[trigger] rest@[j] as int],
                    rest@[j] as int,
                ),
            decreases rest.len() - k,
        {
            let a = rest[k];
            let b = rest[best];
            assert(ns[a as int] == names@[a as int]@);
            assert(ns[b as int] == names@[b as int]@);
            let before = str_less(names[a], names[b]) || (str_eq(names[a], names[b]) && a < b);
            proof {
                lemma_seq_lt_total(ns[a as int], ns[b as int]);
                lemma_seq_lt_irreflexive(ns[a as int]);
                lemma_seq_lt_irreflexive(ns[b as int]);
                if seq_lt(ns[a as int], ns[b as int]) && seq_lt(ns[b as int], ns[a as int]) {
                    lemma_seq_lt_transitive(ns[a as int], ns[b as int], ns[a as int]);
                }
            }
            if before {
                proof {
                    assert forall|j: int| 0 <= j < k + 1 && j != k implies name_pos_less(
                        ns[rest@[k as int] as int],
                        rest@[k as int] as int,
                        ns[#[trigger] rest@[j] as int],
                        rest@[j] as int,
                    ) by {
                        if j != best {
                            let c = rest@[j];
                            if seq_lt(ns[a as int], ns[b as int]) && seq_lt(ns[b as int], ns[c as int]) {
                                lemma_seq_lt_transitive(ns[a as int], ns[b as int], ns[c as int]);
                            }
                        }
                    }
                }
                best = k;
            }
            k = k + 1;
        }
        let ghost before_rest = rest@;
        let ghost before_out = out@;
        let x = rest.remove(best);
        out.push(x);
        proof {
            assert(rest@ == before_rest.remove(best as int));
            assert forall|i: int, j: int| 0 <= i < j < out@.len() implies name_pos_less(
                ns[#[trigger] out@[i] as int],
                out@[i] as int,
                ns[#[trigger] out@[j] as int],
                out@[j] as int,
            ) by {
                if j == out@.len() - 1 {
                    assert(out@[j] == before_rest[best as int]);
                }
            }
            assert forall|i: int, j: int| 0 <= i < out@.len() && 0 <= j < rest@.len() implies name_pos_less(
                ns[#[trigger] out@[i] as int],
                out@[i] as int,
                ns[#[trigger] rest@[j] as int],
                rest@[j] as int,
            ) by {
                let jj = if j < best { j } else { j + 1 };
                assert(rest@[j] == before_rest[jj]);
                if i == out@.len() - 1 {
                    assert(jj != best);
                }
            }
            assert forall|i: int, j: int| 0 <= i < j < rest@.len() implies rest@[i] != rest@[j] by {
                let ii = if i < best { i } else { i + 1 };
                let jj = if j < best { j } else { j + 1 };
                assert(rest@[i] == before_rest[ii]);
                assert(rest@[j] == before_rest[jj]);
            }
            assert(out@.to_set().union(rest@.to_set()) =~= all.to_set()) by {
                assert forall|v: usize| out@.to_set().union(rest@.to_set()).contains(v) implies all.to_set().contains(v) by {
                    if out@.to_set().contains(v) {
                        let i = choose|i: int| 0 <= i < out@.len() && out@[i] == v;
                        if i < before_out.len() {
                            assert(before_out[i] == v);
                            assert(before_out.to_set().contains(v));
                        } else {
                            assert(before_rest.to_set().contains(v));
                        }
                    } else {
                        let i = choose|i: int| 0 <= i < rest@.len() && rest@[i] == v;
                        let ii = if i < best { i } else { i + 1 };
                        assert(before_rest[ii] == v);
                        assert(before_rest.to_set().contains(v));
                    }
                }
                assert forall|v: usize| all.to_set().contains(v) implies out@.to_set().union(rest@.to_set()).contains(v) by {
                    if before_out.to_set().contains(v) {
                        let i = choose|i: int| 0 <= i < before_out.len() && before_out[i] == v;
                        assert(out@[i] == v);
                        assert(out@.to_set().contains(v));
                    } else {
                        assert(before_rest.to_set().contains(v));
                        let i = choose|i: int| 0 <= i < before_rest.len() && before_rest[i] == v;
                        if i == best {
                            assert(out@[out@.len() - 1] == v);
                            assert(out@.to_set().contains(v));
                        } else if i < best {
                            assert(rest@[i] == v);
                            assert(rest@.to_set().contains(v));
                        } else {
                            assert(rest@[i - 1] == v);
                            assert(rest@.to_set().contains(v));
                        }
                    }
                }
            }
        }
    }
    assert(rest@.to_set() =~= Set::<usize>::empty());
    assert(out@.to_set() =~= out@.to_set().union(rest@.to_set()));
    out
}

/// The factions the player can treat with: every other faction that still
/// holds a city, by name, ties in table order. Given as positions in the
/// faction table.
pub fn diplomacy_targets(game: &GameState) -> (v: Vec<usize>)
    ensures
        forall|i: int| 0 <= i < v@.len() ==> v@[i] < game.factions@.len(),
        forall|k: int| 0 <= k < game.factions@.len() ==> (v@.contains(k as usize) <==> (game.factions@[k].id@
            != game.player_faction_id@ && holds_city(game.cities@, game.factions@[k].id@))),
        ascending_by_name(v@, game.factions@.map_values(|f: crate::game::Faction| f.name@)),
{
    let mut picked: Vec<usize> = Vec::new();
    let mut names: Vec<&str> = Vec::new();
    let mut i: usize = 0;
    while i < game.factions.len()
        invariant
            i <= game.factions@.len(),
            names@.len() == i,
            forall|k: int| 0 <= k < i ==> (#[trigger] names@[k])@ == game.factions@[k].name@,
            forall|k: int| 0 <= k < picked@.len() ==> picked@[k] < i,
            forall|a: int, b: int| 0 <= a < b < picked@.len() ==> picked@[a] < picked@[b],
            forall|k: int| 0 <= k < i ==> (picked@.contains(k as usize) <==> (game.factions@[k].id@ != game.player_faction_id@
                && holds_city(game.cities@, game.factions@[k].id@))),
        decreases game.factions@.len() - i,
    {
        let f = &game.factions[i];
        let keep = !str_eq(f.id.as_str(), game.player_faction_id.as_str()) && game.faction_alive(f.id.as_str());
        let ghost before = picked@;
        if keep {
            picked.push(i);
        }
        names.push(f.name.as_str());
        proof {
            assert forall|k: int| 0 <= k < i + 1 implies (picked@.contains(k as usize) <==> (game.factions@[k].id@
                != game.player_faction_id@ && holds_city(game.cities@, game.factions@[k].id@))) by {
                if picked@.contains(k as usize) && k < i {
                    let w = choose|w: int| 0 <= w < picked@.len() && picked@[w] == k as usize;
                    if w < before.len() {
                        assert(before[w] == k as usize);
                    }
                }
                if before.contains(k as usize) {
                    let w = choose|w: int| 0 <= w < before.len() && before[w] == k as usize;
                    assert(picked@[w] == k as usize);
                }
                if k == i && keep {
                    assert(picked@[picked@.len() - 1] == k as usize);
                }
                if k == i && !keep && picked@.contains(k as usize) {
                    let w = choose|w: int| 0 <= w < picked@.len() && picked@[w] == k as usize;
                    assert(before[w] < i);
                }
            }
        }
        i = i + 1;
    }
    proof {
        assert(names@.map_values(|s: &str| s@) =~= game.factions@.map_values(|f: crate::game::Faction| f.name@));
    }
    let v = sort_positions_by_name(picked, &names);
    proof {
        assert forall|k: int| 0 <= k < game.factions@.len() implies (v@.contains(k as usize) <==> #[trigger] picked@.contains(k as usize)) by {
            assert(v@.to_set().contains(k as usize) <==> picked@.to_set().contains(k as usize));
        }
        assert forall|i: int| 0 <= i < v@.len() implies v@[i] < game.factions@.len() by {
            assert(v@.to_set().contains(v@[i]));
            assert(picked@.to_set().contains(v@[i]));
        }
    }
    v
}

/// The player's cities, by name, ties in table order. Given as positions in
/// the city table.
pub fn player_cities(game: &GameState) -> (v: Vec<usize>)
    ensures
        forall|i: int| 0 <= i < v@.len() ==> v@[i] < game.cities@.len(),
        forall|k: int| 0 <= k < game.cities@.len() ==> (v@.contains(k as usize) <==> game.cities@[k].faction_id@
            == game.player_faction_id@),
        ascending_by_name(v@, game.cities@.map_values(|c: City| c.name@)),
{
    let mut picked: Vec<usize> = Vec::new();
    let mut names: Vec<&str> = Vec::new();
    let mut i: usize = 0;
    while i < game.cities.len()
        invariant
            i <= game.cities@.len(),
            names@.len() == i,
            forall|k: int| 0 <= k < i ==> (#[trigger] names@[k])@ == game.cities@[k].name@,
            forall|k: int| 0 <= k < picked@.len() ==> picked@[k] < i,
            forall|a: int, b: int| 0 <= a < b < picked@.len() ==> picked@[a] < picked@[b],
            forall|k: int| 0 <= k < i ==> (picked@.contains(k as usize) <==> game.cities@[k].faction_id@ == game.player_faction_id@),
        decreases game.cities@.len() - i,
    {
        let c = &game.cities[i];
        let keep = str_eq(c.faction_id.as_str(), game.player_faction_id.as_str());
        let ghost before = picked@;
        if keep {
            picked.push(i);
        }
        names.push(c.name.as_str());
        proof {
            assert forall|k: int| 0 <= k < i + 1 implies (picked@.contains(k as usize) <==> game.cities@[k].faction_id@
                == game.player_faction_id@) by {
                if picked@.contains(k as usize) && k < i {
                    let w = choose|w: int| 0 <= w < picked@.len() && picked@[w] == k as usize;
                    if w < before.len() {
                        assert(before[w] == k as usize);
                    }
                }
                if before.contains(k as usize) {
                    let w = choose|w: int| 0 <= w < before.len() && before[w] == k as usize;
                    assert(picked@[w] == k as usize);
                }
                if k == i && keep {
                    assert(picked@[picked@.len() - 1] == k as usize);
                }
                if k == i && !keep && picked@.contains(k as usize) {
                    let w = choose|w: int| 0 <= w < picked@.len() && picked@[w] == k as usize;
                    assert(before[w] < i);
                }
            }
        }
        i = i + 1;
    }
    proof {
        assert(names@.map_values(|s: &str| s@) =~= game.cities@.map_values(|c: City| c.name@));
    }
    let v = sort_positions_by_name(picked, &names);
    proof {
        assert forall|k: int| 0 <= k < game.cities@.len() implies (v@.contains(k as usize) <==> #[trigger] picked@.contains(k as usize)) by {
            assert(v@.to_set().contains(k as usize) <==> picked@.to_set().contains(k as usize));
        }
        assert forall|i: int| 0 <= i < v@.len() implies v@[i] < game.cities@.len() by {
            assert(v@.to_set().contains(v@[i]));
            assert(picked@.to_set().contains(v@[i]));
        }
    }
    v
}

/// The kinds of proposal the player can send.
#[derive(Clone, Copy, Debug, PartialEq, Eq, Structural)]
pub enum DiplomacyActionKind {
    ImproveRelations,
    ResourceExchange,
    Truce,
    RequestPeace,
    PassageRight,
    DeclareWar,
}

impl Default for ResourceBundle {
    fn default() -> (b: Self)
        ensures
            b == (ResourceBundle { gold: 0, food: 0, materials: 0 }),
    {
        ResourceBundle { gold: 0, food: 0, materials: 0 }
    }
}

/// The proposal being drawn up in the diplomacy window.
#[derive(Clone, Debug)]
pub struct DiplomacyDraft {
    pub target: Option<String>,
    pub action: DiplomacyActionKind,
    pub source_city: Option<String>,
    pub receive_city: Option<String>,
    pub offer: ResourceBundle,
    pub request: ResourceBundle,
}

/// The terms that `action` leaves open: improving relations asks nothing in
/// return, and a declaration of war neither offers nor asks anything.
pub fn normalize_diplomacy_terms(draft: &mut DiplomacyDraft)
    ensures
        final(draft).target == old(draft).target,
        final(draft).action == old(draft).action,
        final(draft).source_city == old(draft).source_city,
        final(draft).receive_city == old(draft).receive_city,
        final(draft).offer == if old(draft).action == DiplomacyActionKind::DeclareWar {
            ResourceBundle { gold: 0, food: 0, materials: 0 }
        } else {
            old(draft).offer
        },
        final(draft).request == match old(draft).action {
            DiplomacyActionKind::ImproveRelations | DiplomacyActionKind::DeclareWar => ResourceBundle { gold: 0, food: 0, materials: 0 },
            _ => old(draft).request,
        },
{
    match draft.action {
        DiplomacyActionKind::ImproveRelations => {
            draft.request = ResourceBundle::default();
        },
        DiplomacyActionKind::DeclareWar => {
            draft.offer = ResourceBundle::default();
            draft.request = ResourceBundle::default();
        },
        _ => {},
    }
}

/// Faction `k` of `game` is one the player can treat with.
pub open spec fn target_eligible(game: GameState, k: int) -> bool {
    game.factions@[k].id@ != game.player_faction_id@ && holds_city(game.cities@, game.factions@[k].id@)
}

/// `chosen` keeps `kept` when it names the identifier `id(k)` of a position
/// `k` that passes `ok`; otherwise it names the first such position by name,
/// ties by position, or is `None` when there is none.
pub open spec fn default_choice(
    kept: Option<String>,
    chosen: Option<String>,
    n: int,
    ok: spec_fn(int) -> bool,
    id: spec_fn(int) -> Seq<char>,
    name: spec_fn(int) -> Seq<char>,
) -> bool {
    if kept matches Some(t) && exists|k: int| 0 <= k < n && ok(k) && #[trigger] id(k) == t@ {
        chosen matches Some(c) && kept matches Some(t) && c@ == t@
    } else if exists|k: int| 0 <= k < n && #[trigger] ok(k) {
        exists|k: int| #![trigger ok(k)] {
            &&& 0 <= k < n && ok(k)
            &&& chosen matches Some(c) && c@ == id(k)
            &&& forall|j: int| #![trigger ok(j)] 0 <= j < n && ok(j) && j != k ==> name_pos_less(name(k), k, name(j), j)
        }
    } else {
        chosen is None
    }
}

/// Whether `id` is the identifier of one of the positions `v` in `ids`.
fn listed_id(v: &Vec<usize>, ids: &Vec<&str>, id: &str) -> (b: bool)
    requires
        forall|i: int| 0 <= i < v@.len() ==> v@[i] < ids@.len(),
    ensures
        b == exists|i: int| 0 <= i < v@.len() && (#[trigger] ids@[v@[i] as int])@ == id@,
{
    let mut i: usize = 0;
    while i < v.len()
        invariant
            i <= v@.len(),
            forall|i: int| 0 <= i < v@.len() ==> v@[i] < ids@.len(),
            forall|j: int| 0 <= j < i ==> (#[trigger] ids@[v@[j] as int])@ != id@,
        decreases v@.len() - i,
    {
        if str_eq(ids[v[i]], id) {
            return true;
        }
        i = i + 1;
    }
    false
}

/// Keeps a target and cities that are still open to the player, and
/// otherwise picks the first of each by name; then clears the terms that the
/// chosen action leaves open.
pub fn ensure_diplomacy_defaults(draft: &mut DiplomacyDraft, game: &GameState)
    ensures
        default_choice(
            old(draft).target,
            final(draft).target,
            game.factions@.len() as int,
            |k: int| target_eligible(*game, k),
            |k: int| game.factions@[k].id@,
            |k: int| game.factions@[k].name@,
        ),
        default_choice(
            old(draft).source_city,
            final(draft).source_city,
            game.cities@.len() as int,
            |k: int| game.cities@[k].faction_id@ == game.player_faction_id@,
            |k: int| game.cities@[k].id@,
            |k: int| game.cities@[k].name@,
        ),
        default_choice(
            old(draft).receive_city,
            final(draft).receive_city,
            game.cities@.len() as int,
            |k: int| game.cities@[k].faction_id@ == game.player_faction_id@,
            |k: int| game.cities@[k].id@,
            |k: int| game.cities@[k].name@,
        ),
        final(draft).action == old(draft).action,
        final(draft).offer == if old(draft).action == DiplomacyActionKind::DeclareWar {
            ResourceBundle { gold: 0, food: 0, materials: 0 }
        } else {
            old(draft).offer
        },
        final(draft).request == match old(draft).action {
            DiplomacyActionKind::ImproveRelations | DiplomacyActionKind::DeclareWar => ResourceBundle { gold: 0, food: 0, materials: 0 },
            _ => old(draft).request,
        },
{
    let ghost fok = |k: int| target_eligible(*game, k);
    let ghost fid = |k: int| game.factions@[k].id@;
    let ghost fname = |k: int| game.factions@[k].name@;
    let ghost cok = |k: int| game.cities@[k].faction_id@ == game.player_faction_id@;
    let ghost cid = |k: int| game.cities@[k].id@;
    let ghost cname = |k: int| game.cities@[k].name@;
    let targets = diplomacy_targets(game);
    let mut fids: Vec<&str> = Vec::new();
    let mut i: usize = 0;
    while i < game.factions.len()
        invariant
            i <= game.factions@.len(),
            fids@.len() == i,
            forall|k: int| 0 <= k < i ==> (#[trigger] fids@[k])@ == game.factions@[k].id@,
        decreases game.factions@.len() - i,
    {
        fids.push(game.factions[i].id.as_str());
        i = i + 1;
    }
    proof {
        assert(Seq::new(fids@.len(), |k: int| fname(k)) =~= game.factions@.map_values(|f: crate::game::Faction| f.name@));
    }
    let target = choose_default(&draft.target, &targets, &fids, Ghost(fok), Ghost(fid), Ghost(fname));
    let cities = player_cities(game);
    let mut cids: Vec<&str> = Vec::new();
    let mut i: usize = 0;
    while i < game.cities.len()
        invariant
            i <= game.cities@.len(),
            cids@.len() == i,
            forall|k: int| 0 <= k < i ==> (#[trigger] cids@[k])@ == game.cities@[k].id@,
        decreases game.cities@.len() - i,
    {
        cids.push(game.cities[i].id.as_str());
        i = i + 1;
    }
    proof {
        assert(Seq::new(cids@.len(), |k: int| cname(k)) =~= game.cities@.map_values(|c: City| c.name@));
    }
    let source = choose_default(&draft.source_city, &cities, &cids, Ghost(cok), Ghost(cid), Ghost(cname));
    let receive = choose_default(&draft.receive_city, &cities, &cids, Ghost(cok), Ghost(cid), Ghost(cname));
    draft.target = target;
    draft.source_city = source;
    draft.receive_city = receive;
    normalize_diplomacy_terms(draft);
}

/// `kept` when it is the identifier of one of the positions `v`, else the
/// identifier of the first of `v`, or `None` when `v` is empty. `v` lists,
/// ascending by name, exactly the positions that pass `ok`.
fn choose_default(
    kept: &Option<String>,
    v: &Vec<usize>,
    ids: &Vec<&str>,
    Ghost(ok): Ghost<spec_fn(int) -> bool>,
    Ghost(id): Ghost<spec_fn(int) -> Seq<char>>,
    Ghost(name): Ghost<spec_fn(int) -> Seq<char>>,
) -> (chosen: Option<String>)
    requires
        forall|i: int| 0 <= i < v@.len() ==> v@[i] < ids@.len(),
        forall|k: int| 0 <= k < ids@.len() ==> (#[trigger] ids@[k])@ == id(k),
        forall|k: int| 0 <= k < ids@.len() ==> (v@.contains(k as usize) <==> #[trigger] ok(k)),
        ascending_by_name(v@, Seq::new(ids@.len(), |k: int| name(k))),
    ensures
        default_choice(*kept, chosen, ids@.len() as int, ok, id, name),
{
    let ghost n = ids@.len() as int;
    let keep = match kept {
        Some(t) => listed_id(v, ids, t.as_str()),
        None => false,
    };
    proof {
        if kept is Some {
            let t = kept->0;
            if exists|k: int| 0 <= k < n && ok(k) && #[trigger] id(k) == t@ {
                let k = choose|k: int| 0 <= k < n && ok(k) && #[trigger] id(k) == t@;
                assert(v@.contains(k as usize));
                let i = choose|i: int| 0 <= i < v@.len() && v@[i] == k as usize;
                assert(k < ids.len());
                assert(v@[i] as int == k);
                assert(ids@[k]@ == id(k));
                assert(ids@[v@[i] as int]@ == t@);
            }
            if keep {
                let i = choose|i: int| 0 <= i < v@.len() && (#[trigger] ids@[v@[i] as int])@ == t@;
                let k = v@[i] as int;
                assert(v@.contains(k as usize));
                assert(ok(k) && id(k) == t@);
            }
        }
    }
    if keep {
        return match kept {
            Some(t) => Some(owned(t.as_str())),
            None => None,
        };
    }
    if v.len() == 0 {
        proof {
            assert forall|k: int| 0 <= k < n implies !#[trigger] ok(k) by {
                if ok(k) {
                    assert(v@.contains(k as usize));
                }
            }
        }
        return None;
    }
    let first = owned(ids[v[0]]);
    proof {
        let k = v@[0] as int;
        assert(v@.contains(k as usize));
        assert(ok(k));
        assert forall|j: int| #![trigger ok(j)] 0 <= j < n && ok(j) && j != k implies name_pos_less(name(k), k, name(j), j) by {
            assert(v@.contains(j as usize));
            let w = choose|w: int| 0 <= w < v@.len() && v@[w] == j as usize;
            assert(j < ids.len());
            assert(v@[w] as int == j);
            assert(w != 0);
            assert(v@[w] < ids@.len());
            assert(Seq::new(ids@.len(), |k: int| name(k))[v@[0] as int] == name(k));
            assert(Seq::new(ids@.len(), |k: int| name(k))[v@[w] as int] == name(j));
        }
    }
    Some(first)
}

/// A proposal as it is sent to another faction.
#[derive(Clone, Debug)]
pub struct DiplomacyOrder {
    pub issuer_faction_id: String,
    pub target_faction_id: String,
    pub kind: DiplomacyActionKind,
    pub source_city_id: String,
    pub receive_city_id: String,
    pub offer: ResourceBundle,
    pub request: ResourceBundle,
    pub submitted_turn: u32,
}

/// The order the draft stands for: `None` until a target and both cities are
/// chosen; issued by the player in the current turn.
pub fn candidate_order(draft: &DiplomacyDraft, game: &GameState) -> (o: Option<DiplomacyOrder>)
    ensures
        o is Some <==> (draft.target is Some && draft.source_city is Some && draft.receive_city is Some),
        o matches Some(order) ==> {
            &&& order.issuer_faction_id@ == game.player_faction_id@
            &&& draft.target matches Some(t) && order.target_faction_id@ == t@
            &&& order.kind == draft.action
            &&& draft.source_city matches Some(c) && order.source_city_id@ == c@
            &&& draft.receive_city matches Some(c) && order.receive_city_id@ == c@
            &&& order.offer == draft.offer
            &&& order.request == draft.request
            &&& order.submitted_turn == game.turn
        },
{
    let target = match &draft.target {
        Some(t) => owned(t.as_str()),
        None => return None,
    };
    let source = match &draft.source_city {
        Some(c) => owned(c.as_str()),
        None => return None,
    };
    let receive = match &draft.receive_city {
        Some(c) => owned(c.as_str()),
        None => return None,
    };
    Some(DiplomacyOrder {
        issuer_faction_id: owned(game.player_faction_id.as_str()),
        target_faction_id: target,
        kind: draft.action,
        source_city_id: source,
        receive_city_id: receive,
        offer: draft.offer,
        request: draft.request,
        submitted_turn: game.turn,
    })
}

/// A choice made by default is kept when the defaults are drawn up again
/// from it: asking for the diplomacy defaults twice gives what asking once
/// gave.
pub proof fn lemma_default_choice_stable(
    kept: Option<String>,
    first: Option<String>,
    second: Option<String>,
    n: int,
    ok: spec_fn(int) -> bool,
    id: spec_fn(int) -> Seq<char>,
    name: spec_fn(int) -> Seq<char>,
)
    requires
        default_choice(kept, first, n, ok, id, name),
        default_choice(first, second, n, ok, id, name),
    ensures
        first is Some <==> second is Some,
        first matches Some(a) ==> (second matches Some(b) && b@ == a@),
{
    if first is Some {
        let a = first->0;
        if kept matches Some(t) && exists|k: int| 0 <= k < n && ok(k) && #[trigger] id(k) == t@ {
            let k = choose|k: int| 0 <= k < n && ok(k) && #[trigger] id(k) == kept->0@;
            assert(id(k) == a@);
        } else {
            let k = choose|k: int| #![trigger ok(k)] {
                &&& 0 <= k < n && ok(k)
                &&& first matches Some(c) && c@ == id(k)
                &&& forall|j: int| #![trigger ok(j)] 0 <= j < n && ok(j) && j != k ==> name_pos_less(name(k), k, name(j), j)
            };
            assert(id(k) == a@);
        }
    }
}

/// Clearing the terms an action leaves open a second time changes nothing.
pub proof fn lemma_normalized_terms_stable(d: DiplomacyDraft, e: DiplomacyDraft, f: DiplomacyDraft)
    requires
        e.action == d.action,
        e.offer == (if d.action == DiplomacyActionKind::DeclareWar { ResourceBundle { gold: 0, food: 0, materials: 0 } } else { d.offer }),
        e.request == (match d.action {
            DiplomacyActionKind::ImproveRelations | DiplomacyActionKind::DeclareWar => ResourceBundle { gold: 0, food: 0, materials: 0 },
            _ => d.request,
        }),
        f.action == e.action,
        f.offer == (if e.action == DiplomacyActionKind::DeclareWar { ResourceBundle { gold: 0, food: 0, materials: 0 } } else { e.offer }),
        f.request == (match e.action {
            DiplomacyActionKind::ImproveRelations | DiplomacyActionKind::DeclareWar => ResourceBundle { gold: 0, food: 0, materials: 0 },
            _ => e.request,
        }),
    ensures
        f.offer == e.offer,
        f.request == e.request,
{
}

/// The standing between the player and another faction, as the diplomacy
/// window reads it.
#[derive(Clone, Debug)]
pub struct FactionRelation {
    pub score: i16,
    /// The last turn of a truce, if one was made.
    pub truce_until_turn: Option<u32>,
    /// Rights of passage: the faction that holds one, and its last turn.
    pub passage_rights: Vec<(String, u32)>,
}

/// The relation between two factions, recorded for the pair either way round.
#[derive(Clone, Debug)]
pub struct FactionPairRelation {
    pub first: String,
    pub second: String,
    pub relation: FactionRelation,
}

/// The position of the first record of `rs` for the pair of `a` and `b`,
/// whichever way round it was recorded.
pub open spec fn relation_index(rs: Seq<FactionPairRelation>, a: Seq<char>, b: Seq<char>) -> Option<int>
    decreases rs.len(),
{
    if rs.len() == 0 {
        None
    } else if (rs[0].first@ == a && rs[0].second@ == b) || (rs[0].first@ == b && rs[0].second@ == a) {
        Some(0)
    } else {
        match relation_index(rs.drop_first(), a, b) {
            Some(i) => Some(i + 1),
            None => None,
        }
    }
}

/// The relation between factions `a` and `b` in `rs`, if one is recorded.
pub open spec fn relation_between(rs: Seq<FactionPairRelation>, a: Seq<char>, b: Seq<char>) -> Option<FactionRelation> {
    match relation_index(rs, a, b) {
        Some(i) => Some(rs[i].relation),
        None => None,
    }
}

/// The relation between factions `a` and `b`, if one is recorded.
pub fn find_relation<'a>(rs: &'a Vec<FactionPairRelation>, a: &str, b: &str) -> (r: Option<&'a FactionRelation>)
    ensures
        match r {
            Some(x) => relation_between(rs@, a@, b@) == Some(*x),
            None => relation_between(rs@, a@, b@) is None,
        },
{
    let mut i: usize = 0;
    assert(rs@.skip(0) =~= rs@);
    while i < rs.len()
        invariant
            i <= rs.len(),
            relation_index(rs@, a@, b@) == match relation_index(rs@.skip(i as int), a@, b@) {
                Some(j) => Some(j + i),
                None => None::<int>,
            },
        decreases rs.len() - i,
    {
        assert(rs@.skip(i as int).drop_first() =~= rs@.skip(i as int + 1));
        let e = &rs[i];
        if (str_eq(e.first.as_str(), a) && str_eq(e.second.as_str(), b)) || (str_eq(e.first.as_str(), b) && str_eq(
            e.second.as_str(),
            a,
        )) {
            return Some(&e.relation);
        }
        i = i + 1;
    }
    None
}

/// The last turn of the passage right that `rights` give faction `fid`.
pub open spec fn passage_until(rights: Seq<(String, u32)>, fid: Seq<char>) -> Option<u32>
    decreases rights.len(),
{
    if rights.len() == 0 {
        None
    } else if rights[0].0@ == fid {
        Some(rights[0].1)
    } else {
        passage_until(rights.drop_first(), fid)
    }
}

/// `until` when it is not before `turn`: a term still running.
pub open spec fn running(until: Option<u32>, turn: u32) -> Option<u32> {
    match until {
        Some(u) => if u >= turn { Some(u) } else { None },
        None => None,
    }
}

/// The relation lines of the proposal pane.
#[derive(Clone, Copy, Debug, PartialEq, Eq, Structural)]
pub struct RelationSummary {
    /// The relation score; 0 without a relation.
    pub score: i16,
    /// The last turn of a running truce.
    pub truce_until: Option<u32>,
    /// The last turn of the player's running right of passage.
    pub passage_until: Option<u32>,
}

fn passage_until_exec(rights: &Vec<(String, u32)>, fid: &str) -> (r: Option<u32>)
    ensures
        r == passage_until(rights@, fid@),
{
    let mut i: usize = 0;
    assert(rights@.skip(0) =~= rights@);
    while i < rights.len()
        invariant
            i <= rights.len(),
            passage_until(rights@, fid@) == passage_until(rights@.skip(i as int), fid@),
        decreases rights.len() - i,
    {
        assert(rights@.skip(i as int).drop_first() =~= rights@.skip(i as int + 1));
        if str_eq(rights[i].0.as_str(), fid) {
            return Some(rights[i].1);
        }
        i = i + 1;
    }
    None
}

fn running_exec(until: Option<u32>, turn: u32) -> (r: Option<u32>)
    ensures
        r == running(until, turn),
{
    match until {
        Some(u) => if u >= turn { Some(u) } else { None },
        None => None,
    }
}

/// What the proposal pane shows of the relation with the chosen faction in
/// turn `turn`: its score, a truce that still runs, and the player's right
/// of passage that still runs.
pub fn relation_summary(relation: Option<&FactionRelation>, player_faction_id: &str, turn: u32) -> (r: RelationSummary)
    ensures
        r == (match relation {
            Some(x) => RelationSummary {
                score: x.score,
                truce_until: running(x.truce_until_turn, turn),
                passage_until: running(passage_until(x.passage_rights@, player_faction_id@), turn),
            },
            None => RelationSummary { score: 0, truce_until: None, passage_until: None },
        }),
{
    match relation {
        Some(x) => RelationSummary {
            score: x.score,
            truce_until: running_exec(x.truce_until_turn, turn),
            passage_until: running_exec(passage_until_exec(&x.passage_rights, player_faction_id), turn),
        },
        None => RelationSummary { score: 0, truce_until: None, passage_until: None },
    }
}

/// How the target list sums up the player's standing with a faction.
#[derive(Clone, Copy, Debug, PartialEq, Eq, Structural)]
pub enum DiplomacyStatus {
    Hostile,
    TruceAndPassage,
    Truce,
    Passage,
    Open,
}

/// Hostility outweighs everything; else a truce and a right of passage are
/// shown as they hold.
pub open spec fn status_of(hostile: bool, truce: bool, passage: bool) -> DiplomacyStatus {
    if hostile {
        DiplomacyStatus::Hostile
    } else if truce && passage {
        DiplomacyStatus::TruceAndPassage
    } else if truce {
        DiplomacyStatus::Truce
    } else if passage {
        DiplomacyStatus::Passage
    } else {
        DiplomacyStatus::Open
    }
}

/// The standing shown for a faction, from what the game says of the
/// relation: hostile, under a running truce, with a running right of passage.
pub fn diplomacy_status(hostile: bool, truce: bool, passage: bool) -> (s: DiplomacyStatus)
    ensures
        s == status_of(hostile, truce, passage),
{
    if hostile {
        DiplomacyStatus::Hostile
    } else if truce && passage {
        DiplomacyStatus::TruceAndPassage
    } else if truce {
        DiplomacyStatus::Truce
    } else if passage {
        DiplomacyStatus::Passage
    } else {
        DiplomacyStatus::Open
    }
}

/// One line of the target list.
#[derive(Debug)]
pub struct DiplomacyTargetRow {
    pub faction_id: String,
    pub name: String,
    pub cities: usize,
    /// The relation score; 0 without a relation.
    pub score: i16,
    pub troops: u64,
    pub status: DiplomacyStatus,
    /// A truce or a right of passage holds: the line is drawn in the
    /// friendly colour.
    pub friendly: bool,
}

/// The target-list line of `faction`: its cities and troops in `game`, the
/// relation score, and the standing from the game's `hostile`, `truce` and
/// `passage` verdicts on the relation.
pub fn diplomacy_target_row(
    game: &GameState,
    faction: &Faction,
    relation: Option<&FactionRelation>,
    hostile: bool,
    truce: bool,
    passage: bool,
) -> (r: DiplomacyTargetRow)
    requires
        totals_fit(*game),
    ensures
        r.faction_id@ == faction.id@,
        r.name@ == faction.name@,
        exists|t: FactionCityTotals| city_totals_of(t, game.cities@, faction.id@) && r.cities == t.city_count && r.troops == t.troops,
        r.score == (match relation { Some(x) => x.score, None => 0 }),
        r.status == status_of(hostile, truce, passage),
        r.friendly == (truce || passage),
{
    let totals = faction_city_totals(game, faction.id.as_str());
    DiplomacyTargetRow {
        faction_id: owned(faction.id.as_str()),
        name: owned(faction.name.as_str()),
        cities: totals.city_count,
        score: match relation {
            Some(x) => x.score,
            None => 0,
        },
        troops: totals.troops,
        status: diplomacy_status(hostile, truce, passage),
        friendly: truce || passage,
    }
}

/// How a relation score is coloured.
#[derive(Clone, Copy, Debug, PartialEq, Eq, Structural)]
pub enum RelationTone {
    /// 50 and above.
    Warm,
    /// 0 to 49.
    Neutral,
    /// -39 to -1.
    Strained,
    /// -40 and below.
    Hostile,
}

/// The tone of relation score `score`.
pub fn relation_tone(score: i16) -> (t: RelationTone)
    ensures
        t == (if score >= 50 {
            RelationTone::Warm
        } else if score >= 0 {
            RelationTone::Neutral
        } else if score >= -39 {
            RelationTone::Strained
        } else {
            RelationTone::Hostile
        }),
{
    if score >= 50 {
        RelationTone::Warm
    } else if score >= 0 {
        RelationTone::Neutral
    } else if score >= -39 {
        RelationTone::Strained
    } else {
        RelationTone::Hostile
    }
}

/// The acceptance score from which a proposal of kind `kind` is shown as
/// likely to pass; improving relations and declaring war always are.
pub open spec fn acceptance_threshold(kind: DiplomacyActionKind) -> Option<int> {
    match kind {
        DiplomacyActionKind::ImproveRelations => None,
        DiplomacyActionKind::DeclareWar => None,
        DiplomacyActionKind::ResourceExchange => Some(0),
        DiplomacyActionKind::Truce => Some(-40),
        DiplomacyActionKind::RequestPeace => Some(-20),
        DiplomacyActionKind::PassageRight => Some(10),
    }
}

/// Whether the acceptance score `score` of a proposal of kind `kind` is
/// shown in the favourable colour.
pub fn acceptance_favourable(kind: DiplomacyActionKind, score: i32) -> (b: bool)
    ensures
        b == match acceptance_threshold(kind) {
            Some(t) => score >= t,
            None => true,
        },
{
    match kind {
        DiplomacyActionKind::ImproveRelations => true,
        DiplomacyActionKind::DeclareWar => true,
        DiplomacyActionKind::ResourceExchange => score >= 0,
        DiplomacyActionKind::Truce => score >= -40,
        DiplomacyActionKind::RequestPeace => score >= -20,
        DiplomacyActionKind::PassageRight => score >= 10,
    }
}

/// Which terms a proposal of kind `kind` may carry: (an offer, a request).
/// War offers and asks nothing; improving relations asks nothing.
pub fn term_permissions(kind: DiplomacyActionKind) -> (r: (bool, bool))
    ensures
        r.0 == (kind != DiplomacyActionKind::DeclareWar),
        r.1 == (kind != DiplomacyActionKind::DeclareWar && kind != DiplomacyActionKind::ImproveRelations),
{
    let offer = match kind {
        DiplomacyActionKind::DeclareWar => false,
        _ => true,
    };
    let request = match kind {
        DiplomacyActionKind::DeclareWar => false,
        DiplomacyActionKind::ImproveRelations => false,
        _ => true,
    };
    (offer, request)
}

/// What sending a proposal came to.
#[derive(Debug)]
pub enum SubmissionOutcome {
    /// It is queued; the terms are cleared for the next one.
    Submitted,
    /// The game refused it, with this message; the draft is kept.
    Refused(String),
}

/// Takes in what queuing the drafted proposal came to: once queued, the
/// offer and the request are cleared; a refusal keeps the draft.
pub fn apply_submission_result(draft: &mut DiplomacyDraft, result: Result<(), String>) -> (o: SubmissionOutcome)
    ensures
        match result {
            Ok(()) => o is Submitted && *final(draft) == (DiplomacyDraft {
                offer: ResourceBundle { gold: 0, food: 0, materials: 0 },
                request: ResourceBundle { gold: 0, food: 0, materials: 0 },
                ..*old(draft)
            }),
            Err(e) => (o matches SubmissionOutcome::Refused(m) && m@ == e@) && *final(draft) == *old(draft),
        },
{
    match result {
        Ok(()) => {
            draft.offer = ResourceBundle { gold: 0, food: 0, materials: 0 };
            draft.request = ResourceBundle { gold: 0, food: 0, materials: 0 };
            SubmissionOutcome::Submitted
        },
        Err(e) => SubmissionOutcome::Refused(e),
    }
}

/// Withdraws the queued proposal at `index`, if there is one there; returns
/// whether one was withdrawn.
pub fn withdraw_pending_order(pending: &mut Vec<DiplomacyOrder>, index: usize) -> (withdrawn: bool)
    ensures
        withdrawn == (index < old(pending)@.len()),
        withdrawn ==> final(pending)@ == old(pending)@.remove(index as int),
        !withdrawn ==> final(pending)@ == old(pending)@,
{
    if index < pending.len() {
        pending.remove(index);
        true
    } else {
        false
    }
}

} // verus!
