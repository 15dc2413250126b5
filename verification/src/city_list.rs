//! The city list: every city of the map, by name, with its owner and stocks.

use vstd::prelude::*;
use crate::diplomacy::{ascending_by_name, sort_positions_by_name};
use crate::game::{City, GameState, faction_index, troop_total};
use crate::map::troop_pools_fit;
use crate::text::{owned, str_eq};

verus! {

/// One line of the city list.
#[derive(Clone, Debug)]
pub struct CityListRow {
    pub city_id: String,
    pub city_name: String,
    /// The owner's name; `None` when the owner is not in the faction table.
    pub faction_name: Option<String>,
    pub gold: i32,
    pub food: i32,
    pub troops: u32,
    pub player_owned: bool,
}

/// Row `r` shows city `c` of `game`.
pub open spec fn city_row_of(r: CityListRow, game: GameState, c: City) -> bool {
    &&& r.city_id@ == c.id@
    &&& r.city_name@ == c.name@
    &&& match faction_index(game.factions@, c.faction_id@) {
        Some(k) => r.faction_name matches Some(n) && n@ == game.factions@[k].name@,
        None => r.faction_name is None,
    }
    &&& r.gold == c.gold
    &&& r.food == c.food
    &&& r.troops == troop_total(c.troops)
    &&& r.player_owned == (c.faction_id@ == game.player_faction_id@)
}

/// The row of city `city`.
pub fn city_list_row(game: &GameState, city: &City) -> (r: CityListRow)
    requires
        troop_total(city.troops) <= u32::MAX,
    ensures
        city_row_of(r, *game, *city),
{
    let faction_name = match game.find_faction(city.faction_id.as_str()) {
        Some(k) => Some(owned(game.factions[k].name.as_str())),
        None => None,
    };
    CityListRow {
        city_id: owned(city.id.as_str()),
        city_name: owned(city.name.as_str()),
        faction_name,
        gold: city.gold,
        food: city.food,
        troops: city.troops.total(),
        player_owned: str_eq(city.faction_id.as_str(), game.player_faction_id.as_str()),
    }
}

/// The positions of the map's cities by city name, cities of the same name
/// in table order.
pub fn cities_by_name(game: &GameState) -> (order: Vec<usize>)
    ensures
        order@.len() == game.cities@.len(),
        order@.to_set() == Set::new(|k: usize| k < game.cities@.len()),
        ascending_by_name(order@, game.cities@.map_values(|c: City| c.name@)),
        forall|i: int| 0 <= i < order@.len() ==> order@[i] < game.cities@.len(),
{
    let mut all: Vec<usize> = Vec::new();
    let mut names: Vec<&str> = Vec::new();
    let mut i: usize = 0;
    while i < game.cities.len()
        invariant
            i <= game.cities@.len(),
            all@.len() == i,
            names@.len() == i,
            forall|k: int| 0 <= k < i ==> all@[k] == k,
            forall|k: int| 0 <= k < i ==> (#[trigger] names@[k])@ == game.cities@[k].name@,
        decreases game.cities@.len() - i,
    {
        all.push(i);
        names.push(game.cities[i].name.as_str());
        i = i + 1;
    }
    proof {
        assert(names@.map_values(|s: &str| s@) =~= game.cities@.map_values(|c: City| c.name@));
    }
    let order = sort_positions_by_name(all, &names);
    proof {
        assert(order@.to_set() =~= Set::new(|k: usize| k < game.cities@.len())) by {
            assert forall|k: usize| #[trigger] all@.to_set().contains(k) <==> k < game.cities@.len() by {
                if k < game.cities@.len() {
                    assert(all@[k as int] == k);
                }
            }
        }
        assert forall|i: int| 0 <= i < order@.len() implies order@[i] < game.cities@.len() by {
            assert(order@.to_set().contains(order@[i]));
        }
    }
    order
}

/// The rows of the city list: one per city, by city name, ties in table
/// order.
pub fn city_list_rows(game: &GameState) -> (rows: Vec<CityListRow>)
    requires
        troop_pools_fit(game.cities@),
    ensures
        exists|order: Seq<usize>| {
            &&& order.len() == rows@.len() == game.cities@.len()
            &&& order.to_set() == Set::new(|k: usize| k < game.cities@.len())
            &&& ascending_by_name(order, game.cities@.map_values(|c: City| c.name@))
            &&& forall|i: int| 0 <= i < rows@.len() ==> order[i] < game.cities@.len() && city_row_of(
                #[trigger] rows@[i],
                *game,
                game.cities@[order[i] as int],
            )
        },
{
    let order = cities_by_name(game);
    let mut rows: Vec<CityListRow> = Vec::new();
    let mut j: usize = 0;
    while j < order.len()
        invariant
            j <= order@.len(),
            order@.len() == game.cities@.len(),
            troop_pools_fit(game.cities@),
            forall|i: int| 0 <= i < order@.len() ==> order@[i] < game.cities@.len(),
            rows@.len() == j,
            forall|i: int| 0 <= i < j ==> city_row_of(#[trigger] rows@[i], *game, game.cities@[order@[i] as int]),
        decreases order@.len() - j,
    {
        let k = order[j];
        let row = city_list_row(game, &game.cities[k]);
        rows.push(row);
        j = j + 1;
    }
    proof {
        let o = order@;
        assert(o.len() == rows@.len() == game.cities@.len());
    }
    rows
}

} // verus!
