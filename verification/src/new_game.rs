//! The new-game window: which factions the player may take, which one is
//! chosen, and when a game can start.

use vstd::prelude::*;
use crate::game::Faction;
use crate::kinship::ids_of;
use crate::text::{chars_of, owned, str_eq};

verus! {

/// The positions of the factions the player may take, in list order.
pub fn selectable_factions(factions: &Vec<Faction>) -> (r: Vec<usize>)
    ensures
        forall|i: int, j: int| 0 <= i < j < r@.len() ==> r@[i] < r@[j],
        forall|i: int| 0 <= i < r@.len() ==> r@[i] < factions@.len() && factions@[r@[i] as int].selectable,
        forall|k: int| 0 <= k < factions@.len() && (#[trigger] factions@[k]).selectable ==> r@.contains(k as usize),
{
    let mut r: Vec<usize> = Vec::new();
    let mut i: usize = 0;
    while i < factions.len()
        invariant
            i <= factions.len(),
            forall|a: int, b: int| 0 <= a < b < r@.len() ==> r@[a] < r@[b],
            forall|a: int| 0 <= a < r@.len() ==> r@[a] < i && factions@[r@[a] as int].selectable,
            forall|k: int| 0 <= k < i && (#[trigger] factions@[k]).selectable ==> r@.contains(k as usize),
        decreases factions.len() - i,
    {
        if factions[i].selectable {
            let ghost before = r@;
            r.push(i);
            assert forall|k: int| 0 <= k < i + 1 && (#[trigger] factions@[k]).selectable implies r@.contains(k as usize) by {
                if k < i {
                    let a = choose|a: int| 0 <= a < before.len() && before[a] == k as usize;
                    assert(r@[a] == k as usize);
                } else {
                    assert(r@[before.len() as int] == k as usize);
                }
            }
        }
        i = i + 1;
    }
    r
}

/// The position of the chosen faction: the first selectable one with
/// identifier `selected_id`, if any.
pub fn selected_faction(factions: &Vec<Faction>, selected_id: &str) -> (r: Option<usize>)
    ensures
        match r {
            Some(k) => k < factions@.len() && factions@[k as int].selectable && factions@[k as int].id@ == selected_id@
                && forall|j: int| 0 <= j < k ==> !(factions@[j].selectable && factions@[j].id@ == selected_id@),
            None => forall|j: int| 0 <= j < factions@.len() ==> !(factions@[j].selectable && factions@[j].id@ == selected_id@),
        },
{
    let mut i: usize = 0;
    while i < factions.len()
        invariant
            i <= factions.len(),
            forall|j: int| 0 <= j < i ==> !((#[trigger] factions@[j]).selectable && factions@[j].id@ == selected_id@),
        decreases factions.len() - i,
    {
        if factions[i].selectable && str_eq(factions[i].id.as_str(), selected_id) {
            return Some(i);
        }
        i = i + 1;
    }
    None
}

/// A game can start once a scenario and a faction are chosen.
pub fn can_start_new_game(scenario_id: &str, faction_id: &str) -> (b: bool)
    ensures
        b == (scenario_id@.len() > 0 && faction_id@.len() > 0),
{
    chars_of(scenario_id).len() > 0 && chars_of(faction_id).len() > 0
}

/// The position of the first faction of `fs` that the player may take.
pub open spec fn first_selectable(fs: Seq<Faction>) -> Option<int>
    decreases fs.len(),
{
    if fs.len() == 0 {
        None
    } else if fs[0].selectable {
        Some(0)
    } else {
        match first_selectable(fs.drop_first()) {
            Some(i) => Some(i + 1),
            None => None,
        }
    }
}

proof fn lemma_first_selectable(fs: Seq<Faction>)
    ensures
        match first_selectable(fs) {
            Some(i) => 0 <= i < fs.len() && fs[i].selectable && forall|k: int| 0 <= k < i ==> !fs[k].selectable,
            None => forall|k: int| 0 <= k < fs.len() ==> !fs[k].selectable,
        },
    decreases fs.len(),
{
    if fs.len() > 0 {
        lemma_first_selectable(fs.drop_first());
        assert forall|k: int| 1 <= k < fs.len() implies fs[k] == fs.drop_first()[k - 1] by {}
    }
}

/// Faction `id` may be taken.
pub open spec fn may_take(fs: Seq<Faction>, id: Seq<char>) -> bool {
    exists|j: int| 0 <= j < fs.len() && (#[trigger] fs[j]).selectable && fs[j].id@ == id
}

/// The faction that stays chosen: the chosen one while it may be taken, else
/// the first that may, else none (the empty identifier).
pub open spec fn faction_choice(fs: Seq<Faction>, selected: Seq<char>) -> Seq<char> {
    if may_take(fs, selected) {
        selected
    } else {
        match first_selectable(fs) {
            Some(k) => fs[k].id@,
            None => Seq::empty(),
        }
    }
}

/// Keeps the chosen faction valid for the factions on offer.
pub fn ensure_selected_faction(factions: &Vec<Faction>, selected: &mut String)
    ensures
        final(selected)@ == faction_choice(factions@, old(selected)@),
{
    proof {
        lemma_first_selectable(factions@);
    }
    if selected_faction(factions, selected.as_str()).is_some() {
        return;
    }
    let mut i: usize = 0;
    while i < factions.len()
        invariant
            i <= factions@.len(),
            !may_take(factions@, old(selected)@),
            forall|k: int| 0 <= k < i ==> !(#[trigger] factions@[k]).selectable,
            match first_selectable(factions@) {
                Some(j) => 0 <= j < factions@.len() && factions@[j].selectable && forall|k: int| 0 <= k < j ==> !factions@[k].selectable,
                None => forall|k: int| 0 <= k < factions@.len() ==> !factions@[k].selectable,
            },
        decreases factions@.len() - i,
    {
        if factions[i].selectable {
            *selected = owned(factions[i].id.as_str());
            return;
        }
        i = i + 1;
    }
    let e = String::new();
    assert(e@ =~= Seq::<char>::empty());
    *selected = e;
}

/// Choosing again changes nothing: the faction kept chosen stays chosen.
pub proof fn lemma_faction_choice_stable(fs: Seq<Faction>, selected: Seq<char>)
    ensures
        faction_choice(fs, faction_choice(fs, selected)) == faction_choice(fs, selected),
{
    lemma_first_selectable(fs);
    if !may_take(fs, selected) {
        if let Some(k) = first_selectable(fs) {
            assert(may_take(fs, fs[k].id@));
        } else {
            if may_take(fs, Seq::empty()) {
                let j = choose|j: int| 0 <= j < fs.len() && (#[trigger] fs[j]).selectable && fs[j].id@ == Seq::<char>::empty();
                assert(!fs[j].selectable);
            }
        }
    }
}

/// The scenario the history menu opens on: the preferred one where the
/// catalog lists it, else the first listed, else none (the empty identifier).
pub open spec fn history_scenario_choice(preferred: Option<Seq<char>>, ids: Seq<Seq<char>>) -> Seq<char> {
    let first = if ids.len() > 0 { ids[0] } else { Seq::empty() };
    match preferred {
        Some(p) => if ids.contains(p) { p } else { first },
        None => first,
    }
}

/// The characters of an optional identifier.
pub open spec fn optional_chars(o: Option<&str>) -> Option<Seq<char>> {
    match o {
        Some(p) => Some(p@),
        None => None,
    }
}

/// Picks the scenario the history menu opens on among `scenario_ids`.
pub fn choose_history_scenario(preferred: Option<&str>, scenario_ids: &Vec<String>) -> (id: String)
    ensures
        id@ == history_scenario_choice(optional_chars(preferred), ids_of(scenario_ids@)),
{
    let ghost ids = ids_of(scenario_ids@);
    if let Some(p) = preferred {
        let mut i: usize = 0;
        while i < scenario_ids.len()
            invariant
                ids == ids_of(scenario_ids@),
                preferred == Some(p),
                i <= scenario_ids.len(),
                forall|k: int| 0 <= k < i ==> ids[k] != p@,
            decreases scenario_ids.len() - i,
        {
            if str_eq(scenario_ids[i].as_str(), p) {
                assert(ids[i as int] == p@);
                assert(ids.contains(p@));
                return owned(p);
            }
            i = i + 1;
        }
        assert(!ids.contains(p@));
    }
    if scenario_ids.len() > 0 {
        owned(scenario_ids[0].as_str())
    } else {
        String::new()
    }
}

} // verus!
