//! The city and officer tables of the faction detail window.

use vstd::prelude::*;
use vstd::relations::sorted_by;
use crate::faction_overview::{officer_rank_score, rank_score};
use crate::diplomacy::{find_relation, relation_between, running};
use crate::faction_overview::{FactionDetailResources, detail_resources_of, faction_detail_resources, totals_fit};
use crate::orders::{
    ArmyMovementLine, PendingCommandLine, RecruitmentLine, commands_fit, faction_army_movements, faction_pending_commands,
    faction_recruitments, movement_lines_of, movements_fit, pending_lines_of, recruitment_lines_of,
};
use crate::technology::{FactionTechnologySummary, faction_technology_summary, find_technology_state, technology_state_of, technology_summary_of};
use crate::game::{Controller, City, Faction, GameState, Officer, OfficerStatus, faction_index, holds_city, city_index, governs_city, officer_index, post_index, troop_total};
use crate::map::troop_pools_fit;
use crate::table_order::{TableRow, stable_sort, table_in_order, ties_keep_order};
use crate::text::{chars_of, owned, seq_lt, str_eq, str_less, lemma_seq_lt_irreflexive, lemma_seq_lt_transitive};

verus! {

/// How a person is named in the detail window.
#[derive(Clone, Debug)]
pub enum PersonLabel {
    /// A name, or the identifier of an officer not in the table.
    Name(String),
    /// The identifier is empty.
    Unknown,
    /// There is no one.
    Nobody,
}

/// `l` names officer `id` of `game`.
pub open spec fn person_label_of(l: PersonLabel, game: GameState, id: Seq<char>) -> bool {
    match officer_index(game.officers@, id) {
        Some(i) => l matches PersonLabel::Name(n) && n@ == game.officers@[i].name@,
        None => if id.len() == 0 {
            l is Unknown
        } else {
            l matches PersonLabel::Name(n) && n@ == id
        },
    }
}

/// The name of officer `officer_id`: the officer's name, the identifier for
/// an officer not in the table, `Unknown` for an empty identifier.
pub fn officer_name(game: &GameState, officer_id: &str) -> (l: PersonLabel)
    ensures
        person_label_of(l, *game, officer_id@),
{
    match game.find_officer(officer_id) {
        Some(i) => PersonLabel::Name(owned(game.officers[i].name.as_str())),
        None => {
            if chars_of(officer_id).len() == 0 {
                PersonLabel::Unknown
            } else {
                PersonLabel::Name(owned(officer_id))
            }
        },
    }
}

/// One line of the detail window's city table.
#[derive(Clone, Debug)]
pub struct FactionDetailCity {
    pub name: String,
    pub governor: PersonLabel,
    pub population: u32,
    pub gold: i32,
    pub food: i32,
    pub materials: i32,
    pub troops: u32,
    pub defense: u16,
    pub training: u8,
    pub order: u8,
}

/// Line `r` shows city `c`.
pub open spec fn detail_city_of(r: FactionDetailCity, game: GameState, c: City) -> bool {
    &&& r.name@ == c.name@
    &&& match c.governor_id {
        Some(g) => person_label_of(r.governor, game, g@),
        None => r.governor is Nobody,
    }
    &&& r.population == c.population
    &&& r.gold == c.gold
    &&& r.food == c.food
    &&& r.materials == c.materials
    &&& r.troops == troop_total(c.troops)
    &&& r.defense == c.defense
    &&& r.training == c.training
    &&& r.order == c.order
}

fn detail_city(game: &GameState, city: &City) -> (r: FactionDetailCity)
    requires
        troop_total(city.troops) <= u32::MAX,
    ensures
        detail_city_of(r, *game, *city),
{
    let governor = match &city.governor_id {
        Some(g) => officer_name(game, g.as_str()),
        None => PersonLabel::Nobody,
    };
    FactionDetailCity {
        name: owned(city.name.as_str()),
        governor,
        population: city.population,
        gold: city.gold,
        food: city.food,
        materials: city.materials,
        troops: city.troops.total(),
        defense: city.defense,
        training: city.training,
        order: city.order,
    }
}

/// City line `a` goes strictly before `b`: more troops first, then by name.
pub open spec fn detail_city_less(a: FactionDetailCity, b: FactionDetailCity) -> bool {
    a.troops > b.troops || (a.troops == b.troops && seq_lt(a.name@, b.name@))
}

/// City lines in table order.
pub open spec fn detail_cities_in_order() -> spec_fn(FactionDetailCity, FactionDetailCity) -> bool {
    table_in_order::<FactionDetailCity>()
}

proof fn lemma_detail_city_less(a: FactionDetailCity, b: FactionDetailCity, c: FactionDetailCity)
    ensures
        !detail_city_less(a, a),
        detail_city_less(a, b) && detail_city_less(b, c) ==> detail_city_less(a, c),
{
    lemma_seq_lt_irreflexive(a.name@);
    if seq_lt(a.name@, b.name@) && seq_lt(b.name@, c.name@) {
        lemma_seq_lt_transitive(a.name@, b.name@, c.name@);
    }
}

fn detail_city_less_exec(a: &FactionDetailCity, b: &FactionDetailCity) -> (r: bool)
    ensures
        r == detail_city_less(*a, *b),
{
    a.troops > b.troops || (a.troops == b.troops && str_less(a.name.as_str(), b.name.as_str()))
}

/// City lines tie when they agree in troops and name.
impl TableRow for FactionDetailCity {
    open spec fn goes_before(a: Self, b: Self) -> bool {
        detail_city_less(a, b)
    }

    open spec fn ties_with(a: Self, b: Self) -> bool {
        a.troops == b.troops && a.name@ == b.name@
    }

    fn goes_before_exec(a: &Self, b: &Self) -> (r: bool) {
        detail_city_less_exec(a, b)
    }

    proof fn lemma_table_order(a: Self, b: Self, c: Self) {
        lemma_detail_city_less(a, b, c);
    }
}

/// The cities of faction `fid`, in table order.
pub open spec fn cities_of(game: GameState, fid: Seq<char>) -> Seq<City> {
    game.cities@.filter(|c: City| c.faction_id@ == fid)
}

/// `rows` is the city table of faction `fid`: a line per city of the
/// faction, most troops first, then by name, lines equal in both in table
/// order.
pub open spec fn detail_cities_of(rows: Seq<FactionDetailCity>, game: GameState, fid: Seq<char>) -> bool {
    &&& exists|u: Seq<FactionDetailCity>| {
        let cs = cities_of(game, fid);
        &&& u.len() == cs.len()
        &&& (forall|i: int| 0 <= i < cs.len() ==> detail_city_of(#[trigger] u[i], game, cs[i]))
        &&& #[trigger] u.to_multiset() == rows.to_multiset()
        &&& ties_keep_order(rows, u)
    }
    &&& sorted_by(rows, detail_cities_in_order())
}

/// The city table of the detail window of faction `faction_id`: a line per
/// city of the faction, most troops first, then by name.
pub fn faction_detail_cities(game: &GameState, faction_id: &str) -> (rows: Vec<FactionDetailCity>)
    requires
        troop_pools_fit(game.cities@),
    ensures
        detail_cities_of(rows@, *game, faction_id@),
{
    let ghost cs = game.cities@;
    let ghost pass = |c: City| c.faction_id@ == faction_id@;
    let mut rows: Vec<FactionDetailCity> = Vec::new();
    let mut i: usize = 0;
    while i < game.cities.len()
        invariant
            cs == game.cities@,
            troop_pools_fit(cs),
            pass == (|c: City| c.faction_id@ == faction_id@),
            i <= cs.len(),
            rows@.len() == cs.take(i as int).filter(pass).len(),
            forall|k: int| 0 <= k < rows@.len() ==> detail_city_of(#[trigger] rows@[k], *game, cs.take(i as int).filter(pass)[k]),
        decreases cs.len() - i,
    {
        let ghost pre = cs.take(i as int);
        assert(cs.take(i as int + 1).drop_last() =~= pre);
        assert(cs.take(i as int + 1).last() == cs[i as int]);
        let city = &game.cities[i];
        let ghost before = rows@;
        let keep = str_eq(city.faction_id.as_str(), faction_id);
        assert(cs.take(i as int + 1).filter(pass) == if pass(cs[i as int]) {
            pre.filter(pass).push(cs[i as int])
        } else {
            pre.filter(pass)
        }) by {
            reveal(Seq::filter);
        }
        if keep {
            let row = detail_city(game, city);
            rows.push(row);
            assert forall|k: int| 0 <= k < rows@.len() implies detail_city_of(#[trigger] rows@[k], *game, cs.take(i as int + 1).filter(pass)[k]) by {
                if k < before.len() {
                    assert(rows@[k] == before[k]);
                }
            }
        }
        i = i + 1;
    }
    assert(cs.take(cs.len() as int) =~= cs);
    let ghost unsorted = rows@;
    stable_sort(&mut rows);
    assert(unsorted.to_multiset() == rows@.to_multiset());
    rows
}

/// A role of an officer within a faction.
#[derive(Clone, Debug)]
pub enum OfficerRole {
    Ruler,
    Heir,
    Governor,
    /// A court office, by its name.
    Office(String),
}

/// `r` lists the roles of `officer` in `faction`: ruler, heir, governor of a
/// city, then the court office held, each where it applies.
pub open spec fn roles_of(r: Seq<OfficerRole>, game: GameState, faction: Faction, officer: Officer) -> bool {
    let a: int = if faction.ruler_id@ == officer.id@ { 1 } else { 0 };
    let b: int = if faction.heir_id matches Some(h) && h@ == officer.id@ { 1 } else { 0 };
    let c: int = if governs_city(game.cities@, officer.id@) { 1 } else { 0 };
    let post = match officer.office_id {
        Some(o) => post_index(game.official_posts@, o@),
        None => None,
    };
    let d: int = if post is Some { 1 } else { 0 };
    &&& r.len() == a + b + c + d
    &&& (a == 1 ==> r[0] is Ruler)
    &&& (b == 1 ==> r[a] is Heir)
    &&& (c == 1 ==> r[a + b] is Governor)
    &&& (post matches Some(p) ==> r[a + b + c] matches OfficerRole::Office(n) && n@ == game.official_posts@[p].name@)
}

/// The roles of `officer` in `faction`.
pub fn officer_role_labels(game: &GameState, faction: &Faction, officer: &Officer) -> (roles: Vec<OfficerRole>)
    ensures
        roles_of(roles@, *game, *faction, *officer),
{
    let mut roles: Vec<OfficerRole> = Vec::new();
    if str_eq(faction.ruler_id.as_str(), officer.id.as_str()) {
        roles.push(OfficerRole::Ruler);
    }
    let heir = match &faction.heir_id {
        Some(h) => str_eq(h.as_str(), officer.id.as_str()),
        None => false,
    };
    if heir {
        roles.push(OfficerRole::Heir);
    }
    if game.governs_any_city(officer.id.as_str()) {
        roles.push(OfficerRole::Governor);
    }
    match &officer.office_id {
        Some(o) => match game.find_post(o.as_str()) {
            Some(p) => {
                roles.push(OfficerRole::Office(owned(game.official_posts[p].name.as_str())));
            },
            None => {},
        },
        None => {},
    }
    roles
}

/// One line of the detail window's officer table.
#[derive(Clone, Debug)]
pub struct FactionDetailOfficer {
    pub name: String,
    pub status: OfficerStatus,
    pub roles: Vec<OfficerRole>,
    /// The officer's city; `None` when unassigned or not in the table.
    pub city_name: Option<String>,
    pub loyalty: u8,
    pub leadership: u8,
    pub strength: u8,
    pub intelligence: u8,
    pub politics: u8,
    pub charm: u8,
    pub rank_score: i32,
}

/// Line `r` shows `officer` of `faction`.
pub open spec fn detail_officer_of(r: FactionDetailOfficer, game: GameState, faction: Faction, officer: Officer) -> bool {
    &&& r.name@ == officer.name@
    &&& r.status == officer.status
    &&& roles_of(r.roles@, game, faction, officer)
    &&& match officer.city_id {
        Some(c) => match city_index(game.cities@, c@) {
            Some(i) => r.city_name matches Some(n) && n@ == game.cities@[i].name@,
            None => r.city_name is None,
        },
        None => r.city_name is None,
    }
    &&& r.loyalty == officer.loyalty
    &&& r.leadership == officer.stats.leadership
    &&& r.strength == officer.stats.strength
    &&& r.intelligence == officer.stats.intelligence
    &&& r.politics == officer.stats.politics
    &&& r.charm == officer.stats.charm
    &&& r.rank_score == rank_score(game, faction, officer)
}

fn detail_officer(game: &GameState, faction: &Faction, officer: &Officer) -> (r: FactionDetailOfficer)
    ensures
        detail_officer_of(r, *game, *faction, *officer),
{
    let city_name = match &officer.city_id {
        Some(c) => match game.find_city(c.as_str()) {
            Some(i) => Some(owned(game.cities[i].name.as_str())),
            None => None,
        },
        None => None,
    };
    FactionDetailOfficer {
        name: owned(officer.name.as_str()),
        status: officer.status,
        roles: officer_role_labels(game, faction, officer),
        city_name,
        loyalty: officer.loyalty,
        leadership: officer.stats.leadership,
        strength: officer.stats.strength,
        intelligence: officer.stats.intelligence,
        politics: officer.stats.politics,
        charm: officer.stats.charm,
        rank_score: officer_rank_score(game, faction, officer),
    }
}

/// Officer line `a` goes strictly before `b`: higher rank first, then more
/// leadership, then more politics, then by name.
pub open spec fn detail_officer_less(a: FactionDetailOfficer, b: FactionDetailOfficer) -> bool {
    a.rank_score > b.rank_score || (a.rank_score == b.rank_score && (a.leadership > b.leadership || (a.leadership
        == b.leadership && (a.politics > b.politics || (a.politics == b.politics && seq_lt(a.name@, b.name@))))))
}

/// Officer lines in table order.
pub open spec fn detail_officers_in_order() -> spec_fn(FactionDetailOfficer, FactionDetailOfficer) -> bool {
    table_in_order::<FactionDetailOfficer>()
}

proof fn lemma_detail_officer_less(a: FactionDetailOfficer, b: FactionDetailOfficer, c: FactionDetailOfficer)
    ensures
        !detail_officer_less(a, a),
        detail_officer_less(a, b) && detail_officer_less(b, c) ==> detail_officer_less(a, c),
{
    lemma_seq_lt_irreflexive(a.name@);
    if seq_lt(a.name@, b.name@) && seq_lt(b.name@, c.name@) {
        lemma_seq_lt_transitive(a.name@, b.name@, c.name@);
    }
}

fn detail_officer_less_exec(a: &FactionDetailOfficer, b: &FactionDetailOfficer) -> (r: bool)
    ensures
        r == detail_officer_less(*a, *b),
{
    if a.rank_score != b.rank_score {
        return a.rank_score > b.rank_score;
    }
    if a.leadership != b.leadership {
        return a.leadership > b.leadership;
    }
    if a.politics != b.politics {
        return a.politics > b.politics;
    }
    str_less(a.name.as_str(), b.name.as_str())
}

/// Officer lines tie when they agree in rank, leadership, politics and name.
impl TableRow for FactionDetailOfficer {
    open spec fn goes_before(a: Self, b: Self) -> bool {
        detail_officer_less(a, b)
    }

    open spec fn ties_with(a: Self, b: Self) -> bool {
        a.rank_score == b.rank_score && a.leadership == b.leadership && a.politics == b.politics && a.name@ == b.name@
    }

    fn goes_before_exec(a: &Self, b: &Self) -> (r: bool) {
        detail_officer_less_exec(a, b)
    }

    proof fn lemma_table_order(a: Self, b: Self, c: Self) {
        lemma_detail_officer_less(a, b, c);
    }
}

/// The officers of faction `fid`, in table order.
pub open spec fn officers_of(game: GameState, fid: Seq<char>) -> Seq<Officer> {
    game.officers@.filter(|o: Officer| o.faction_id@ == fid)
}

/// `rows` is the officer table of `faction`: a line per officer of the
/// faction, by rank, leadership and politics, highest first, then by name,
/// lines equal in all of these in table order.
pub open spec fn detail_officers_of(rows: Seq<FactionDetailOfficer>, game: GameState, faction: Faction) -> bool {
    &&& exists|u: Seq<FactionDetailOfficer>| {
        let os = officers_of(game, faction.id@);
        &&& u.len() == os.len()
        &&& (forall|i: int| 0 <= i < os.len() ==> detail_officer_of(#[trigger] u[i], game, faction, os[i]))
        &&& #[trigger] u.to_multiset() == rows.to_multiset()
        &&& ties_keep_order(rows, u)
    }
    &&& sorted_by(rows, detail_officers_in_order())
}

/// The officer table of the detail window of `faction`: a line per officer
/// of the faction, by rank, leadership and politics, highest first, then by
/// name.
pub fn faction_detail_officers(game: &GameState, faction: &Faction) -> (rows: Vec<FactionDetailOfficer>)
    ensures
        detail_officers_of(rows@, *game, *faction),
{
    let ghost os = game.officers@;
    let ghost pass = |o: Officer| o.faction_id@ == faction.id@;
    let mut rows: Vec<FactionDetailOfficer> = Vec::new();
    let mut i: usize = 0;
    while i < game.officers.len()
        invariant
            os == game.officers@,
            pass == (|o: Officer| o.faction_id@ == faction.id@),
            i <= os.len(),
            rows@.len() == os.take(i as int).filter(pass).len(),
            forall|k: int| 0 <= k < rows@.len() ==> detail_officer_of(#[trigger] rows@[k], *game, *faction, os.take(i as int).filter(pass)[k]),
        decreases os.len() - i,
    {
        let ghost pre = os.take(i as int);
        assert(os.take(i as int + 1).drop_last() =~= pre);
        assert(os.take(i as int + 1).last() == os[i as int]);
        let officer = &game.officers[i];
        let ghost before = rows@;
        let keep = str_eq(officer.faction_id.as_str(), faction.id.as_str());
        assert(os.take(i as int + 1).filter(pass) == if pass(os[i as int]) {
            pre.filter(pass).push(os[i as int])
        } else {
            pre.filter(pass)
        }) by {
            reveal(Seq::filter);
        }
        if keep {
            let row = detail_officer(game, faction, officer);
            rows.push(row);
            assert forall|k: int| 0 <= k < rows@.len() implies detail_officer_of(#[trigger] rows@[k], *game, *faction, os.take(i as int + 1).filter(pass)[k]) by {
                if k < before.len() {
                    assert(rows@[k] == before[k]);
                }
            }
        }
        i = i + 1;
    }
    assert(os.take(os.len() as int) =~= os);
    let ghost unsorted = rows@;
    stable_sort(&mut rows);
    assert(unsorted.to_multiset() == rows@.to_multiset());
    rows
}

/// A line of the detail window's diplomacy table.
#[derive(Clone, Debug)]
pub struct FactionDetailDiplomacy {
    pub faction_name: String,
    /// The relation score; 0 without a relation.
    pub score: i16,
    /// The last turn of a truce that still runs.
    pub truce_until: Option<u32>,
}

/// Line `r` shows the relation of faction `fid` with faction `other` in
/// `game`.
pub open spec fn diplomacy_row_of(r: FactionDetailDiplomacy, game: GameState, fid: Seq<char>, other: Faction) -> bool {
    let rel = relation_between(game.relations@, fid, other.id@);
    &&& r.faction_name@ == other.name@
    &&& r.score == (match rel { Some(x) => x.score, None => 0 })
    &&& r.truce_until == (match rel { Some(x) => running(x.truce_until_turn, game.turn), None => None })
}

/// Diplomacy line `a` goes strictly before `b`: higher score first, then by
/// name.
pub open spec fn diplomacy_row_less(a: FactionDetailDiplomacy, b: FactionDetailDiplomacy) -> bool {
    a.score > b.score || (a.score == b.score && seq_lt(a.faction_name@, b.faction_name@))
}

/// Diplomacy lines in table order.
pub open spec fn diplomacy_rows_in_order() -> spec_fn(FactionDetailDiplomacy, FactionDetailDiplomacy) -> bool {
    table_in_order::<FactionDetailDiplomacy>()
}

proof fn lemma_diplomacy_row_less(a: FactionDetailDiplomacy, b: FactionDetailDiplomacy, c: FactionDetailDiplomacy)
    ensures
        !diplomacy_row_less(a, a),
        diplomacy_row_less(a, b) && diplomacy_row_less(b, c) ==> diplomacy_row_less(a, c),
{
    lemma_seq_lt_irreflexive(a.faction_name@);
    if seq_lt(a.faction_name@, b.faction_name@) && seq_lt(b.faction_name@, c.faction_name@) {
        lemma_seq_lt_transitive(a.faction_name@, b.faction_name@, c.faction_name@);
    }
}

fn diplomacy_row_less_exec(a: &FactionDetailDiplomacy, b: &FactionDetailDiplomacy) -> (r: bool)
    ensures
        r == diplomacy_row_less(*a, *b),
{
    a.score > b.score || (a.score == b.score && str_less(a.faction_name.as_str(), b.faction_name.as_str()))
}

/// Diplomacy lines tie when they agree in score and faction name.
impl TableRow for FactionDetailDiplomacy {
    open spec fn goes_before(a: Self, b: Self) -> bool {
        diplomacy_row_less(a, b)
    }

    open spec fn ties_with(a: Self, b: Self) -> bool {
        a.score == b.score && a.faction_name@ == b.faction_name@
    }

    fn goes_before_exec(a: &Self, b: &Self) -> (r: bool) {
        diplomacy_row_less_exec(a, b)
    }

    proof fn lemma_table_order(a: Self, b: Self, c: Self) {
        lemma_diplomacy_row_less(a, b, c);
    }
}

/// The factions other than `fid` that still hold a city.
pub open spec fn other_living_factions(game: GameState, fid: Seq<char>) -> Seq<Faction> {
    game.factions@.filter(|f: Faction| f.id@ != fid && holds_city(game.cities@, f.id@))
}

/// `rows` is the diplomacy table of faction `fid`: a line per other faction
/// that still holds a city, best relation first, then by name, lines equal
/// in both in table order.
pub open spec fn detail_diplomacy_of(rows: Seq<FactionDetailDiplomacy>, game: GameState, fid: Seq<char>) -> bool {
    &&& exists|u: Seq<FactionDetailDiplomacy>| {
        let fs = other_living_factions(game, fid);
        &&& u.len() == fs.len()
        &&& (forall|i: int| 0 <= i < fs.len() ==> diplomacy_row_of(#[trigger] u[i], game, fid, fs[i]))
        &&& #[trigger] u.to_multiset() == rows.to_multiset()
        &&& ties_keep_order(rows, u)
    }
    &&& sorted_by(rows, diplomacy_rows_in_order())
}

/// The diplomacy table of the detail window of faction `faction_id`: a line
/// per other faction that still holds a city, best relation first, then by
/// name.
pub fn faction_detail_diplomacy(game: &GameState, faction_id: &str) -> (rows: Vec<FactionDetailDiplomacy>)
    ensures
        detail_diplomacy_of(rows@, *game, faction_id@),
{
    let ghost fs = game.factions@;
    let ghost pass = |f: Faction| f.id@ != faction_id@ && holds_city(game.cities@, f.id@);
    let mut rows: Vec<FactionDetailDiplomacy> = Vec::new();
    let mut i: usize = 0;
    while i < game.factions.len()
        invariant
            fs == game.factions@,
            pass == (|f: Faction| f.id@ != faction_id@ && holds_city(game.cities@, f.id@)),
            i <= fs.len(),
            rows@.len() == fs.take(i as int).filter(pass).len(),
            forall|k: int| 0 <= k < rows@.len() ==> diplomacy_row_of(#[trigger] rows@[k], *game, faction_id@, fs.take(i as int).filter(pass)[k]),
        decreases fs.len() - i,
    {
        let ghost pre = fs.take(i as int);
        assert(fs.take(i as int + 1).drop_last() =~= pre);
        assert(fs.take(i as int + 1).last() == fs[i as int]);
        let other = &game.factions[i];
        let ghost before = rows@;
        let keep = !str_eq(other.id.as_str(), faction_id) && game.faction_alive(other.id.as_str());
        assert(fs.take(i as int + 1).filter(pass) == if pass(fs[i as int]) {
            pre.filter(pass).push(fs[i as int])
        } else {
            pre.filter(pass)
        }) by {
            reveal(Seq::filter);
        }
        if keep {
            let rel = find_relation(&game.relations, faction_id, other.id.as_str());
            let row = FactionDetailDiplomacy {
                faction_name: owned(other.name.as_str()),
                score: match rel {
                    Some(x) => x.score,
                    None => 0,
                },
                truce_until: match rel {
                    Some(x) => match x.truce_until_turn {
                        Some(u) => if u >= game.turn { Some(u) } else { None },
                        None => None,
                    },
                    None => None,
                },
            };
            rows.push(row);
            assert forall|k: int| 0 <= k < rows@.len() implies diplomacy_row_of(#[trigger] rows@[k], *game, faction_id@, fs.take(i as int + 1).filter(pass)[k]) by {
                if k < before.len() {
                    assert(rows@[k] == before[k]);
                }
            }
        }
        i = i + 1;
    }
    assert(fs.take(fs.len() as int) =~= fs);
    let ghost unsorted = rows@;
    stable_sort(&mut rows);
    assert(unsorted.to_multiset() == rows@.to_multiset());
    rows
}

/// Everything the faction detail window shows of one faction.
#[derive(Debug)]
pub struct FactionDetailSnapshot {
    pub id: String,
    pub name: String,
    /// It still holds a city.
    pub alive: bool,
    pub controlled_by: Controller,
    pub selectable: bool,
    pub ruler: PersonLabel,
    pub heir: PersonLabel,
    pub resources: FactionDetailResources,
    pub cities: Vec<FactionDetailCity>,
    pub officers: Vec<FactionDetailOfficer>,
    pub diplomacy: Vec<FactionDetailDiplomacy>,
    pub technology: FactionTechnologySummary,
    pub pending_commands: Vec<PendingCommandLine>,
    pub army_movements: Vec<ArmyMovementLine>,
    pub recruitments: Vec<RecruitmentLine>,
}

/// `s` shows faction `f` of `game`.
pub open spec fn snapshot_of(s: FactionDetailSnapshot, game: GameState, f: Faction) -> bool {
    &&& s.id@ == f.id@
    &&& s.name@ == f.name@
    &&& detail_resources_of(s.resources, game, f.id@)
    &&& s.alive == (s.resources.city_count > 0)
    &&& s.controlled_by == f.controlled_by
    &&& s.selectable == f.selectable
    &&& person_label_of(s.ruler, game, f.ruler_id@)
    &&& match f.heir_id {
        Some(h) => person_label_of(s.heir, game, h@),
        None => s.heir is Nobody,
    }
    &&& detail_cities_of(s.cities@, game, f.id@)
    &&& detail_officers_of(s.officers@, game, f)
    &&& detail_diplomacy_of(s.diplomacy@, game, f.id@)
    &&& technology_summary_of(s.technology, game.technology_catalog.specs@, technology_state_of(game.technologies@, f.id@))
    &&& pending_lines_of(s.pending_commands@, game, game.pending_commands@, f.id@)
    &&& movement_lines_of(s.army_movements@, game, game.army_movements@, f.id@)
    &&& recruitment_lines_of(s.recruitments@, game, game.officer_recruitments@, f.id@)
}

/// The detail window of faction `faction_id`, or `None` when the game has no
/// such faction.
pub fn faction_detail_snapshot(game: &GameState, faction_id: &str) -> (r: Option<FactionDetailSnapshot>)
    requires
        totals_fit(*game),
        commands_fit(game.pending_commands@),
        movements_fit(game.army_movements@),
    ensures
        match faction_index(game.factions@, faction_id@) {
            None => r is None,
            Some(k) => r matches Some(s) && snapshot_of(s, *game, game.factions@[k]),
        },
{
    let k = match game.find_faction(faction_id) {
        Some(k) => k,
        None => return None,
    };
    let faction = &game.factions[k];
    let fid = faction.id.as_str();
    let resources = faction_detail_resources(game, fid);
    let heir = match &faction.heir_id {
        Some(h) => officer_name(game, h.as_str()),
        None => PersonLabel::Nobody,
    };
    assert(troop_pools_fit(game.cities@)) by {
        assert forall|i: int| 0 <= i < game.cities@.len() implies troop_total(#[trigger] game.cities@[i].troops) <= u32::MAX by {
            assert(totals_fit(*game));
        }
    }
    Some(
        FactionDetailSnapshot {
            id: owned(fid),
            name: owned(faction.name.as_str()),
            alive: resources.city_count > 0,
            controlled_by: faction.controlled_by,
            selectable: faction.selectable,
            ruler: officer_name(game, faction.ruler_id.as_str()),
            heir,
            resources,
            cities: faction_detail_cities(game, fid),
            officers: faction_detail_officers(game, faction),
            diplomacy: faction_detail_diplomacy(game, fid),
            technology: faction_technology_summary(&game.technology_catalog, find_technology_state(&game.technologies, fid)),
            pending_commands: faction_pending_commands(game, &game.pending_commands, fid),
            army_movements: faction_army_movements(game, &game.army_movements, fid),
            recruitments: faction_recruitments(game, &game.officer_recruitments, fid),
        },
    )
}

} // verus!
