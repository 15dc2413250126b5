//! The game world as the interface reads it: factions, officers, cities and
//! the catalog tables that name them.

use vstd::prelude::*;
use crate::diplomacy::FactionPairRelation;
use crate::orders::{ArmyMovement, Command, OfficerRecruitmentTask};
use crate::technology::{FactionTechnologyState, TechnologyCatalog};
use crate::text::str_eq;

verus! {

/// Soldiers of each arm.
#[derive(Clone, Copy, Debug, PartialEq, Eq, Structural, Default)]
pub struct TroopPool {
    pub infantry: u32,
    pub cavalry: u32,
    pub archers: u32,
}

/// The number of soldiers of all arms of a pool.
pub open spec fn troop_total(p: TroopPool) -> int {
    p.infantry + p.cavalry + p.archers
}

impl TroopPool {
    /// A pool with the given soldiers of each arm.
    pub fn new(infantry: u32, cavalry: u32, archers: u32) -> (p: Self)
        ensures
            p == (TroopPool { infantry, cavalry, archers }),
    {
        TroopPool { infantry, cavalry, archers }
    }

    /// The number of soldiers of all arms.
    pub fn total(&self) -> (t: u32)
        requires
            troop_total(*self) <= u32::MAX,
        ensures
            t == troop_total(*self),
    {
        self.infantry + self.cavalry + self.archers
    }
}

/// The five abilities of an officer.
#[derive(Clone, Copy, Debug, PartialEq, Eq, Structural, Default)]
pub struct OfficerStats {
    pub leadership: u8,
    pub strength: u8,
    pub intelligence: u8,
    pub politics: u8,
    pub charm: u8,
}

#[derive(Clone, Copy, Debug, PartialEq, Eq, Structural)]
pub enum OfficerGender {
    Male,
    Female,
}

#[derive(Clone, Copy, Debug, PartialEq, Eq, Structural)]
pub enum OfficerStatus {
    Active,
    Minor,
    Wild,
    Unavailable,
    Dead,
}

/// How well the historical record supports a datum.
#[derive(Clone, Copy, Debug, PartialEq, Eq, Structural)]
pub enum SourceConfidence {
    High,
    Medium,
    Low,
}

/// Who gives a faction its orders.
#[derive(Clone, Copy, Debug, PartialEq, Eq, Structural)]
pub enum Controller {
    Player,
    RuleAi,
}

/// The kind of a recorded tie between two officers.
#[derive(Clone, Copy, Debug, PartialEq, Eq, Structural)]
pub enum OfficerRelationshipKind {
    ParentChild,
    AdoptiveParentChild,
    Spouse,
    Sibling,
    SwornSibling,
    RulerSubject,
    Enemy,
}

/// A tie of an officer's historical profile to another officer.
#[derive(Clone, Debug)]
pub struct OfficerRelationship {
    pub target_id: String,
    pub target_name: String,
    pub kind: OfficerRelationshipKind,
    pub confidence: SourceConfidence,
    pub source: String,
    pub notes: String,
}

/// The historical record of an officer.
#[derive(Clone, Debug)]
pub struct OfficerProfile {
    pub id: String,
    pub name: String,
    pub courtesy_name: Option<String>,
    pub native_place: Option<String>,
    pub birth_year: Option<i32>,
    pub death_year: Option<i32>,
    pub gender: OfficerGender,
    pub stats: OfficerStats,
    pub tags: Vec<String>,
    pub confidence: SourceConfidence,
    pub biography: String,
    pub relationships: Vec<OfficerRelationship>,
    pub notes: String,
}

/// An officer of the running game.
#[derive(Clone, Debug)]
pub struct Officer {
    pub id: String,
    pub name: String,
    pub faction_id: String,
    pub city_id: Option<String>,
    pub office_id: Option<String>,
    pub stats: OfficerStats,
    pub loyalty: u8,
    pub birth_year: i32,
    pub gender: OfficerGender,
    pub status: OfficerStatus,
    pub profile: Option<OfficerProfile>,
}

impl Officer {
    /// Whether the officer serves actively.
    pub fn is_active(&self) -> (b: bool)
        ensures
            b == (self.status == OfficerStatus::Active),
    {
        self.status == OfficerStatus::Active
    }
}

/// The fixed geography of a city.
#[derive(Clone, Debug)]
pub struct CityProfile {
    pub province: String,
    pub commandery: String,
}

/// A city of the running game.
#[derive(Clone, Debug)]
pub struct City {
    pub id: String,
    pub name: String,
    pub faction_id: String,
    pub level: u8,
    pub population: u32,
    pub gold: i32,
    pub food: i32,
    pub materials: i32,
    pub troops: TroopPool,
    pub wounded_troops: TroopPool,
    pub training: u8,
    pub agriculture: u16,
    pub commerce: u16,
    pub defense: u16,
    pub order: u8,
    pub governor_id: Option<String>,
    pub profile: Option<CityProfile>,
}

/// A power of the running game.
#[derive(Clone, Debug)]
pub struct Faction {
    pub id: String,
    pub name: String,
    pub ruler_id: String,
    pub heir_id: Option<String>,
    pub selectable: bool,
    pub controlled_by: Controller,
}

/// A marriage made during play.
#[derive(Clone, Debug)]
pub struct Marriage {
    pub husband_id: String,
    pub wife_id: String,
    pub year: i32,
    pub month: u8,
}

/// A parent and child tie made during play.
#[derive(Clone, Debug)]
pub struct FamilyRelationship {
    pub parent_id: String,
    pub child_id: String,
}

/// The groups in which officer tags are filed.
#[derive(Clone, Copy, Debug, PartialEq, Eq, Structural)]
pub enum OfficerTagCategory {
    Role,
    Affiliation,
    Region,
    Basis,
    Source,
    Context,
    Batch,
}

/// A tag that the catalog knows, with its labels.
#[derive(Clone, Debug)]
pub struct OfficerTagDefinition {
    pub id: String,
    pub category: OfficerTagCategory,
    pub label_zh: String,
    pub label_en: String,
}

/// A legacy tag name and the tag it stands for now.
#[derive(Clone, Debug)]
pub struct OfficerTagAlias {
    pub alias: String,
    pub tag_id: String,
}

/// A court office: its identifier, name, rank label and rank order.
#[derive(Clone, Debug)]
pub struct OfficialPost {
    pub id: String,
    pub name: String,
    pub rank_label: String,
    pub rank_order: u8,
}

/// The state of a running game as the interface reads it.
#[derive(Debug)]
pub struct GameState {
    pub year: i32,
    pub turn: u32,
    pub player_faction_id: String,
    pub factions: Vec<Faction>,
    pub officers: Vec<Officer>,
    pub cities: Vec<City>,
    pub marriages: Vec<Marriage>,
    pub family_relationships: Vec<FamilyRelationship>,
    pub officer_tag_definitions: Vec<OfficerTagDefinition>,
    pub officer_tag_aliases: Vec<OfficerTagAlias>,
    pub official_posts: Vec<OfficialPost>,
    /// Relations between pairs of factions.
    pub relations: Vec<FactionPairRelation>,
    pub technology_catalog: TechnologyCatalog,
    /// Each faction's research, by faction.
    pub technologies: Vec<(String, FactionTechnologyState)>,
    /// Commands queued for the end of the turn.
    pub pending_commands: Vec<Command>,
    pub army_movements: Vec<ArmyMovement>,
    pub officer_recruitments: Vec<OfficerRecruitmentTask>,
}

/// The invariant that the game's tables keep: each is keyed by identifier,
/// so no two factions, no two officers and no two cities share one.
pub open spec fn ids_distinct(game: GameState) -> bool {
    &&& forall|a: int, b: int| 0 <= a < b < game.factions@.len() ==> (#[trigger] game.factions@[a]).id@ != (#[trigger] game.factions@[b]).id@
    &&& forall|a: int, b: int| 0 <= a < b < game.officers@.len() ==> (#[trigger] game.officers@[a]).id@ != (#[trigger] game.officers@[b]).id@
    &&& forall|a: int, b: int| 0 <= a < b < game.cities@.len() ==> (#[trigger] game.cities@[a]).id@ != (#[trigger] game.cities@[b]).id@
}

/// Whether some city of `cities` belongs to faction `fid`.
pub open spec fn holds_city(cities: Seq<City>, fid: Seq<char>) -> bool {
    exists|i: int| 0 <= i < cities.len() && (#[trigger] cities[i]).faction_id@ == fid
}

/// The position of the first faction of `fs` with identifier `id`.
pub open spec fn faction_index(fs: Seq<Faction>, id: Seq<char>) -> Option<int>
    decreases fs.len(),
{
    if fs.len() == 0 {
        None
    } else if fs[0].id@ == id {
        Some(0)
    } else {
        match faction_index(fs.drop_first(), id) {
            Some(i) => Some(i + 1),
            None => None,
        }
    }
}

/// The position of the first city of `cs` with identifier `id`.
pub open spec fn city_index(cs: Seq<City>, id: Seq<char>) -> Option<int>
    decreases cs.len(),
{
    if cs.len() == 0 {
        None
    } else if cs[0].id@ == id {
        Some(0)
    } else {
        match city_index(cs.drop_first(), id) {
            Some(i) => Some(i + 1),
            None => None,
        }
    }
}

/// The position of the first officer of `os` with identifier `id`.
pub open spec fn officer_index(os: Seq<Officer>, id: Seq<char>) -> Option<int>
    decreases os.len(),
{
    if os.len() == 0 {
        None
    } else if os[0].id@ == id {
        Some(0)
    } else {
        match officer_index(os.drop_first(), id) {
            Some(i) => Some(i + 1),
            None => None,
        }
    }
}

pub proof fn lemma_faction_index(fs: Seq<Faction>, id: Seq<char>)
    ensures
        match faction_index(fs, id) {
            Some(i) => 0 <= i < fs.len() && fs[i].id@ == id && forall|k: int| 0 <= k < i ==> fs[k].id@ != id,
            None => forall|k: int| 0 <= k < fs.len() ==> fs[k].id@ != id,
        },
    decreases fs.len(),
{
    if fs.len() > 0 {
        lemma_faction_index(fs.drop_first(), id);
        assert forall|k: int| 1 <= k < fs.len() implies fs[k] == fs.drop_first()[k - 1] by {}
    }
}

proof fn lemma_city_index(cs: Seq<City>, id: Seq<char>)
    ensures
        match city_index(cs, id) {
            Some(i) => 0 <= i < cs.len() && cs[i].id@ == id && forall|k: int| 0 <= k < i ==> cs[k].id@ != id,
            None => forall|k: int| 0 <= k < cs.len() ==> cs[k].id@ != id,
        },
    decreases cs.len(),
{
    if cs.len() > 0 {
        lemma_city_index(cs.drop_first(), id);
        assert forall|k: int| 1 <= k < cs.len() implies cs[k] == cs.drop_first()[k - 1] by {}
    }
}

pub proof fn lemma_officer_index(os: Seq<Officer>, id: Seq<char>)
    ensures
        match officer_index(os, id) {
            Some(i) => 0 <= i < os.len() && os[i].id@ == id && forall|k: int| 0 <= k < i ==> os[k].id@ != id,
            None => forall|k: int| 0 <= k < os.len() ==> os[k].id@ != id,
        },
    decreases os.len(),
{
    if os.len() > 0 {
        lemma_officer_index(os.drop_first(), id);
        assert forall|k: int| 1 <= k < os.len() implies os[k] == os.drop_first()[k - 1] by {}
    }
}

/// The position of the first court office of `ps` with identifier `id`.
pub open spec fn post_index(ps: Seq<OfficialPost>, id: Seq<char>) -> Option<int>
    decreases ps.len(),
{
    if ps.len() == 0 {
        None
    } else if ps[0].id@ == id {
        Some(0)
    } else {
        match post_index(ps.drop_first(), id) {
            Some(i) => Some(i + 1),
            None => None,
        }
    }
}

proof fn lemma_post_index(ps: Seq<OfficialPost>, id: Seq<char>)
    ensures
        match post_index(ps, id) {
            Some(i) => 0 <= i < ps.len() && ps[i].id@ == id && forall|k: int| 0 <= k < i ==> ps[k].id@ != id,
            None => forall|k: int| 0 <= k < ps.len() ==> ps[k].id@ != id,
        },
    decreases ps.len(),
{
    if ps.len() > 0 {
        lemma_post_index(ps.drop_first(), id);
        assert forall|k: int| 1 <= k < ps.len() implies ps[k] == ps.drop_first()[k - 1] by {}
    }
}

/// Whether an officer of identifier `oid` governs some city of `cs`.
pub open spec fn governs_city(cs: Seq<City>, oid: Seq<char>) -> bool {
    exists|i: int| 0 <= i < cs.len() && ((#[trigger] cs[i]).governor_id matches Some(g) && g@ == oid)
}

impl GameState {
    /// Whether faction `faction_id` still holds a city.
    pub fn faction_alive(&self, faction_id: &str) -> (b: bool)
        ensures
            b == holds_city(self.cities@, faction_id@),
    {
        let mut i: usize = 0;
        while i < self.cities.len()
            invariant
                i <= self.cities.len(),
                forall|k: int| 0 <= k < i ==> (#[trigger] self.cities@[k]).faction_id@ != faction_id@,
            decreases self.cities.len() - i,
        {
            if str_eq(self.cities[i].faction_id.as_str(), faction_id) {
                return true;
            }
            i = i + 1;
        }
        false
    }

    /// The position of the faction with identifier `id`, if there is one.
    pub fn find_faction(&self, id: &str) -> (r: Option<usize>)
        ensures
            match r {
                Some(i) => faction_index(self.factions@, id@) == Some(i as int) && i < self.factions@.len()
                    && self.factions@[i as int].id@ == id@,
                None => faction_index(self.factions@, id@) is None,
            },
    {
        proof {
            lemma_faction_index(self.factions@, id@);
        }
        let mut i: usize = 0;
        while i < self.factions.len()
            invariant
                i <= self.factions.len(),
                forall|k: int| 0 <= k < i ==> (#[trigger] self.factions@[k]).id@ != id@,
                match faction_index(self.factions@, id@) {
                    Some(j) => 0 <= j < self.factions.len() && self.factions@[j].id@ == id@
                        && forall|k: int| 0 <= k < j ==> self.factions@[k].id@ != id@,
                    None => forall|k: int| 0 <= k < self.factions.len() ==> self.factions@[k].id@ != id@,
                },
            decreases self.factions.len() - i,
        {
            if str_eq(self.factions[i].id.as_str(), id) {
                return Some(i);
            }
            i = i + 1;
        }
        None
    }

    /// The position of the city with identifier `id`, if there is one.
    pub fn find_city(&self, id: &str) -> (r: Option<usize>)
        ensures
            match r {
                Some(i) => city_index(self.cities@, id@) == Some(i as int) && i < self.cities@.len()
                    && self.cities@[i as int].id@ == id@,
                None => city_index(self.cities@, id@) is None,
            },
    {
        proof {
            lemma_city_index(self.cities@, id@);
        }
        let mut i: usize = 0;
        while i < self.cities.len()
            invariant
                i <= self.cities.len(),
                forall|k: int| 0 <= k < i ==> (#[trigger] self.cities@[k]).id@ != id@,
                match city_index(self.cities@, id@) {
                    Some(j) => 0 <= j < self.cities.len() && self.cities@[j].id@ == id@
                        && forall|k: int| 0 <= k < j ==> self.cities@[k].id@ != id@,
                    None => forall|k: int| 0 <= k < self.cities.len() ==> self.cities@[k].id@ != id@,
                },
            decreases self.cities.len() - i,
        {
            if str_eq(self.cities[i].id.as_str(), id) {
                return Some(i);
            }
            i = i + 1;
        }
        None
    }

    /// The position of the officer with identifier `id`, if there is one.
    pub fn find_officer(&self, id: &str) -> (r: Option<usize>)
        ensures
            match r {
                Some(i) => officer_index(self.officers@, id@) == Some(i as int) && i < self.officers@.len()
                    && self.officers@[i as int].id@ == id@,
                None => officer_index(self.officers@, id@) is None,
            },
    {
        proof {
            lemma_officer_index(self.officers@, id@);
        }
        let mut i: usize = 0;
        while i < self.officers.len()
            invariant
                i <= self.officers.len(),
                forall|k: int| 0 <= k < i ==> (#[trigger] self.officers@[k]).id@ != id@,
                match officer_index(self.officers@, id@) {
                    Some(j) => 0 <= j < self.officers.len() && self.officers@[j].id@ == id@
                        && forall|k: int| 0 <= k < j ==> self.officers@[k].id@ != id@,
                    None => forall|k: int| 0 <= k < self.officers.len() ==> self.officers@[k].id@ != id@,
                },
            decreases self.officers.len() - i,
        {
            if str_eq(self.officers[i].id.as_str(), id) {
                return Some(i);
            }
            i = i + 1;
        }
        None
    }

    /// The position of the court office with identifier `id`, if there is one.
    pub fn find_post(&self, id: &str) -> (r: Option<usize>)
        ensures
            match r {
                Some(i) => post_index(self.official_posts@, id@) == Some(i as int) && i < self.official_posts@.len()
                    && self.official_posts@[i as int].id@ == id@,
                None => post_index(self.official_posts@, id@) is None,
            },
    {
        proof {
            lemma_post_index(self.official_posts@, id@);
        }
        let mut i: usize = 0;
        while i < self.official_posts.len()
            invariant
                i <= self.official_posts.len(),
                forall|k: int| 0 <= k < i ==> (#[trigger] self.official_posts@[k]).id@ != id@,
                match post_index(self.official_posts@, id@) {
                    Some(j) => 0 <= j < self.official_posts.len() && self.official_posts@[j].id@ == id@
                        && forall|k: int| 0 <= k < j ==> self.official_posts@[k].id@ != id@,
                    None => forall|k: int| 0 <= k < self.official_posts.len() ==> self.official_posts@[k].id@ != id@,
                },
            decreases self.official_posts.len() - i,
        {
            if str_eq(self.official_posts[i].id.as_str(), id) {
                return Some(i);
            }
            i = i + 1;
        }
        None
    }

    /// Whether the officer `officer_id` governs some city.
    pub fn governs_any_city(&self, officer_id: &str) -> (b: bool)
        ensures
            b == governs_city(self.cities@, officer_id@),
    {
        let mut i: usize = 0;
        while i < self.cities.len()
            invariant
                i <= self.cities.len(),
                forall|k: int| 0 <= k < i ==> !((#[trigger] self.cities@[k]).governor_id matches Some(g) && g@ == officer_id@),
            decreases self.cities.len() - i,
        {
            match &self.cities[i].governor_id {
                Some(g) => {
                    if str_eq(g.as_str(), officer_id) {
                        return true;
                    }
                },
                None => {},
            }
            i = i + 1;
        }
        false
    }
}

} // verus!
