//! Editing an officer's historical profile: the form's draft, its checks, and
//! the officers that catalog profiles become.

use vstd::prelude::*;
use crate::game::{
    Controller, Faction, GameState, Officer, OfficerGender, OfficerProfile, OfficerStats, OfficerStatus,
    SourceConfidence,
};
use crate::tags::TagSet;
use crate::text::{i64_to_string, int_dec, owned, parse_i32, parse_i32_str, push_char, push_str, trim, trimmed};

verus! {

/// The tags joined by commas.
pub open spec fn comma_joined(ts: Seq<Seq<char>>) -> Seq<char>
    decreases ts.len(),
{
    if ts.len() == 0 {
        Seq::empty()
    } else if ts.len() == 1 {
        ts[0]
    } else {
        comma_joined(ts.drop_last()) + seq![','] + ts.last()
    }
}

/// How a year appears in the form: its decimal digits, or nothing.
pub open spec fn year_text(y: Option<i32>) -> Seq<char> {
    match y {
        Some(v) => int_dec(v as int),
        None => Seq::empty(),
    }
}

/// The text of an optional field, or nothing.
pub open spec fn text_or_empty(t: Option<String>) -> Seq<char> {
    match t {
        Some(s) => s@,
        None => Seq::empty(),
    }
}

/// The values of the officer edit form, as typed.
#[derive(Debug)]
pub struct OfficerEditDraft {
    pub id: String,
    pub name: String,
    pub courtesy_name: String,
    pub native_place: String,
    pub birth_year: String,
    pub death_year: String,
    pub gender: OfficerGender,
    pub leadership: u8,
    pub strength: u8,
    pub intelligence: u8,
    pub politics: u8,
    pub charm: u8,
    pub tags: String,
    pub tag_ids: TagSet,
    pub confidence: SourceConfidence,
    pub biography: String,
    pub notes: String,
}

/// The tags of `p`, as text.
pub open spec fn profile_tags(p: OfficerProfile) -> Seq<Seq<char>> {
    p.tags@.map_values(|t: String| t@)
}

/// `d` is the draft of profile `p`.
pub open spec fn draft_of_profile(d: OfficerEditDraft, p: OfficerProfile) -> bool {
    &&& d.id@ == p.id@
    &&& d.name@ == p.name@
    &&& d.courtesy_name@ == text_or_empty(p.courtesy_name)
    &&& d.native_place@ == text_or_empty(p.native_place)
    &&& d.birth_year@ == year_text(p.birth_year)
    &&& d.death_year@ == year_text(p.death_year)
    &&& d.gender == p.gender
    &&& d.leadership == p.stats.leadership
    &&& d.strength == p.stats.strength
    &&& d.intelligence == p.stats.intelligence
    &&& d.politics == p.stats.politics
    &&& d.charm == p.stats.charm
    &&& d.tags@ == comma_joined(profile_tags(p))
    &&& d.tag_ids@.to_set() == profile_tags(p).to_set()
    &&& d.confidence == p.confidence
    &&& d.biography@ == p.biography@
    &&& d.notes@ == p.notes@
}

fn text_of(t: &Option<String>) -> (s: String)
    ensures
        s@ == text_or_empty(*t),
{
    match t {
        Some(x) => owned(x.as_str()),
        None => String::new(),
    }
}

fn year_string(y: Option<i32>) -> (s: String)
    ensures
        s@ == year_text(y),
{
    match y {
        Some(v) => i64_to_string(v as i64),
        None => String::new(),
    }
}

/// The tags joined by commas.
pub fn join_tags(tags: &Vec<String>) -> (s: String)
    ensures
        s@ == comma_joined(tags@.map_values(|t: String| t@)),
{
    let ghost ts = tags@.map_values(|t: String| t@);
    let mut s = String::new();
    let mut i: usize = 0;
    while i < tags.len()
        invariant
            ts == tags@.map_values(|t: String| t@),
            i <= tags.len(),
            s@ == comma_joined(ts.take(i as int)),
        decreases tags.len() - i,
    {
        let ghost pre = ts.take(i as int);
        assert(ts.take(i as int + 1).drop_last() =~= pre);
        assert(ts.take(i as int + 1).last() == tags@[i as int]@);
        if i > 0 {
            push_char(&mut s, ',');
        }
        push_str(&mut s, tags[i].as_str());
        if i == 0 {
            assert(ts.take(1)[0] == tags@[0]@);
            assert(s@ =~= comma_joined(ts.take(1)));
        } else {
            assert(s@ =~= comma_joined(ts.take(i as int + 1)));
        }
        i = i + 1;
    }
    assert(ts.take(ts.len() as int) =~= ts);
    s
}

impl OfficerEditDraft {
    /// The draft that shows profile `profile`.
    pub fn from_profile(profile: &OfficerProfile) -> (d: Self)
        ensures
            draft_of_profile(d, *profile),
    {
        OfficerEditDraft {
            id: owned(profile.id.as_str()),
            name: owned(profile.name.as_str()),
            courtesy_name: text_of(&profile.courtesy_name),
            native_place: text_of(&profile.native_place),
            birth_year: year_string(profile.birth_year),
            death_year: year_string(profile.death_year),
            gender: profile.gender,
            leadership: profile.stats.leadership,
            strength: profile.stats.strength,
            intelligence: profile.stats.intelligence,
            politics: profile.stats.politics,
            charm: profile.stats.charm,
            tags: join_tags(&profile.tags),
            tag_ids: TagSet::from_tags(&profile.tags),
            confidence: profile.confidence,
            biography: owned(profile.biography.as_str()),
            notes: owned(profile.notes.as_str()),
        }
    }

    /// The draft for `officer`: its profile when it has one, else its own
    /// fields, with the birth year left empty when it is zero.
    pub fn from_officer(officer: &Officer) -> (d: Self)
        ensures
            match officer.profile {
                Some(p) => draft_of_profile(d, p),
                None => {
                    &&& d.id@ == officer.id@
                    &&& d.name@ == officer.name@
                    &&& d.courtesy_name@.len() == 0
                    &&& d.native_place@.len() == 0
                    &&& d.birth_year@ == (if officer.birth_year != 0 { int_dec(officer.birth_year as int) } else { Seq::empty() })
                    &&& d.death_year@.len() == 0
                    &&& d.gender == officer.gender
                    &&& d.leadership == officer.stats.leadership
                    &&& d.strength == officer.stats.strength
                    &&& d.intelligence == officer.stats.intelligence
                    &&& d.politics == officer.stats.politics
                    &&& d.charm == officer.stats.charm
                    &&& d.tags@.len() == 0
                    &&& d.tag_ids@.len() == 0
                    &&& d.confidence == SourceConfidence::Medium
                    &&& d.biography@.len() == 0
                    &&& d.notes@.len() == 0
                },
            },
    {
        match &officer.profile {
            Some(p) => Self::from_profile(p),
            None => OfficerEditDraft {
                id: owned(officer.id.as_str()),
                name: owned(officer.name.as_str()),
                courtesy_name: String::new(),
                native_place: String::new(),
                birth_year: if officer.birth_year != 0 {
                    i64_to_string(officer.birth_year as i64)
                } else {
                    String::new()
                },
                death_year: String::new(),
                gender: officer.gender,
                leadership: officer.stats.leadership,
                strength: officer.stats.strength,
                intelligence: officer.stats.intelligence,
                politics: officer.stats.politics,
                charm: officer.stats.charm,
                tags: String::new(),
                tag_ids: TagSet::new(),
                confidence: SourceConfidence::Medium,
                biography: String::new(),
                notes: String::new(),
            },
        }
    }
}

/// The changes to store into a profile.
#[derive(Debug)]
pub struct OfficerProfileUpdate {
    pub name: String,
    pub courtesy_name: Option<String>,
    pub native_place: Option<String>,
    pub birth_year: Option<i32>,
    pub death_year: Option<i32>,
    pub gender: OfficerGender,
    pub stats: OfficerStats,
    pub tags: Vec<String>,
    pub confidence: SourceConfidence,
    pub biography: String,
    pub notes: String,
}

/// An optional text field: the trimmed text, or nothing when it is blank.
pub open spec fn optional_text_value(v: Seq<char>) -> Option<Seq<char>> {
    if trimmed(v).len() == 0 {
        None
    } else {
        Some(trimmed(v))
    }
}

/// The view of an optional string.
pub open spec fn option_view(o: Option<String>) -> Option<Seq<char>> {
    match o {
        Some(s) => Some(s@),
        None => None,
    }
}

/// The message for a year field that does not hold a year.
pub open spec fn year_error(label: Seq<char>) -> Seq<char> {
    "officer-edit-year-invalid:"@ + label
}

/// An optional year field: nothing when it is blank, the year it writes, or
/// an error naming the field.
pub open spec fn optional_year_value(v: Seq<char>, label: Seq<char>) -> Result<Option<i32>, Seq<char>> {
    let t = trimmed(v);
    if t.len() == 0 {
        Ok(None)
    } else {
        match parse_i32(t) {
            Some(y) => Ok(Some(y)),
            None => Err(year_error(label)),
        }
    }
}

/// The trimmed text of a field, or `None` when it is blank.
pub fn optional_text(value: &str) -> (r: Option<String>)
    ensures
        option_view(r) == optional_text_value(value@),
{
    let t = trim(value);
    if t.as_str().unicode_len() == 0 {
        None
    } else {
        Some(t)
    }
}

/// The year written in a field, `None` for a blank field, or an error that
/// names the field by `label`.
pub fn optional_year(value: &str, label: &str) -> (r: Result<Option<i32>, String>)
    ensures
        match r {
            Ok(y) => optional_year_value(value@, label@) == Ok::<Option<i32>, Seq<char>>(y),
            Err(e) => optional_year_value(value@, label@) == Err::<Option<i32>, Seq<char>>(e@),
        },
{
    let t = trim(value);
    if t.as_str().unicode_len() == 0 {
        Ok(None)
    } else {
        match parse_i32_str(t.as_str()) {
            Some(y) => Ok(Some(y)),
            None => {
                let mut e = owned("officer-edit-year-invalid:");
                push_str(&mut e, label);
                Err(e)
            },
        }
    }
}

/// The message for a draft without a name.
pub open spec fn name_required_error() -> Seq<char> {
    "officer-edit-name-required"@
}

/// The label key of the birth year field.
pub open spec fn birth_year_label() -> Seq<char> {
    "officer-field-birth-year"@
}

/// The label key of the death year field.
pub open spec fn death_year_label() -> Seq<char> {
    "officer-field-death-year"@
}

/// The error a draft is refused with, if any: a missing name first, then a
/// bad birth year, then a bad death year.
pub open spec fn draft_error(d: OfficerEditDraft) -> Option<Seq<char>> {
    if trimmed(d.name@).len() == 0 {
        Some(name_required_error())
    } else if optional_year_value(d.birth_year@, birth_year_label()) is Err {
        Some(optional_year_value(d.birth_year@, birth_year_label())->Err_0)
    } else if optional_year_value(d.death_year@, death_year_label()) is Err {
        Some(optional_year_value(d.death_year@, death_year_label())->Err_0)
    } else {
        None
    }
}

/// `u` is the update that draft `d` asks for.
pub open spec fn update_of_draft(u: OfficerProfileUpdate, d: OfficerEditDraft) -> bool {
    &&& u.name@ == trimmed(d.name@)
    &&& option_view(u.courtesy_name) == optional_text_value(d.courtesy_name@)
    &&& option_view(u.native_place) == optional_text_value(d.native_place@)
    &&& Ok::<Option<i32>, Seq<char>>(u.birth_year) == optional_year_value(d.birth_year@, birth_year_label())
    &&& Ok::<Option<i32>, Seq<char>>(u.death_year) == optional_year_value(d.death_year@, death_year_label())
    &&& u.gender == d.gender
    &&& u.stats == (OfficerStats {
        leadership: d.leadership,
        strength: d.strength,
        intelligence: d.intelligence,
        politics: d.politics,
        charm: d.charm,
    })
    &&& u.tags@.map_values(|t: String| t@) == d.tag_ids@
    &&& u.confidence == d.confidence
    &&& u.biography@ == trimmed(d.biography@)
    &&& u.notes@ == trimmed(d.notes@)
}

/// The profile update a draft asks for, or the first reason to refuse it.
pub fn draft_to_update(draft: &OfficerEditDraft) -> (r: Result<OfficerProfileUpdate, String>)
    ensures
        match r {
            Ok(u) => draft_error(*draft) is None && update_of_draft(u, *draft),
            Err(e) => draft_error(*draft) == Some(e@),
        },
{
    let name = trim(draft.name.as_str());
    if name.as_str().unicode_len() == 0 {
        return Err(owned("officer-edit-name-required"));
    }
    let birth_year = match optional_year(draft.birth_year.as_str(), "officer-field-birth-year") {
        Ok(y) => y,
        Err(e) => return Err(e),
    };
    let death_year = match optional_year(draft.death_year.as_str(), "officer-field-death-year") {
        Ok(y) => y,
        Err(e) => return Err(e),
    };
    Ok(OfficerProfileUpdate {
        name,
        courtesy_name: optional_text(draft.courtesy_name.as_str()),
        native_place: optional_text(draft.native_place.as_str()),
        birth_year,
        death_year,
        gender: draft.gender,
        stats: OfficerStats {
            leadership: draft.leadership,
            strength: draft.strength,
            intelligence: draft.intelligence,
            politics: draft.politics,
            charm: draft.charm,
        },
        tags: draft.tag_ids.to_vec(),
        confidence: draft.confidence,
        biography: trim(draft.biography.as_str()),
        notes: trim(draft.notes.as_str()),
    })
}

/// `o` is the officer made from catalog profile `p` for faction `fid`: not
/// placed anywhere, unavailable, loyalty 80, born in the profile's year or 0.
pub open spec fn officer_of_profile(o: Officer, p: OfficerProfile, fid: Seq<char>) -> bool {
    &&& o.id@ == p.id@
    &&& o.name@ == p.name@
    &&& o.faction_id@ == fid
    &&& o.city_id is None
    &&& o.office_id is None
    &&& o.stats == p.stats
    &&& o.loyalty == 80
    &&& o.birth_year == match p.birth_year {
        Some(y) => y,
        None => 0,
    }
    &&& o.gender == p.gender
    &&& o.status == OfficerStatus::Unavailable
    &&& o.profile == Some(p)
}

/// The officer that catalog profile `profile` becomes in faction `faction_id`.
pub fn officer_from_profile(profile: OfficerProfile, faction_id: &str) -> (o: Officer)
    ensures
        officer_of_profile(o, profile, faction_id@),
{
    let id = owned(profile.id.as_str());
    let name = owned(profile.name.as_str());
    let stats = profile.stats;
    let birth_year = match profile.birth_year {
        Some(y) => y,
        None => 0,
    };
    let gender = profile.gender;
    Officer {
        id,
        name,
        faction_id: owned(faction_id),
        city_id: None,
        office_id: None,
        stats,
        loyalty: 80,
        birth_year,
        gender,
        status: OfficerStatus::Unavailable,
        profile: Some(profile),
    }
}

/// The identifier of the faction that holds catalog officers.
pub open spec fn catalog_faction_id() -> Seq<char> {
    "catalog"@
}

/// `f` is the faction that holds catalog officers.
pub open spec fn is_catalog_faction(f: Faction) -> bool {
    &&& f.id@ == catalog_faction_id()
    &&& f.name@ == "资料库"@
    &&& f.ruler_id@.len() == 0
    &&& f.heir_id is None
    &&& !f.selectable
    &&& f.controlled_by == Controller::RuleAi
}

/// Whether some officer of `os` has identifier `id`.
pub open spec fn officer_listed(os: Seq<Officer>, id: Seq<char>) -> bool {
    exists|k: int| 0 <= k < os.len() && (#[trigger] os[k]).id@ == id
}

/// Whether some profile of `ps` has identifier `id`.
pub open spec fn profile_listed(ps: Seq<OfficerProfile>, id: Seq<char>) -> bool {
    exists|k: int| 0 <= k < ps.len() && (#[trigger] ps[k]).id@ == id
}

/// The profiles of `ps` that add an officer to `os`: those whose identifier
/// no officer and no earlier profile has.
pub open spec fn added_profiles(os: Seq<Officer>, ps: Seq<OfficerProfile>) -> Seq<OfficerProfile>
    decreases ps.len(),
{
    if ps.len() == 0 {
        Seq::empty()
    } else {
        let rest = added_profiles(os, ps.drop_last());
        let p = ps.last();
        if !officer_listed(os, p.id@) && !profile_listed(ps.drop_last(), p.id@) {
            rest.push(p)
        } else {
            rest
        }
    }
}

/// The game with the catalog faction and the officers of `ps` that it lacks.
pub open spec fn extended_with_catalog(g: GameState, old_g: GameState, ps: Seq<OfficerProfile>) -> bool {
    let added = added_profiles(old_g.officers@, ps);
    &&& g.factions@ == if exists|k: int| 0 <= k < old_g.factions@.len() && (#[trigger] old_g.factions@[k]).id@
        == catalog_faction_id() {
        old_g.factions@
    } else {
        old_g.factions@.push(g.factions@.last())
    }
    &&& (forall|k: int| 0 <= k < old_g.factions@.len() ==> (#[trigger] old_g.factions@[k]).id@ != catalog_faction_id())
        ==> is_catalog_faction(g.factions@.last())
    &&& g.officers@.len() == old_g.officers@.len() + added.len()
    &&& forall|k: int| 0 <= k < old_g.officers@.len() ==> #[trigger] g.officers@[k] == old_g.officers@[k]
    &&& forall|k: int| 0 <= k < added.len() ==> officer_of_profile(
        #[trigger] g.officers@[old_g.officers@.len() + k],
        added[k],
        catalog_faction_id(),
    )
    &&& g == (GameState { factions: g.factions, officers: g.officers, ..old_g })
}

fn officer_present(os: &Vec<Officer>, id: &str) -> (b: bool)
    ensures
        b == officer_listed(os@, id@),
{
    let mut i: usize = 0;
    while i < os.len()
        invariant
            i <= os.len(),
            forall|k: int| 0 <= k < i ==> (#[trigger] os@[k]).id@ != id@,
        decreases os.len() - i,
    {
        if crate::text::str_eq(os[i].id.as_str(), id) {
            return true;
        }
        i = i + 1;
    }
    false
}

/// Adds the catalog faction when the game lacks it, and an officer of that
/// faction for each profile whose identifier no officer has yet.
pub fn extend_game_with_catalog_officers(game: &mut GameState, profiles: Vec<OfficerProfile>)
    ensures
        extended_with_catalog(*final(game), *old(game), profiles@),
{
    let ghost ps = profiles@;
    let ghost old_officers = game.officers@;
    match game.find_faction("catalog") {
        Some(_) => {},
        None => {
            proof {
                reveal_strlit("catalog");
            }
            game.factions.push(Faction {
                id: owned("catalog"),
                name: owned("资料库"),
                ruler_id: String::new(),
                heir_id: None,
                selectable: false,
                controlled_by: Controller::RuleAi,
            });
        },
    }
    proof {
        crate::game::lemma_faction_index(old(game).factions@, catalog_faction_id());
        reveal_strlit("catalog");
    }
    let total: usize = profiles.len();
    let mut rest = profiles;
    let mut taken: usize = 0;
    while rest.len() > 0
        invariant
            ps.len() == total,
            taken + rest@.len() == ps.len(),
            rest@ == ps.subrange(taken as int, ps.len() as int),
            game.officers@.len() == old_officers.len() + added_profiles(old_officers, ps.take(taken as int)).len(),
            forall|k: int| 0 <= k < old_officers.len() ==> #[trigger] game.officers@[k] == old_officers[k],
            forall|k: int| 0 <= k < added_profiles(old_officers, ps.take(taken as int)).len() ==> officer_of_profile(
                #[trigger] game.officers@[old_officers.len() + k],
                added_profiles(old_officers, ps.take(taken as int))[k],
                catalog_faction_id(),
            ),
            forall|id: Seq<char>| #[trigger] officer_listed(game.officers@, id) <==> officer_listed(old_officers, id)
                || profile_listed(ps.take(taken as int), id),
            game.factions == old(game).factions || game.factions@.len() > 0,
            game.factions@ == (if exists|k: int| 0 <= k < old(game).factions@.len() && (#[trigger] old(game).factions@[k]).id@
                == catalog_faction_id() {
                old(game).factions@
            } else {
                old(game).factions@.push(game.factions@.last())
            }),
            (forall|k: int| 0 <= k < old(game).factions@.len() ==> (#[trigger] old(game).factions@[k]).id@ != catalog_faction_id())
                ==> is_catalog_faction(game.factions@.last()),
            *game == (GameState { factions: game.factions, officers: game.officers, ..*old(game) }),
            old_officers == old(game).officers@,
        decreases rest.len(),
    {
        let ghost pre = ps.take(taken as int);
        let ghost added_before = added_profiles(old_officers, pre);
        let profile = rest.remove(0);
        assert(profile == ps[taken as int]);
        assert(ps.take(taken as int + 1).drop_last() =~= pre);
        assert(ps.take(taken as int + 1).last() == profile);
        let present = officer_present(&game.officers, profile.id.as_str());
        proof {
            if !officer_listed(old_officers, profile.id@) && profile_listed(pre, profile.id@) {
                assert(officer_listed(game.officers@, profile.id@));
            }
        }
        if !present {
            let ghost before = game.officers@;
            let officer = officer_from_profile(profile, "catalog");
            game.officers.push(officer);
            proof {
                assert(added_profiles(old_officers, ps.take(taken as int + 1)) == added_before.push(ps[taken as int]));
                assert forall|id: Seq<char>| #[trigger] officer_listed(game.officers@, id) <==> officer_listed(old_officers, id)
                    || profile_listed(ps.take(taken as int + 1), id) by {
                    if officer_listed(game.officers@, id) {
                        let k = choose|k: int| 0 <= k < game.officers@.len() && (#[trigger] game.officers@[k]).id@ == id;
                        if k < before.len() {
                            assert(before[k] == game.officers@[k]);
                            assert(officer_listed(before, id));
                            if profile_listed(pre, id) {
                                let j = choose|j: int| 0 <= j < pre.len() && (#[trigger] pre[j]).id@ == id;
                                assert(ps.take(taken as int + 1)[j] == pre[j]);
                            }
                        } else {
                            assert(ps.take(taken as int + 1)[taken as int].id@ == id);
                        }
                    }
                    if profile_listed(ps.take(taken as int + 1), id) {
                        let j = choose|j: int| 0 <= j < ps.take(taken as int + 1).len() && (#[trigger] ps.take(taken as int + 1)[j]).id@ == id;
                        if j < taken {
                            assert(pre[j] == ps.take(taken as int + 1)[j]);
                            assert(profile_listed(pre, id));
                            assert(officer_listed(before, id));
                            let k = choose|k: int| 0 <= k < before.len() && (#[trigger] before[k]).id@ == id;
                            assert(game.officers@[k] == before[k]);
                        } else {
                            assert(game.officers@[before.len() as int].id@ == id);
                        }
                    }
                    if officer_listed(old_officers, id) {
                        let k = choose|k: int| 0 <= k < old_officers.len() && (#[trigger] old_officers[k]).id@ == id;
                        assert(game.officers@[k] == old_officers[k]);
                    }
                }
                assert forall|k: int| 0 <= k < added_profiles(old_officers, ps.take(taken as int + 1)).len() implies officer_of_profile(
                    #[trigger] game.officers@[old_officers.len() + k],
                    added_profiles(old_officers, ps.take(taken as int + 1))[k],
                    catalog_faction_id(),
                ) by {
                    if k < added_before.len() {
                        assert(game.officers@[old_officers.len() + k] == before[old_officers.len() + k]);
                    }
                }
            }
        } else {
            proof {
                assert(added_profiles(old_officers, ps.take(taken as int + 1)) == added_before);
                assert forall|id: Seq<char>| #[trigger] officer_listed(game.officers@, id) <==> officer_listed(old_officers, id)
                    || profile_listed(ps.take(taken as int + 1), id) by {
                    if profile_listed(ps.take(taken as int + 1), id) {
                        let j = choose|j: int| 0 <= j < ps.take(taken as int + 1).len() && (#[trigger] ps.take(taken as int + 1)[j]).id@ == id;
                        if j < taken {
                            assert(pre[j] == ps.take(taken as int + 1)[j]);
                            assert(profile_listed(pre, id));
                        }
                    }
                    if profile_listed(pre, id) {
                        let j = choose|j: int| 0 <= j < pre.len() && (#[trigger] pre[j]).id@ == id;
                        assert(ps.take(taken as int + 1)[j] == pre[j]);
                    }
                }
            }
        }
        taken = taken + 1;
        assert(rest@ =~= ps.subrange(taken as int, ps.len() as int));
    }
    assert(ps.take(ps.len() as int) =~= ps);
}

/// Shows a saved profile on the officer of the same identifier, if the game
/// has one: its name, gender, abilities and the profile itself.
pub fn sync_updated_officer_profile(game: &mut GameState, profile: OfficerProfile)
    ensures
        match crate::game::officer_index(old(game).officers@, profile.id@) {
            Some(i) => final(game).officers@ == old(game).officers@.update(i, Officer {
                name: final(game).officers@[i].name,
                gender: profile.gender,
                stats: profile.stats,
                profile: Some(profile),
                ..old(game).officers@[i]
            }) && final(game).officers@[i].name@ == profile.name@,
            None => final(game).officers@ == old(game).officers@,
        },
        *final(game) == (GameState { officers: final(game).officers, ..*old(game) }),
{
    match game.find_officer(profile.id.as_str()) {
        Some(i) => {
            let mut officers: Vec<Officer> = Vec::new();
            std::mem::swap(&mut officers, &mut game.officers);
            let mut officer = officers.remove(i);
            officer.name = owned(profile.name.as_str());
            officer.gender = profile.gender;
            officer.stats = profile.stats;
            officer.profile = Some(profile);
            officers.insert(i, officer);
            game.officers = officers;
        },
        None => {},
    }
}

/// A year written into the form by its profile reads back as that year.
proof fn lemma_year_text_reads_back(y: Option<i32>, label: Seq<char>)
    ensures
        optional_year_value(year_text(y), label) == Ok::<Option<i32>, Seq<char>>(y),
{
    match y {
        Some(v) => {
            crate::text::lemma_int_dec_trimmed(v as int);
            crate::text::lemma_parse_int_dec(v as int);
            crate::text::lemma_dec_digits(if v < 0 { (-v) as nat } else { v as nat });
        },
        None => {
            assert(trimmed(Seq::<char>::empty()) =~= Seq::<char>::empty());
        },
    }
}

/// Opening a profile in the editor and saving it without a change is
/// accepted when the profile has a name, and gives back the profile's years,
/// gender, abilities, confidence and tags, with its name trimmed.
pub proof fn lemma_unchanged_draft_keeps_profile(p: OfficerProfile, d: OfficerEditDraft, u: OfficerProfileUpdate)
    requires
        draft_of_profile(d, p),
        trimmed(p.name@).len() > 0,
    ensures
        draft_error(d) is None,
        update_of_draft(u, d) ==> {
            &&& u.name@ == trimmed(p.name@)
            &&& u.birth_year == p.birth_year
            &&& u.death_year == p.death_year
            &&& u.gender == p.gender
            &&& u.stats == p.stats
            &&& u.confidence == p.confidence
            &&& u.tags@.map_values(|t: String| t@).to_set() == profile_tags(p).to_set()
        },
{
    lemma_year_text_reads_back(p.birth_year, birth_year_label());
    lemma_year_text_reads_back(p.death_year, death_year_label());
}

/// Every profile of `ps` is listed among `os`, or added for the first profile
/// of its identifier.
proof fn lemma_added_profiles_cover(os: Seq<Officer>, ps: Seq<OfficerProfile>)
    ensures
        forall|k: int| 0 <= k < ps.len() ==> officer_listed(os, (#[trigger] ps[k]).id@) || exists|j: int|
            0 <= j < added_profiles(os, ps).len() && added_profiles(os, ps)[j].id@ == ps[k].id@,
    decreases ps.len(),
{
    if ps.len() > 0 {
        let init = ps.drop_last();
        lemma_added_profiles_cover(os, init);
        let added = added_profiles(os, ps);
        let before = added_profiles(os, init);
        assert forall|k: int| 0 <= k < ps.len() implies officer_listed(os, (#[trigger] ps[k]).id@) || exists|j: int|
            0 <= j < added.len() && added[j].id@ == ps[k].id@ by {
            if k < ps.len() - 1 {
                assert(ps[k] == init[k]);
                if !officer_listed(os, ps[k].id@) {
                    let j = choose|j: int| 0 <= j < before.len() && before[j].id@ == init[k].id@;
                    assert(added[j] == before[j]);
                }
            } else {
                let p = ps.last();
                if !officer_listed(os, p.id@) {
                    if profile_listed(init, p.id@) {
                        let m = choose|m: int| 0 <= m < init.len() && (#[trigger] init[m]).id@ == p.id@;
                        assert(init[m] == ps[m]);
                        let j = choose|j: int| 0 <= j < before.len() && before[j].id@ == init[m].id@;
                        assert(added[j] == before[j]);
                    } else {
                        assert(added[added.len() - 1] == p);
                    }
                }
            }
        }
    }
}

/// No profile is added to officers that already list every identifier.
proof fn lemma_nothing_added(os: Seq<Officer>, ps: Seq<OfficerProfile>)
    requires
        forall|k: int| 0 <= k < ps.len() ==> officer_listed(os, (#[trigger] ps[k]).id@),
    ensures
        added_profiles(os, ps).len() == 0,
    decreases ps.len(),
{
    if ps.len() > 0 {
        let init = ps.drop_last();
        assert forall|k: int| 0 <= k < init.len() implies officer_listed(os, (#[trigger] init[k]).id@) by {
            assert(init[k] == ps[k]);
        }
        lemma_nothing_added(os, init);
        assert(officer_listed(os, ps[ps.len() - 1].id@));
    }
}

/// Extending a game with the catalog a second time, with the same profiles,
/// changes neither its factions nor its officers.
pub proof fn lemma_catalog_extension_idempotent(g0: GameState, g1: GameState, g2: GameState, ps: Seq<OfficerProfile>)
    requires
        extended_with_catalog(g1, g0, ps),
        extended_with_catalog(g2, g1, ps),
    ensures
        g2.factions@ == g1.factions@,
        g2.officers@ == g1.officers@,
{
    let added = added_profiles(g0.officers@, ps);
    if !exists|k: int| 0 <= k < g0.factions@.len() && (#[trigger] g0.factions@[k]).id@ == catalog_faction_id() {
        let last = g1.factions@.len() - 1;
        assert(g1.factions@[last].id@ == catalog_faction_id());
    } else {
        let k = choose|k: int| 0 <= k < g0.factions@.len() && (#[trigger] g0.factions@[k]).id@ == catalog_faction_id();
        assert(g1.factions@[k] == g0.factions@[k]);
    }
    lemma_added_profiles_cover(g0.officers@, ps);
    assert forall|k: int| 0 <= k < ps.len() implies officer_listed(g1.officers@, (#[trigger] ps[k]).id@) by {
        if officer_listed(g0.officers@, ps[k].id@) {
            let m = choose|m: int| 0 <= m < g0.officers@.len() && (#[trigger] g0.officers@[m]).id@ == ps[k].id@;
            assert(g1.officers@[m] == g0.officers@[m]);
        } else {
            let j = choose|j: int| 0 <= j < added.len() && added[j].id@ == ps[k].id@;
            assert(officer_of_profile(g1.officers@[g0.officers@.len() + j], added[j], catalog_faction_id()));
            assert(g1.officers@[g0.officers@.len() + j].id@ == ps[k].id@);
        }
    }
    lemma_nothing_added(g1.officers@, ps);
    assert(g2.officers@ =~= g1.officers@);
}

/// How an error of the officer editor is shown.
#[derive(Clone, Debug, PartialEq, Eq)]
pub enum OfficerEditErrorText {
    /// The name is missing: shown by its message key.
    NameRequired,
    /// A year field does not hold a year: shown with the field's label key.
    YearInvalid { label_key: String },
    /// Any other error, shown as it is.
    Raw(String),
}

/// How error `error` of the editor is shown: the missing name and a bad
/// year are recognised by their codes, anything else is shown as it is.
pub fn classify_officer_edit_error(error: &str) -> (r: OfficerEditErrorText)
    ensures
        error@ == name_required_error() ==> r is NameRequired,
        error@ != name_required_error() && error@.len() >= year_error(Seq::empty()).len() && error@.take(year_error(Seq::empty()).len() as int)
            == year_error(Seq::empty()) ==> (r matches OfficerEditErrorText::YearInvalid { label_key } && label_key@ == error@.skip(
            year_error(Seq::empty()).len() as int,
        )),
        error@ != name_required_error() && !(error@.len() >= year_error(Seq::empty()).len() && error@.take(year_error(Seq::empty()).len() as int)
            == year_error(Seq::empty())) ==> (r matches OfficerEditErrorText::Raw(t) && t@ == error@),
{
    proof {
        assert(year_error(Seq::empty()) =~= "officer-edit-year-invalid:"@);
    }
    if crate::text::str_eq(error, "officer-edit-name-required") {
        return OfficerEditErrorText::NameRequired;
    }
    let prefix = crate::text::chars_of("officer-edit-year-invalid:");
    let chars = crate::text::chars_of(error);
    if chars.len() >= prefix.len() {
        let mut i: usize = 0;
        let mut same = true;
        assert(chars@.take(0) =~= prefix@.take(0));
        while i < prefix.len()
            invariant
                i <= prefix@.len(),
                prefix@.len() <= chars@.len(),
                same == (chars@.take(i as int) == prefix@.take(i as int)),
            decreases prefix@.len() - i,
        {
            let ghost was = same;
            if chars[i] != prefix[i] {
                same = false;
            }
            proof {
                assert(chars@.take(i as int + 1) =~= chars@.take(i as int).push(chars@[i as int]));
                assert(prefix@.take(i as int + 1) =~= prefix@.take(i as int).push(prefix@[i as int]));
                if !same && was {
                    assert(chars@.take(i as int + 1)[i as int] != prefix@.take(i as int + 1)[i as int]);
                }
                if !was {
                    if chars@.take(i as int + 1) == prefix@.take(i as int + 1) {
                        assert(chars@.take(i as int) =~= chars@.take(i as int + 1).take(i as int));
                        assert(prefix@.take(i as int) =~= prefix@.take(i as int + 1).take(i as int));
                    }
                }
            }
            i = i + 1;
        }
        assert(prefix@.take(prefix@.len() as int) =~= prefix@);
        if same {
            let label = crate::text::string_from_range(&chars, prefix.len(), chars.len());
            assert(chars@.subrange(prefix@.len() as int, chars@.len() as int) =~= error@.skip(prefix@.len() as int));
            return OfficerEditErrorText::YearInvalid { label_key: label };
        }
    }
    OfficerEditErrorText::Raw(owned(error))
}

} // verus!
