//! The officer browser: filters by gender, faction, status, city, tags and
//! free text, and the sorted table of the officers that pass them.

use vstd::prelude::*;
use vstd::relations::sorted_by;
use crate::game::{
    GameState, Officer, OfficerGender, OfficerStats, OfficerStatus, OfficerTagCategory, city_index, faction_index,
    post_index,
};
use crate::settings::UiLanguage;
use crate::table_order::{TableRow, stable_sort, table_in_order, ties_keep_order};
use crate::tags::{TagSet, ascending_list, lemma_is_ascending_list};
use crate::text::{contains_seq, chars_contain, chars_of, owned, push_char, push_str, seq_lt, str_eq, str_less};

verus! {

/// Which genders the browser shows.
#[derive(Clone, Copy, Debug, PartialEq, Eq, Structural)]
pub enum OfficerGenderFilter {
    All,
    Male,
    Female,
}

/// Which service statuses the browser shows.
#[derive(Clone, Copy, Debug, PartialEq, Eq, Structural)]
pub enum OfficerStatusFilter {
    All,
    Active,
    Minor,
    Wild,
    Unavailable,
    Dead,
}

/// The browser's filters.
#[derive(Debug)]
pub struct OfficerBrowserFilters {
    pub search: String,
    pub gender: OfficerGenderFilter,
    pub faction_id: Option<String>,
    pub status: OfficerStatusFilter,
    pub city_id: Option<String>,
    pub tag_ids: TagSet,
}

/// Filters that let every officer through.
pub open spec fn is_unfiltered(f: OfficerBrowserFilters) -> bool {
    &&& f.search@.len() == 0
    &&& f.gender == OfficerGenderFilter::All
    &&& f.faction_id is None
    &&& f.status == OfficerStatusFilter::All
    &&& f.city_id is None
    &&& f.tag_ids@.len() == 0
}

impl Default for OfficerBrowserFilters {
    fn default() -> (f: Self)
        ensures
            is_unfiltered(f),
    {
        OfficerBrowserFilters {
            search: String::new(),
            gender: OfficerGenderFilter::All,
            faction_id: None,
            status: OfficerStatusFilter::All,
            city_id: None,
            tag_ids: TagSet::new(),
        }
    }
}

impl OfficerBrowserFilters {
    /// Clears every filter.
    pub fn reset(&mut self)
        ensures
            is_unfiltered(*final(self)),
    {
        *self = OfficerBrowserFilters::default();
    }
}

/// Whether gender `g` passes filter `f`.
pub open spec fn gender_passes(g: OfficerGender, f: OfficerGenderFilter) -> bool {
    match f {
        OfficerGenderFilter::All => true,
        OfficerGenderFilter::Male => g == OfficerGender::Male,
        OfficerGenderFilter::Female => g == OfficerGender::Female,
    }
}

/// The "all" gender filter lets every officer through; the other gender
/// filters let through exactly the officers of the gender they name.
pub proof fn lemma_gender_filter_selects_its_gender(g: OfficerGender, game: GameState, o: Officer, f: OfficerBrowserFilters, search: Seq<char>)
    ensures
        gender_passes(g, OfficerGenderFilter::All),
        gender_passes(g, OfficerGenderFilter::Male) <==> g == OfficerGender::Male,
        gender_passes(g, OfficerGenderFilter::Female) <==> g == OfficerGender::Female,
        passes_filters(game, o, f, search) && f.gender == OfficerGenderFilter::Male ==> o.gender == OfficerGender::Male,
        passes_filters(game, o, f, search) && f.gender == OfficerGenderFilter::Female ==> o.gender == OfficerGender::Female,
{
}

/// Whether gender `gender` passes filter `filter`.
pub fn officer_gender_matches(gender: &OfficerGender, filter: OfficerGenderFilter) -> (b: bool)
    ensures
        b == gender_passes(*gender, filter),
{
    match filter {
        OfficerGenderFilter::All => true,
        OfficerGenderFilter::Male => *gender == OfficerGender::Male,
        OfficerGenderFilter::Female => *gender == OfficerGender::Female,
    }
}

/// Whether status `s` passes filter `f`.
pub open spec fn status_passes(s: OfficerStatus, f: OfficerStatusFilter) -> bool {
    match f {
        OfficerStatusFilter::All => true,
        OfficerStatusFilter::Active => s == OfficerStatus::Active,
        OfficerStatusFilter::Minor => s == OfficerStatus::Minor,
        OfficerStatusFilter::Wild => s == OfficerStatus::Wild,
        OfficerStatusFilter::Unavailable => s == OfficerStatus::Unavailable,
        OfficerStatusFilter::Dead => s == OfficerStatus::Dead,
    }
}

/// The "all" status filter lets every officer through; every other status
/// filter lets through exactly the officers whose status it names, and only
/// those, however the other filters are set.
pub proof fn lemma_status_filter_selects_its_status(s: OfficerStatus, game: GameState, o: Officer, f: OfficerBrowserFilters, search: Seq<char>)
    ensures
        status_passes(s, OfficerStatusFilter::All),
        status_passes(s, OfficerStatusFilter::Active) <==> s == OfficerStatus::Active,
        status_passes(s, OfficerStatusFilter::Minor) <==> s == OfficerStatus::Minor,
        status_passes(s, OfficerStatusFilter::Wild) <==> s == OfficerStatus::Wild,
        status_passes(s, OfficerStatusFilter::Unavailable) <==> s == OfficerStatus::Unavailable,
        status_passes(s, OfficerStatusFilter::Dead) <==> s == OfficerStatus::Dead,
        passes_filters(game, o, f, search) && f.status == OfficerStatusFilter::Active ==> o.status == OfficerStatus::Active,
        passes_filters(game, o, f, search) && f.status == OfficerStatusFilter::Minor ==> o.status == OfficerStatus::Minor,
        passes_filters(game, o, f, search) && f.status == OfficerStatusFilter::Wild ==> o.status == OfficerStatus::Wild,
        passes_filters(game, o, f, search) && f.status == OfficerStatusFilter::Unavailable ==> o.status == OfficerStatus::Unavailable,
        passes_filters(game, o, f, search) && f.status == OfficerStatusFilter::Dead ==> o.status == OfficerStatus::Dead,
{
}

/// Whether status `status` passes filter `filter`.
pub fn officer_status_matches(status: &OfficerStatus, filter: OfficerStatusFilter) -> (b: bool)
    ensures
        b == status_passes(*status, filter),
{
    match filter {
        OfficerStatusFilter::All => true,
        OfficerStatusFilter::Active => *status == OfficerStatus::Active,
        OfficerStatusFilter::Minor => *status == OfficerStatus::Minor,
        OfficerStatusFilter::Wild => *status == OfficerStatus::Wild,
        OfficerStatusFilter::Unavailable => *status == OfficerStatus::Unavailable,
        OfficerStatusFilter::Dead => *status == OfficerStatus::Dead,
    }
}

/// Whether the catalog defines tag `id`.
pub open spec fn tag_defined(game: GameState, id: Seq<char>) -> bool {
    exists|k: int| 0 <= k < game.officer_tag_definitions@.len() && (#[trigger] game.officer_tag_definitions@[k]).id@ == id
}

/// The tag that legacy name `alias` stands for, by the first alias entry for it.
pub open spec fn alias_target(game: GameState, alias: Seq<char>) -> Option<Seq<char>> {
    let als = game.officer_tag_aliases@;
    if exists|k: int| 0 <= k < als.len() && (#[trigger] als[k]).alias@ == alias {
        let k = choose|k: int| 0 <= k < als.len() && (#[trigger] als[k]).alias@ == alias && forall|j: int|
            0 <= j < k ==> als[j].alias@ != alias;
        Some(als[k].tag_id@)
    } else {
        None
    }
}

/// What a profile tag counts as: itself when the catalog defines it, else
/// the tag its legacy name stands for, else nothing.
pub open spec fn normalized_tag(game: GameState, t: Seq<char>) -> Option<Seq<char>> {
    if tag_defined(game, t) {
        Some(t)
    } else {
        alias_target(game, t)
    }
}

/// The tags that the profile tags `ts` count as.
pub open spec fn tag_set_of(game: GameState, ts: Seq<String>) -> Set<Seq<char>>
    decreases ts.len(),
{
    if ts.len() == 0 {
        Set::empty()
    } else {
        let rest = tag_set_of(game, ts.drop_last());
        match normalized_tag(game, ts.last()@) {
            Some(t) => rest.insert(t),
            None => rest,
        }
    }
}

/// The tags that officer `o` counts as having.
pub open spec fn officer_tag_set(game: GameState, o: Officer) -> Set<Seq<char>> {
    match o.profile {
        Some(p) => tag_set_of(game, p.tags@),
        None => Set::empty(),
    }
}

fn tag_is_defined(game: &GameState, id: &str) -> (b: bool)
    ensures
        b == tag_defined(*game, id@),
{
    let mut k: usize = 0;
    while k < game.officer_tag_definitions.len()
        invariant
            k <= game.officer_tag_definitions.len(),
            forall|j: int| 0 <= j < k ==> (#[trigger] game.officer_tag_definitions@[j]).id@ != id@,
        decreases game.officer_tag_definitions.len() - k,
    {
        if str_eq(game.officer_tag_definitions[k].id.as_str(), id) {
            return true;
        }
        k = k + 1;
    }
    false
}

fn alias_of(game: &GameState, alias: &str) -> (r: Option<String>)
    ensures
        match r {
            Some(t) => alias_target(*game, alias@) == Some(t@),
            None => alias_target(*game, alias@) is None,
        },
{
    let ghost als = game.officer_tag_aliases@;
    let mut k: usize = 0;
    while k < game.officer_tag_aliases.len()
        invariant
            als == game.officer_tag_aliases@,
            k <= als.len(),
            forall|j: int| 0 <= j < k ==> (#[trigger] als[j]).alias@ != alias@,
        decreases als.len() - k,
    {
        if str_eq(game.officer_tag_aliases[k].alias.as_str(), alias) {
            proof {
                let c = choose|c: int| 0 <= c < als.len() && (#[trigger] als[c]).alias@ == alias@ && forall|j: int|
                    0 <= j < c ==> als[j].alias@ != alias@;
                assert(c == k) by {
                    if c < k {
                    } else if c > k {
                        assert(als[k as int].alias@ == alias@);
                    }
                }
            }
            return Some(owned(game.officer_tag_aliases[k].tag_id.as_str()));
        }
        k = k + 1;
    }
    None
}

/// The tags that `officer` counts as having, catalog tags and the current
/// names of legacy ones.
pub fn normalized_officer_tag_ids(officer: &Officer, game: &GameState) -> (tags: TagSet)
    ensures
        tags@.to_set() == officer_tag_set(*game, *officer),
        tags@ == ascending_list(officer_tag_set(*game, *officer)),
{
    let mut tags = TagSet::new();
    match &officer.profile {
        None => {
            assert(tags@.to_set() =~= officer_tag_set(*game, *officer));
            proof {
                lemma_is_ascending_list(tags@);
            }
            tags
        },
        Some(profile) => {
            let ghost pt = profile.tags@;
            let mut i: usize = 0;
            while i < profile.tags.len()
                invariant
                    officer.profile == Some(*profile),
                    pt == profile.tags@,
                    crate::tags::strictly_ascending(tags@),
                    i <= pt.len(),
                    tags@.to_set() == tag_set_of(*game, pt.take(i as int)),
                decreases pt.len() - i,
            {
                let tag = &profile.tags[i];
                assert(pt.take(i as int + 1).drop_last() =~= pt.take(i as int));
                assert(pt.take(i as int + 1).last() == *tag);
                let n: Option<String> = if tag_is_defined(game, tag.as_str()) {
                    Some(owned(tag.as_str()))
                } else {
                    alias_of(game, tag.as_str())
                };
                match n {
                    Some(x) => {
                        tags.insert(x);
                    },
                    None => {},
                }
                i = i + 1;
            }
            assert(pt.take(pt.len() as int) =~= pt);
            assert(tags@.to_set() =~= officer_tag_set(*game, *officer));
            proof {
                lemma_is_ascending_list(tags@);
            }
            tags
        },
    }
}

/// The position of the first catalog definition of tag `id`.
pub open spec fn definition_position(ds: Seq<crate::game::OfficerTagDefinition>, id: Seq<char>) -> Option<int>
    decreases ds.len(),
{
    if ds.len() == 0 {
        None
    } else if ds[0].id@ == id {
        Some(0)
    } else {
        match definition_position(ds.drop_first(), id) {
            Some(i) => Some(i + 1),
            None => None,
        }
    }
}

proof fn lemma_definition_position(ds: Seq<crate::game::OfficerTagDefinition>, id: Seq<char>)
    ensures
        match definition_position(ds, id) {
            Some(i) => 0 <= i < ds.len() && ds[i].id@ == id && forall|k: int| 0 <= k < i ==> ds[k].id@ != id,
            None => forall|k: int| 0 <= k < ds.len() ==> ds[k].id@ != id,
        },
    decreases ds.len(),
{
    if ds.len() > 0 {
        lemma_definition_position(ds.drop_first(), id);
        assert forall|k: int| 1 <= k < ds.len() implies ds[k] == ds.drop_first()[k - 1] by {}
    }
}

/// The category of the first catalog definition of tag `id`.
pub open spec fn tag_category(game: GameState, id: Seq<char>) -> Option<OfficerTagCategory> {
    match definition_position(game.officer_tag_definitions@, id) {
        Some(k) => Some(game.officer_tag_definitions@[k].category),
        None => None,
    }
}

/// Whether, among the selected tags `sel`, one of category `c` is in `have`.
pub open spec fn category_met(game: GameState, sel: Seq<Seq<char>>, have: Set<Seq<char>>, c: OfficerTagCategory, upto: int) -> bool {
    exists|j: int| 0 <= j < upto && tag_category(game, #[trigger] sel[j]) == Some(c) && have.contains(sel[j])
}

/// Whether an officer with tags `have` passes tag selection `sel`: every
/// selected tag is defined, and in each category with a selection the
/// officer has one of the selected tags.
pub open spec fn tags_pass(game: GameState, sel: Seq<Seq<char>>, have: Set<Seq<char>>) -> bool {
    &&& forall|i: int| 0 <= i < sel.len() ==> tag_category(game, #[trigger] sel[i]) is Some
    &&& forall|i: int| 0 <= i < sel.len() ==> category_met(game, sel, have, (#[trigger] tag_category(game, sel[i]))->Some_0, sel.len() as int)
}

fn category_of(game: &GameState, id: &str) -> (r: Option<OfficerTagCategory>)
    ensures
        r == tag_category(*game, id@),
{
    match definition_index(game, id) {
        Some(k) => Some(game.officer_tag_definitions[k].category),
        None => None,
    }
}

/// Whether `officer` passes the tag selection of `filters`.
pub fn officer_tags_match_filters(officer: &Officer, game: &GameState, filters: &OfficerBrowserFilters) -> (b: bool)
    ensures
        b == tags_pass(*game, filters.tag_ids@, officer_tag_set(*game, *officer)),
{
    let n = filters.tag_ids.len();
    if n == 0 {
        return true;
    }
    let ghost sel = filters.tag_ids@;
    let have = normalized_officer_tag_ids(officer, game);
    let ghost hs = officer_tag_set(*game, *officer);
    let mut i: usize = 0;
    while i < n
        invariant
            sel == filters.tag_ids@,
            n == sel.len(),
            i <= n,
            hs == officer_tag_set(*game, *officer),
            have@.to_set() == hs,
            forall|k: int| 0 <= k < i ==> tag_category(*game, #[trigger] sel[k]) is Some,
            forall|k: int| 0 <= k < i ==> category_met(*game, sel, hs, (#[trigger] tag_category(*game, sel[k]))->Some_0, n as int),
        decreases n - i,
    {
        let cat = category_of(game, filters.tag_ids.get(i));
        match cat {
            None => return false,
            Some(c) => {
                let mut found = false;
                let mut j: usize = 0;
                while j < n
                    invariant
                        sel == filters.tag_ids@,
                        n == sel.len(),
                        i < n,
                        j <= n,
                        have@.to_set() == hs,
                        found == category_met(*game, sel, hs, c, j as int),
                    decreases n - j,
                {
                    let other = filters.tag_ids.get(j);
                    let oc = category_of(game, other);
                    let hit = oc == Some(c) && have.contains(other);
                    proof {
                        if category_met(*game, sel, hs, c, j as int + 1) && !hit {
                            let w = choose|w: int| 0 <= w < j + 1 && tag_category(*game, #[trigger] sel[w]) == Some(c) && hs.contains(sel[w]);
                            assert(w < j);
                        }
                        if hit {
                            assert(have@.contains(sel[j as int]));
                            assert(hs.contains(sel[j as int]));
                        }
                    }
                    if hit {
                        found = true;
                    }
                    j = j + 1;
                }
                if !found {
                    return false;
                }
            },
        }
        i = i + 1;
    }
    true
}

/// The lower-case form of `s`, as `str::to_lowercase` gives it.
pub uninterp spec fn lowercased(s: Seq<char>) -> Seq<char>;

/// Lower-cases `s` with `str::to_lowercase`. The contract claims only that
/// the result is a function of `s`, named `lowercased`.
#[verifier::external_body]
fn to_lowercase(s: &str) -> (r: String)
    ensures
        r@ == lowercased(s@),
{
    s.to_lowercase()
}

/// The faction name used for search: the faction's name, or `未知`.
pub open spec fn search_faction_name(game: GameState, o: Officer) -> Seq<char> {
    match faction_index(game.factions@, o.faction_id@) {
        Some(i) => game.factions@[i].name@,
        None => "未知"@,
    }
}

/// The city name used for search: the city's name, or `未配置`.
pub open spec fn search_city_name(game: GameState, o: Officer) -> Seq<char> {
    match o.city_id {
        Some(c) => match city_index(game.cities@, c@) {
            Some(i) => game.cities@[i].name@,
            None => "未配置"@,
        },
        None => "未配置"@,
    }
}

/// The text that free-text search looks in, before lower-casing: name,
/// identifier, faction and city; courtesy name, native place and tags (with
/// their labels) from the profile; and the office with its rank.
pub open spec fn search_text_parts(game: GameState, o: Officer, tags: Seq<Seq<char>>) -> Seq<char> {
    o.name@ + " "@ + o.id@ + " "@ + search_faction_name(game, o) + " "@ + search_city_name(game, o)
        + match o.profile {
            Some(p) => (match p.courtesy_name {
                Some(c) => " "@ + c@,
                None => Seq::empty(),
            }) + (match p.native_place {
                Some(n) => " "@ + n@,
                None => Seq::empty(),
            }) + tag_search_text(game, tags),
            None => Seq::empty(),
        }
        + match o.office_id {
            Some(id) => match post_index(game.official_posts@, id@) {
                Some(k) => " "@ + game.official_posts@[k].name@ + " "@ + game.official_posts@[k].rank_label@,
                None => Seq::empty(),
            },
            None => Seq::empty(),
        }
}

/// The search text of a list of tags: each tag, followed by its two labels
/// when the catalog defines it.
pub open spec fn tag_search_text(game: GameState, tags: Seq<Seq<char>>) -> Seq<char>
    decreases tags.len(),
{
    if tags.len() == 0 {
        Seq::empty()
    } else {
        let t = tags.last();
        let ds = game.officer_tag_definitions@;
        tag_search_text(game, tags.drop_last()) + " "@ + t + match definition_position(ds, t) {
            Some(k) => " "@ + ds[k].label_zh@ + " "@ + ds[k].label_en@,
            None => Seq::empty(),
        }
    }
}

fn definition_index(game: &GameState, id: &str) -> (r: Option<usize>)
    ensures
        match r {
            Some(k) => definition_position(game.officer_tag_definitions@, id@) == Some(k as int)
                && k < game.officer_tag_definitions@.len(),
            None => definition_position(game.officer_tag_definitions@, id@) is None,
        },
{
    let ghost ds = game.officer_tag_definitions@;
    proof {
        lemma_definition_position(ds, id@);
    }
    let mut k: usize = 0;
    while k < game.officer_tag_definitions.len()
        invariant
            ds == game.officer_tag_definitions@,
            k <= ds.len(),
            forall|j: int| 0 <= j < k ==> (#[trigger] ds[j]).id@ != id@,
            match definition_position(ds, id@) {
                Some(i) => 0 <= i < ds.len() && ds[i].id@ == id@ && forall|m: int| 0 <= m < i ==> ds[m].id@ != id@,
                None => forall|m: int| 0 <= m < ds.len() ==> ds[m].id@ != id@,
            },
        decreases ds.len() - k,
    {
        if str_eq(game.officer_tag_definitions[k].id.as_str(), id) {
            return Some(k);
        }
        k = k + 1;
    }
    None
}

fn search_head(officer: &Officer, game: &GameState) -> (s: String)
    ensures
        s@ == officer.name@ + " "@ + officer.id@ + " "@ + search_faction_name(*game, *officer) + " "@ + search_city_name(
            *game,
            *officer,
        ),
{
    let mut text = owned(officer.name.as_str());
    push_str(&mut text, " ");
    push_str(&mut text, officer.id.as_str());
    push_str(&mut text, " ");
    match game.find_faction(officer.faction_id.as_str()) {
        Some(i) => push_str(&mut text, game.factions[i].name.as_str()),
        None => push_str(&mut text, "未知"),
    }
    push_str(&mut text, " ");
    match &officer.city_id {
        Some(c) => match game.find_city(c.as_str()) {
            Some(i) => push_str(&mut text, game.cities[i].name.as_str()),
            None => push_str(&mut text, "未配置"),
        },
        None => push_str(&mut text, "未配置"),
    }
    text
}

fn push_tag_search_text(text: &mut String, tags: &TagSet, game: &GameState)
    ensures
        final(text)@ == old(text)@ + tag_search_text(*game, tags@),
{
    let ghost base = text@;
    let mut i: usize = 0;
    while i < tags.len()
        invariant
            i <= tags@.len(),
            text@ == base + tag_search_text(*game, tags@.take(i as int)),
        decreases tags@.len() - i,
    {
        let ghost pre = tags@.take(i as int);
        assert(tags@.take(i as int + 1).drop_last() =~= pre);
        assert(tags@.take(i as int + 1).last() == tags@[i as int]);
        let tag = tags.get(i);
        let ghost t = tag@;
        let ghost before = text@;
        let ghost ds = game.officer_tag_definitions@;
        push_str(text, " ");
        push_str(text, tag);
        let ghost mid = text@;
        assert(mid =~= before + " "@ + t);
        match definition_index(game, tag) {
            Some(k) => {
                push_str(text, " ");
                push_str(text, game.officer_tag_definitions[k].label_zh.as_str());
                push_str(text, " ");
                push_str(text, game.officer_tag_definitions[k].label_en.as_str());
                assert(text@ =~= mid + (" "@ + ds[k as int].label_zh@ + " "@ + ds[k as int].label_en@));
            },
            None => {
                assert(text@ =~= mid + Seq::<char>::empty());
            },
        }
        assert(text@ =~= base + tag_search_text(*game, tags@.take(i as int + 1)));
        i = i + 1;
    }
    assert(tags@.take(tags@.len() as int) =~= tags@);
}

fn push_profile_search_text(text: &mut String, officer: &Officer, tags: &TagSet, game: &GameState)
    ensures
        final(text)@ == old(text)@ + match officer.profile {
            Some(p) => (match p.courtesy_name {
                Some(c) => " "@ + c@,
                None => Seq::empty(),
            }) + (match p.native_place {
                Some(n) => " "@ + n@,
                None => Seq::empty(),
            }) + tag_search_text(*game, tags@),
            None => Seq::empty(),
        },
{
    let ghost start = text@;
    match &officer.profile {
        Some(profile) => {
            match &profile.courtesy_name {
                Some(c) => {
                    push_str(text, " ");
                    push_str(text, c.as_str());
                },
                None => {},
            }
            let ghost a = text@;
            match &profile.native_place {
                Some(n) => {
                    push_str(text, " ");
                    push_str(text, n.as_str());
                },
                None => {},
            }
            let ghost b = text@;
            push_tag_search_text(text, tags, game);
            assert(text@ =~= start + ((match profile.courtesy_name {
                Some(c) => " "@ + c@,
                None => Seq::empty(),
            }) + (match profile.native_place {
                Some(n) => " "@ + n@,
                None => Seq::empty(),
            }) + tag_search_text(*game, tags@)));
        },
        None => {
            assert(text@ =~= start + Seq::<char>::empty());
        },
    }
}

fn push_office_search_text(text: &mut String, officer: &Officer, game: &GameState)
    ensures
        final(text)@ == old(text)@ + match officer.office_id {
            Some(id) => match post_index(game.official_posts@, id@) {
                Some(k) => " "@ + game.official_posts@[k].name@ + " "@ + game.official_posts@[k].rank_label@,
                None => Seq::empty(),
            },
            None => Seq::empty(),
        },
{
    let ghost start = text@;
    match &officer.office_id {
        Some(o) => match game.find_post(o.as_str()) {
            Some(k) => {
                push_str(text, " ");
                push_str(text, game.official_posts[k].name.as_str());
                push_str(text, " ");
                push_str(text, game.official_posts[k].rank_label.as_str());
                assert(text@ =~= start + (" "@ + game.official_posts@[k as int].name@ + " "@
                    + game.official_posts@[k as int].rank_label@));
            },
            None => {
                assert(text@ =~= start + Seq::<char>::empty());
            },
        },
        None => {
            assert(text@ =~= start + Seq::<char>::empty());
        },
    }
}

/// The lower-cased text that free-text search looks in for `officer`.
pub fn officer_search_text(officer: &Officer, game: &GameState) -> (s: String)
    ensures
        s@ == lowercased(search_text_parts(*game, *officer, ascending_list(officer_tag_set(*game, *officer)))),
{
    let mut text = search_head(officer, game);
    let tags = normalized_officer_tag_ids(officer, game);
    push_profile_search_text(&mut text, officer, &tags, game);
    push_office_search_text(&mut text, officer, game);
    assert(text@ =~= search_text_parts(*game, *officer, tags@));
    to_lowercase(text.as_str())
}

/// The lower-cased text that free-text search looks in for officer `o`.
pub open spec fn search_text(game: GameState, o: Officer) -> Seq<char> {
    lowercased(search_text_parts(game, o, ascending_list(officer_tag_set(game, o))))
}

/// Whether `officer` passes every filter; `search` is the lower-cased,
/// trimmed search text.
pub open spec fn passes_filters(game: GameState, o: Officer, f: OfficerBrowserFilters, search: Seq<char>) -> bool {
    &&& gender_passes(o.gender, f.gender)
    &&& (match f.faction_id {
        Some(id) => o.faction_id@ == id@,
        None => true,
    })
    &&& status_passes(o.status, f.status)
    &&& (match f.city_id {
        Some(id) => o.city_id matches Some(c) && c@ == id@,
        None => true,
    })
    &&& tags_pass(game, f.tag_ids@, officer_tag_set(game, o))
    &&& (search.len() == 0 || contains_seq(search_text(game, o), search))
}

/// Whether `officer` passes the filters, `search` being the lower-cased,
/// trimmed search text.
pub fn officer_matches_filters(officer: &Officer, game: &GameState, filters: &OfficerBrowserFilters, search: &str) -> (b: bool)
    ensures
        b == passes_filters(*game, *officer, *filters, search@),
{
    if !officer_gender_matches(&officer.gender, filters.gender) {
        return false;
    }
    match &filters.faction_id {
        Some(id) => {
            if !str_eq(officer.faction_id.as_str(), id.as_str()) {
                return false;
            }
        },
        None => {},
    }
    if !officer_status_matches(&officer.status, filters.status) {
        return false;
    }
    match &filters.city_id {
        Some(id) => {
            let same = match &officer.city_id {
                Some(c) => str_eq(c.as_str(), id.as_str()),
                None => false,
            };
            if !same {
                return false;
            }
        },
        None => {},
    }
    if !officer_tags_match_filters(officer, game, filters) {
        return false;
    }
    let text = officer_search_text(officer, game);
    let hay = chars_of(text.as_str());
    let needle = chars_of(search);
    let found = needle.len() == 0 || chars_contain(&hay, &needle);
    found
}

/// The names the table shows where the game has none: for an unknown
/// faction, an officer without a city, and an officer without an office.
#[derive(Clone, Debug)]
pub struct OfficerRowLabels {
    pub unknown_faction: String,
    pub unassigned_city: String,
    pub no_office: String,
}

/// One line of the officer table.
#[derive(Clone, Debug)]
pub struct OfficerBrowserRow {
    pub id: String,
    pub name: String,
    pub faction_id: String,
    pub faction_name: String,
    pub city_name: String,
    pub office_name: String,
    pub gender: OfficerGender,
    pub status: OfficerStatus,
    pub loyalty: u8,
    pub stats: OfficerStats,
}

/// `r` is the table line of officer `o`.
pub open spec fn row_of(r: OfficerBrowserRow, game: GameState, o: Officer, labels: OfficerRowLabels) -> bool {
    &&& r.id@ == o.id@
    &&& r.name@ == o.name@
    &&& r.faction_id@ == o.faction_id@
    &&& r.faction_name@ == match faction_index(game.factions@, o.faction_id@) {
        Some(i) => game.factions@[i].name@,
        None => labels.unknown_faction@,
    }
    &&& r.city_name@ == match o.city_id {
        Some(c) => match city_index(game.cities@, c@) {
            Some(i) => game.cities@[i].name@,
            None => labels.unassigned_city@,
        },
        None => labels.unassigned_city@,
    }
    &&& r.office_name@ == match o.office_id {
        Some(id) => match post_index(game.official_posts@, id@) {
            Some(k) => game.official_posts@[k].name@,
            None => labels.no_office@,
        },
        None => labels.no_office@,
    }
    &&& r.gender == o.gender
    &&& r.status == o.status
    &&& r.loyalty == o.loyalty
    &&& r.stats == o.stats
}

/// The sort key of a line: faction, city, name, identifier.
pub open spec fn row_key(r: OfficerBrowserRow) -> Seq<Seq<char>> {
    seq![r.faction_name@, r.city_name@, r.name@, r.id@]
}

fn officer_row(game: &GameState, officer: &Officer, labels: &OfficerRowLabels) -> (r: OfficerBrowserRow)
    ensures
        row_of(r, *game, *officer, *labels),
{
    let faction_name = match game.find_faction(officer.faction_id.as_str()) {
        Some(i) => owned(game.factions[i].name.as_str()),
        None => owned(labels.unknown_faction.as_str()),
    };
    let city_name = match &officer.city_id {
        Some(c) => match game.find_city(c.as_str()) {
            Some(i) => owned(game.cities[i].name.as_str()),
            None => owned(labels.unassigned_city.as_str()),
        },
        None => owned(labels.unassigned_city.as_str()),
    };
    let office_name = match &officer.office_id {
        Some(o) => match game.find_post(o.as_str()) {
            Some(k) => owned(game.official_posts[k].name.as_str()),
            None => owned(labels.no_office.as_str()),
        },
        None => owned(labels.no_office.as_str()),
    };
    OfficerBrowserRow {
        id: owned(officer.id.as_str()),
        name: owned(officer.name.as_str()),
        faction_id: owned(officer.faction_id.as_str()),
        faction_name,
        city_name,
        office_name,
        gender: officer.gender,
        status: officer.status,
        loyalty: officer.loyalty,
        stats: officer.stats,
    }
}

fn row_key_less(a: &OfficerBrowserRow, b: &OfficerBrowserRow) -> (r: bool)
    ensures
        r == crate::text::keys_less(row_key(*a), row_key(*b)),
{
    let ghost ka = row_key(*a);
    let ghost kb = row_key(*b);
    proof {
        reveal_with_fuel(crate::text::keys_less, 5);
    }
    assert(ka.drop_first() =~= seq![a.city_name@, a.name@, a.id@]);
    assert(kb.drop_first() =~= seq![b.city_name@, b.name@, b.id@]);
    assert(ka.drop_first().drop_first() =~= seq![a.name@, a.id@]);
    assert(kb.drop_first().drop_first() =~= seq![b.name@, b.id@]);
    assert(ka.drop_first().drop_first().drop_first() =~= seq![a.id@]);
    assert(kb.drop_first().drop_first().drop_first() =~= seq![b.id@]);
    assert(ka.drop_first().drop_first().drop_first().drop_first() =~= Seq::<Seq<char>>::empty());
    if str_less(a.faction_name.as_str(), b.faction_name.as_str()) {
        return true;
    }
    if !str_eq(a.faction_name.as_str(), b.faction_name.as_str()) {
        return false;
    }
    if str_less(a.city_name.as_str(), b.city_name.as_str()) {
        return true;
    }
    if !str_eq(a.city_name.as_str(), b.city_name.as_str()) {
        return false;
    }
    if str_less(a.name.as_str(), b.name.as_str()) {
        return true;
    }
    if !str_eq(a.name.as_str(), b.name.as_str()) {
        return false;
    }
    str_less(a.id.as_str(), b.id.as_str())
}

/// Lines `a` may come before line `b`.
pub open spec fn rows_in_order() -> spec_fn(OfficerBrowserRow, OfficerBrowserRow) -> bool {
    table_in_order::<OfficerBrowserRow>()
}

/// Officer browser lines tie when they agree in faction, city, name and identifier.
impl TableRow for OfficerBrowserRow {
    open spec fn goes_before(a: Self, b: Self) -> bool {
        crate::text::keys_less(row_key(a), row_key(b))
    }

    open spec fn ties_with(a: Self, b: Self) -> bool {
        row_key(a) == row_key(b)
    }

    fn goes_before_exec(a: &Self, b: &Self) -> (r: bool) {
        row_key_less(a, b)
    }

    proof fn lemma_table_order(a: Self, b: Self, c: Self) {
        crate::text::lemma_keys_less(row_key(a), row_key(b), row_key(c));
    }
}

/// The officers that pass `filters`, in table order; `search` is the
/// filters' search text trimmed and lower-cased.
pub open spec fn passing_officers(game: GameState, f: OfficerBrowserFilters, search: Seq<char>) -> Seq<Officer> {
    game.officers@.filter(|o: Officer| passes_filters(game, o, f, search))
}

/// The table of the officers that pass the filters, sorted by faction, city,
/// name and identifier; lines equal in all four keep the table's order.
pub fn filtered_officer_rows(filters: &OfficerBrowserFilters, game: &GameState, labels: &OfficerRowLabels) -> (rows: Vec<OfficerBrowserRow>)
    ensures
        exists|u: Seq<OfficerBrowserRow>| {
            let os = passing_officers(*game, *filters, lowercased(crate::text::trimmed(filters.search@)));
            &&& u.len() == os.len()
            &&& (forall|i: int| 0 <= i < os.len() ==> row_of(#[trigger] u[i], *game, os[i], *labels))
            &&& #[trigger] u.to_multiset() == rows@.to_multiset()
            &&& ties_keep_order(rows@, u)
        },
        sorted_by(rows@, rows_in_order()),
{
    let trimmed_search = crate::text::trim(filters.search.as_str());
    let search = to_lowercase(trimmed_search.as_str());
    let ghost os = game.officers@;
    let ghost pass = |o: Officer| passes_filters(*game, o, *filters, search@);
    let mut rows: Vec<OfficerBrowserRow> = Vec::new();
    let mut i: usize = 0;
    while i < game.officers.len()
        invariant
            os == game.officers@,
            pass == (|o: Officer| passes_filters(*game, o, *filters, search@)),
            i <= os.len(),
            rows@.len() == os.take(i as int).filter(pass).len(),
            forall|k: int| 0 <= k < rows@.len() ==> row_of(#[trigger] rows@[k], *game, os.take(i as int).filter(pass)[k], *labels),
        decreases os.len() - i,
    {
        let ghost pre = os.take(i as int);
        assert(os.take(i as int + 1).drop_last() =~= pre);
        assert(os.take(i as int + 1).last() == os[i as int]);
        let officer = &game.officers[i];
        let ghost before = rows@;
        let keep = officer_matches_filters(officer, game, filters, search.as_str());
        assert(os.take(i as int + 1).filter(pass) == if pass(os[i as int]) {
            pre.filter(pass).push(os[i as int])
        } else {
            pre.filter(pass)
        }) by {
            reveal(Seq::filter);
        }
        if keep {
            let row = officer_row(game, officer, labels);
            rows.push(row);
            assert forall|k: int| 0 <= k < rows@.len() implies row_of(#[trigger] rows@[k], *game, os.take(i as int + 1).filter(pass)[k], *labels) by {
                if k < before.len() {
                    assert(rows@[k] == before[k]);
                }
            }
        }
        i = i + 1;
    }
    assert(os.take(os.len() as int) =~= os);
    let ghost unsorted = rows@;
    stable_sort(&mut rows);
    rows
}

/// The filters of the retainer list: those given, locked to the active
/// officers of faction `faction_id`.
pub open spec fn retainer_filters_of(f: OfficerBrowserFilters, locked: OfficerBrowserFilters, faction_id: Seq<char>) -> bool {
    &&& locked.search@ == f.search@
    &&& locked.gender == f.gender
    &&& locked.faction_id matches Some(id) && id@ == faction_id
    &&& locked.status == OfficerStatusFilter::Active
    &&& locked.city_id.is_some() == f.city_id.is_some()
    &&& (f.city_id matches Some(c) ==> locked.city_id matches Some(d) && d@ == c@)
    &&& locked.tag_ids@ == f.tag_ids@
}

/// The retainer list: the officer table of the active officers of faction
/// `faction_id` that pass the other filters.
pub fn retainer_officer_rows(
    filters: &OfficerBrowserFilters,
    game: &GameState,
    faction_id: &str,
    labels: &OfficerRowLabels,
) -> (rows: Vec<OfficerBrowserRow>)
    ensures
        exists|locked: OfficerBrowserFilters, u: Seq<OfficerBrowserRow>| #![trigger retainer_filters_of(*filters, locked, faction_id@), u.to_multiset()] {
            let os = passing_officers(*game, locked, lowercased(crate::text::trimmed(locked.search@)));
            &&& retainer_filters_of(*filters, locked, faction_id@)
            &&& u.len() == os.len()
            &&& (forall|i: int| 0 <= i < os.len() ==> row_of(#[trigger] u[i], *game, os[i], *labels))
            &&& u.to_multiset() == rows@.to_multiset()
            &&& ties_keep_order(rows@, u)
        },
        sorted_by(rows@, rows_in_order()),
{
    let locked = OfficerBrowserFilters {
        search: owned(filters.search.as_str()),
        gender: filters.gender,
        faction_id: Some(owned(faction_id)),
        status: OfficerStatusFilter::Active,
        city_id: match &filters.city_id {
            Some(c) => Some(owned(c.as_str())),
            None => None,
        },
        tag_ids: filters.tag_ids.duplicate(),
    };
    assert(retainer_filters_of(*filters, locked, faction_id@));
    let rows = filtered_officer_rows(&locked, game, labels);
    proof {
        let os = passing_officers(*game, locked, lowercased(crate::text::trimmed(locked.search@)));
        let u = choose|u: Seq<OfficerBrowserRow>| u.len() == os.len() && (forall|i: int| 0 <= i < os.len() ==> row_of(
            #[trigger] u[i],
            *game,
            os[i],
            *labels,
        )) && #[trigger] u.to_multiset() == rows@.to_multiset() && ties_keep_order(rows@, u);
        assert(u.to_multiset() == rows@.to_multiset());
    }
    rows
}

/// The label of a tag definition in `language`.
pub open spec fn tag_label(d: crate::game::OfficerTagDefinition, language: UiLanguage) -> Seq<char> {
    match language {
        UiLanguage::English => d.label_en@,
        UiLanguage::SimplifiedChinese => d.label_zh@,
    }
}

/// The label of tag definition `definition` in `language`.
pub fn officer_tag_label(definition: &crate::game::OfficerTagDefinition, language: UiLanguage) -> (s: String)
    ensures
        s@ == tag_label(*definition, language),
{
    match language {
        UiLanguage::English => owned(definition.label_en.as_str()),
        UiLanguage::SimplifiedChinese => owned(definition.label_zh.as_str()),
    }
}

/// The text shown for tag `tag_id`: the label of its first catalog
/// definition, or the identifier itself when the catalog has none.
pub fn officer_tag_display_text(game: &GameState, tag_id: &str, language: UiLanguage) -> (s: String)
    ensures
        s@ == match definition_position(game.officer_tag_definitions@, tag_id@) {
            Some(k) => tag_label(game.officer_tag_definitions@[k], language),
            None => tag_id@,
        },
{
    match definition_index(game, tag_id) {
        Some(k) => officer_tag_label(&game.officer_tag_definitions[k], language),
        None => owned(tag_id),
    }
}

/// What the tag filter button says.
#[derive(Clone, Debug)]
pub enum TagFilterSummary {
    /// No tag is selected.
    AllTags,
    /// The one selected tag, by its display text.
    One(String),
    /// The number of selected tags, when there are several.
    Count(usize),
}

/// The name of the city the filters pick, for the city filter button;
/// `None` when they pick no city or one the game does not know (the button
/// then offers every city).
pub fn selected_city_filter_name(game: &GameState, filters: &OfficerBrowserFilters) -> (name: Option<String>)
    ensures
        match filters.city_id {
            Some(id) => match city_index(game.cities@, id@) {
                Some(k) => name matches Some(n) && n@ == game.cities@[k].name@,
                None => name is None,
            },
            None => name is None,
        },
{
    match &filters.city_id {
        Some(id) => match game.find_city(id.as_str()) {
            Some(k) => Some(owned(game.cities[k].name.as_str())),
            None => None,
        },
        None => None,
    }
}

/// Ticks (`selected`) or unticks tag `tag_id` in the tag filter; the other
/// filters stay as they are.
pub fn set_tag_filter(filters: &mut OfficerBrowserFilters, tag_id: &str, selected: bool)
    ensures
        final(filters).tag_ids@.to_set() == if selected {
            old(filters).tag_ids@.to_set().insert(tag_id@)
        } else {
            old(filters).tag_ids@.to_set().remove(tag_id@)
        },
        final(filters).search == old(filters).search,
        final(filters).gender == old(filters).gender,
        final(filters).faction_id == old(filters).faction_id,
        final(filters).status == old(filters).status,
        final(filters).city_id == old(filters).city_id,
{
    if selected {
        filters.tag_ids.insert(owned(tag_id));
    } else {
        filters.tag_ids.remove(tag_id);
    }
}

/// What the tag filter button says for `filters`.
pub fn selected_tag_filter_text(game: &GameState, filters: &OfficerBrowserFilters, language: UiLanguage) -> (s: TagFilterSummary)
    ensures
        filters.tag_ids@.len() == 0 ==> s is AllTags,
        filters.tag_ids@.len() == 1 ==> (s matches TagFilterSummary::One(t) && t@ == match definition_position(
            game.officer_tag_definitions@,
            filters.tag_ids@[0],
        ) {
            Some(k) => tag_label(game.officer_tag_definitions@[k], language),
            None => filters.tag_ids@[0],
        }),
        filters.tag_ids@.len() > 1 ==> (s matches TagFilterSummary::Count(n) && n == filters.tag_ids@.len()),
{
    let n = filters.tag_ids.len();
    if n == 0 {
        TagFilterSummary::AllTags
    } else if n == 1 {
        TagFilterSummary::One(officer_tag_display_text(game, filters.tag_ids.get(0), language))
    } else {
        TagFilterSummary::Count(n)
    }
}

/// The tag categories in their order.
pub open spec fn all_categories() -> Seq<OfficerTagCategory> {
    seq![
        OfficerTagCategory::Role,
        OfficerTagCategory::Affiliation,
        OfficerTagCategory::Region,
        OfficerTagCategory::Basis,
        OfficerTagCategory::Source,
        OfficerTagCategory::Context,
        OfficerTagCategory::Batch,
    ]
}

/// The positions among the first `n` definitions of `ds` of those in
/// category `c`, in order.
pub open spec fn category_positions(ds: Seq<crate::game::OfficerTagDefinition>, c: OfficerTagCategory, n: int) -> Seq<usize>
    decreases n,
{
    if n <= 0 {
        Seq::empty()
    } else if ds[n - 1].category == c {
        category_positions(ds, c, n - 1).push((n - 1) as usize)
    } else {
        category_positions(ds, c, n - 1)
    }
}

/// The groups of the first `m` categories of `cats` that have definitions in
/// `ds`, each with the positions of its definitions.
pub open spec fn category_groups(ds: Seq<crate::game::OfficerTagDefinition>, cats: Seq<OfficerTagCategory>, m: int) -> Seq<(OfficerTagCategory, Seq<usize>)>
    decreases m,
{
    if m <= 0 {
        Seq::empty()
    } else {
        let c = cats[m - 1];
        let ps = category_positions(ds, c, ds.len() as int);
        if ps.len() > 0 {
            category_groups(ds, cats, m - 1).push((c, ps))
        } else {
            category_groups(ds, cats, m - 1)
        }
    }
}

/// The positions of the definitions of category `c`, in table order.
fn positions_in_category(game: &GameState, c: OfficerTagCategory) -> (v: Vec<usize>)
    ensures
        v@ == category_positions(game.officer_tag_definitions@, c, game.officer_tag_definitions@.len() as int),
{
    let ghost ds = game.officer_tag_definitions@;
    let mut v: Vec<usize> = Vec::new();
    let mut k: usize = 0;
    while k < game.officer_tag_definitions.len()
        invariant
            ds == game.officer_tag_definitions@,
            k <= ds.len(),
            v@ == category_positions(ds, c, k as int),
        decreases ds.len() - k,
    {
        if game.officer_tag_definitions[k].category == c {
            v.push(k);
        }
        k = k + 1;
    }
    v
}

/// The catalog's tag definitions grouped by category, in category order,
/// each group with the positions of its definitions in table order; a
/// category without definitions has no group.
pub fn officer_tag_definitions_by_category(game: &GameState) -> (groups: Vec<(OfficerTagCategory, Vec<usize>)>)
    ensures
        groups@.map_values(|g: (OfficerTagCategory, Vec<usize>)| (g.0, g.1@)) == category_groups(
            game.officer_tag_definitions@,
            all_categories(),
            7,
        ),
{
    let ghost view = |g: (OfficerTagCategory, Vec<usize>)| (g.0, g.1@);
    let cats = vec![
        OfficerTagCategory::Role,
        OfficerTagCategory::Affiliation,
        OfficerTagCategory::Region,
        OfficerTagCategory::Basis,
        OfficerTagCategory::Source,
        OfficerTagCategory::Context,
        OfficerTagCategory::Batch,
    ];
    assert(cats@ =~= all_categories());
    let mut groups: Vec<(OfficerTagCategory, Vec<usize>)> = Vec::new();
    let mut m: usize = 0;
    while m < cats.len()
        invariant
            view == (|g: (OfficerTagCategory, Vec<usize>)| (g.0, g.1@)),
            cats@ == all_categories(),
            m <= 7,
            groups@.map_values(view) == category_groups(game.officer_tag_definitions@, all_categories(), m as int),
        decreases 7 - m,
    {
        let c = cats[m];
        let ps = positions_in_category(game, c);
        let ghost before = groups@;
        if ps.len() > 0 {
            groups.push((c, ps));
            assert(groups@.map_values(view) =~= before.map_values(view).push(view(groups@[before.len() as int])));
        }
        m = m + 1;
    }
    groups
}

/// Who holds a court office within a faction, as the appointment menu of a
/// table line shows it.
#[derive(Clone, Debug, PartialEq, Eq)]
pub enum PostOccupancy {
    /// The officer of the line holds it.
    Current,
    /// Another officer of the faction holds it, by name.
    OccupiedBy(String),
    /// No officer of the faction holds it.
    Empty,
}

/// The first officer, in table order, of faction `fid` that holds office `post`.
pub open spec fn first_holder(os: Seq<Officer>, fid: Seq<char>, post: Seq<char>) -> Option<int>
    decreases os.len(),
{
    if os.len() == 0 {
        None
    } else {
        match first_holder(os.drop_last(), fid, post) {
            Some(k) => Some(k),
            None => if os.last().faction_id@ == fid && (os.last().office_id matches Some(o) && o@ == post) {
                Some(os.len() - 1)
            } else {
                None
            },
        }
    }
}

/// `o` tells who holds office `post` of faction `fid`, seen from the line of
/// officer `oid`.
pub open spec fn occupancy_of(o: PostOccupancy, os: Seq<Officer>, fid: Seq<char>, oid: Seq<char>, post: Seq<char>) -> bool {
    match first_holder(os, fid, post) {
        Some(k) => if os[k].id@ == oid {
            o is Current
        } else {
            o matches PostOccupancy::OccupiedBy(n) && n@ == os[k].name@
        },
        None => o is Empty,
    }
}

fn post_holder(game: &GameState, faction_id: &str, post: &str) -> (r: Option<usize>)
    ensures
        match r {
            Some(k) => first_holder(game.officers@, faction_id@, post@) == Some(k as int) && k < game.officers@.len(),
            None => first_holder(game.officers@, faction_id@, post@) is None,
        },
{
    let ghost os = game.officers@;
    let mut i: usize = 0;
    while i < game.officers.len()
        invariant
            os == game.officers@,
            i <= os.len(),
            first_holder(os.take(i as int), faction_id@, post@) is None,
        decreases os.len() - i,
    {
        let o = &game.officers[i];
        assert(os.take(i as int + 1).drop_last() =~= os.take(i as int));
        let holds = str_eq(o.faction_id.as_str(), faction_id) && match &o.office_id {
            Some(x) => str_eq(x.as_str(), post),
            None => false,
        };
        if holds {
            proof {
                lemma_first_holder_prefix(os, faction_id@, post@, i as int + 1);
            }
            return Some(i);
        }
        i = i + 1;
    }
    assert(os.take(os.len() as int) =~= os);
    None
}

proof fn lemma_first_holder_prefix(os: Seq<Officer>, fid: Seq<char>, post: Seq<char>, n: int)
    requires
        0 < n <= os.len(),
        first_holder(os.take(n), fid, post) is Some,
    ensures
        first_holder(os, fid, post) == first_holder(os.take(n), fid, post),
    decreases os.len() - n,
{
    if n < os.len() {
        assert(os.take(n + 1).drop_last() =~= os.take(n));
        lemma_first_holder_prefix(os, fid, post, n + 1);
    } else {
        assert(os.take(n) =~= os);
    }
}

/// For each court office, in catalog order, who holds it in faction
/// `faction_id`, seen from the line of officer `officer_id`.
pub fn post_occupancy(game: &GameState, faction_id: &str, officer_id: &str) -> (v: Vec<PostOccupancy>)
    ensures
        v@.len() == game.official_posts@.len(),
        forall|i: int| 0 <= i < v@.len() ==> occupancy_of(#[trigger] v@[i], game.officers@, faction_id@, officer_id@, game.official_posts@[i].id@),
{
    let mut v: Vec<PostOccupancy> = Vec::new();
    let mut i: usize = 0;
    while i < game.official_posts.len()
        invariant
            i <= game.official_posts@.len(),
            v@.len() == i,
            forall|k: int| 0 <= k < i ==> occupancy_of(#[trigger] v@[k], game.officers@, faction_id@, officer_id@, game.official_posts@[k].id@),
        decreases game.official_posts@.len() - i,
    {
        let o = match post_holder(game, faction_id, game.official_posts[i].id.as_str()) {
            Some(k) => {
                if str_eq(game.officers[k].id.as_str(), officer_id) {
                    PostOccupancy::Current
                } else {
                    PostOccupancy::OccupiedBy(owned(game.officers[k].name.as_str()))
                }
            },
            None => PostOccupancy::Empty,
        };
        v.push(o);
        i = i + 1;
    }
    v
}

/// What was done in the officer table this frame.
#[derive(Clone, Debug, Default)]
pub struct OfficerTableResponse {
    pub selected_officer_id: Option<String>,
    pub view_officer_id: Option<String>,
    pub edit_officer_id: Option<String>,
    pub appoint_officer_id: Option<String>,
    pub appoint_office_id: Option<String>,
    pub dismiss_officer_id: Option<String>,
}

/// A change of office asked for in the retainer table.
#[derive(Clone, Debug, PartialEq, Eq)]
pub enum RetainerOfficeAction {
    Appoint { officer_id: String, office_id: String },
    Dismiss { officer_id: String },
}

/// Takes in the selection and the detail request of the table: a selected
/// line becomes the selection, a viewed one opens the detail window.
pub fn apply_table_selection(response: &OfficerTableResponse, selected: &mut Option<String>, detail: &mut Option<String>)
    ensures
        match response.selected_officer_id {
            Some(id) => *final(selected) matches Some(s) && s@ == id@,
            None => *final(selected) == *old(selected),
        },
        match response.view_officer_id {
            Some(id) => *final(detail) matches Some(s) && s@ == id@,
            None => *final(detail) == *old(detail),
        },
{
    match &response.selected_officer_id {
        Some(id) => {
            *selected = Some(owned(id.as_str()));
        },
        None => {},
    }
    match &response.view_officer_id {
        Some(id) => {
            *detail = Some(owned(id.as_str()));
        },
        None => {},
    }
}

/// The change of office the retainer table asks for: an appointment when
/// both an officer and an office were chosen, else a dismissal.
pub fn retainer_office_action(response: &OfficerTableResponse) -> (a: Option<RetainerOfficeAction>)
    ensures
        (response.appoint_officer_id is Some && response.appoint_office_id is Some) ==> (a matches Some(
            RetainerOfficeAction::Appoint { officer_id, office_id },
        ) && officer_id@ == response.appoint_officer_id->Some_0@ && office_id@ == response.appoint_office_id->Some_0@),
        !(response.appoint_officer_id is Some && response.appoint_office_id is Some) ==> match response.dismiss_officer_id {
            Some(d) => a matches Some(RetainerOfficeAction::Dismiss { officer_id }) && officer_id@ == d@,
            None => a is None,
        },
{
    match (&response.appoint_officer_id, &response.appoint_office_id) {
        (Some(o), Some(p)) => Some(RetainerOfficeAction::Appoint { officer_id: owned(o.as_str()), office_id: owned(p.as_str()) }),
        _ => match &response.dismiss_officer_id {
            Some(d) => Some(RetainerOfficeAction::Dismiss { officer_id: owned(d.as_str()) }),
            None => None,
        },
    }
}

} // verus!
