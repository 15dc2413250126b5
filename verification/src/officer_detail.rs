//! The officer detail window: the life span, the post, and the graph of the
//! officer's ties.

use vstd::prelude::*;
use crate::game::{GameState, Officer, OfficerRelationshipKind, city_index, post_index};
use crate::shrine::{display_name, officer_display_name};
use crate::text::{chars_of, owned, push_str, str_eq, string_from_range};

verus! {

/// The kinds of tie drawn in an officer's relationship graph.
#[derive(Clone, Copy, Debug, PartialEq, Eq, Structural)]
pub enum RelationshipGraphKind {
    Ruler,
    Heir,
    Governor,
    Parent,
    Child,
    Spouse,
    SwornSibling,
    Enemy,
    RulerSubject,
    Other,
}

/// The label of a graph node: a name of at most four characters is kept,
/// a longer one is cut to its first four.
pub fn compact_node_label(name: &str) -> (label: String)
    ensures
        label@ == if name@.len() <= 4 { name@ } else { name@.take(4) },
{
    let chars = chars_of(name);
    if chars.len() <= 4 {
        owned(name)
    } else {
        string_from_range(&chars, 0, 4)
    }
}

/// The graph kind of a tie recorded in a historical profile.
pub open spec fn static_kind(kind: OfficerRelationshipKind) -> RelationshipGraphKind {
    match kind {
        OfficerRelationshipKind::RulerSubject => RelationshipGraphKind::RulerSubject,
        OfficerRelationshipKind::ParentChild | OfficerRelationshipKind::AdoptiveParentChild => RelationshipGraphKind::Parent,
        OfficerRelationshipKind::Spouse => RelationshipGraphKind::Spouse,
        OfficerRelationshipKind::Sibling => RelationshipGraphKind::Other,
        OfficerRelationshipKind::SwornSibling => RelationshipGraphKind::SwornSibling,
        OfficerRelationshipKind::Enemy => RelationshipGraphKind::Enemy,
    }
}

/// The graph kind of a tie recorded in a historical profile.
pub fn graph_kind_for_static_relationship(kind: OfficerRelationshipKind) -> (k: RelationshipGraphKind)
    ensures
        k == static_kind(kind),
{
    match kind {
        OfficerRelationshipKind::RulerSubject => RelationshipGraphKind::RulerSubject,
        OfficerRelationshipKind::ParentChild | OfficerRelationshipKind::AdoptiveParentChild => RelationshipGraphKind::Parent,
        OfficerRelationshipKind::Spouse => RelationshipGraphKind::Spouse,
        OfficerRelationshipKind::Sibling => RelationshipGraphKind::Other,
        OfficerRelationshipKind::SwornSibling => RelationshipGraphKind::SwornSibling,
        OfficerRelationshipKind::Enemy => RelationshipGraphKind::Enemy,
    }
}

/// An edge of an officer's relationship graph.
#[derive(Clone, Debug)]
pub struct OfficerRelationshipGraphEdge {
    /// The officer at the other end, or a key naming the faction or city.
    pub target_id: String,
    pub target_name: String,
    pub kind: RelationshipGraphKind,
}

/// An edge as identifier, name and kind.
pub type EdgeView = (Seq<char>, Seq<char>, RelationshipGraphKind);

/// The view of an edge.
pub open spec fn edge_view(e: OfficerRelationshipGraphEdge) -> EdgeView {
    (e.target_id@, e.target_name@, e.kind)
}

/// The edges of the ruler and heir roles of officer `oid` in factions `fs`.
pub open spec fn faction_role_views(fs: Seq<crate::game::Faction>, oid: Seq<char>) -> Seq<EdgeView>
    decreases fs.len(),
{
    if fs.len() == 0 {
        Seq::empty()
    } else {
        let f = fs.last();
        let ruler: Seq<EdgeView> = if f.ruler_id@ == oid {
            seq![("faction:ruler:"@ + f.id@, f.name@, RelationshipGraphKind::Ruler)]
        } else {
            Seq::empty()
        };
        let heir: Seq<EdgeView> = if f.heir_id matches Some(h) && h@ == oid {
            seq![("faction:heir:"@ + f.id@, f.name@, RelationshipGraphKind::Heir)]
        } else {
            Seq::empty()
        };
        faction_role_views(fs.drop_last(), oid) + ruler + heir
    }
}

/// The edges of the cities of `cs` that officer `oid` governs.
pub open spec fn governor_views(cs: Seq<crate::game::City>, oid: Seq<char>) -> Seq<EdgeView>
    decreases cs.len(),
{
    if cs.len() == 0 {
        Seq::empty()
    } else {
        let c = cs.last();
        let e: Seq<EdgeView> = if c.governor_id matches Some(g) && g@ == oid {
            seq![("city:governor:"@ + c.id@, c.name@, RelationshipGraphKind::Governor)]
        } else {
            Seq::empty()
        };
        governor_views(cs.drop_last(), oid) + e
    }
}

fn keyed_edge(prefix: &str, id: &str, name: &str, kind: RelationshipGraphKind) -> (e: OfficerRelationshipGraphEdge)
    ensures
        edge_view(e) == (prefix@ + id@, name@, kind),
{
    let mut key = owned(prefix);
    push_str(&mut key, id);
    OfficerRelationshipGraphEdge { target_id: key, target_name: owned(name), kind }
}

/// The edges of the roles `officer` holds: ruler or heir of a faction, in
/// faction order, then governor of a city, in city order.
pub fn dynamic_role_edges(game: &GameState, officer: &Officer) -> (edges: Vec<OfficerRelationshipGraphEdge>)
    ensures
        edges@.map_values(|e: OfficerRelationshipGraphEdge| edge_view(e)) == faction_role_views(game.factions@, officer.id@)
            + governor_views(game.cities@, officer.id@),
{
    let ghost oid = officer.id@;
    let mut edges: Vec<OfficerRelationshipGraphEdge> = Vec::new();
    let mut i: usize = 0;
    while i < game.factions.len()
        invariant
            oid == officer.id@,
            i <= game.factions@.len(),
            edges@.map_values(|e: OfficerRelationshipGraphEdge| edge_view(e)) == faction_role_views(game.factions@.take(i as int), oid),
        decreases game.factions@.len() - i,
    {
        let ghost before = edges@;
        assert(game.factions@.take(i as int + 1).drop_last() =~= game.factions@.take(i as int));
        assert(game.factions@.take(i as int + 1).last() == game.factions@[i as int]);
        let f = &game.factions[i];
        if str_eq(f.ruler_id.as_str(), officer.id.as_str()) {
            edges.push(keyed_edge("faction:ruler:", f.id.as_str(), f.name.as_str(), RelationshipGraphKind::Ruler));
        }
        let ghost mid = edges@;
        let heir = match &f.heir_id {
            Some(h) => str_eq(h.as_str(), officer.id.as_str()),
            None => false,
        };
        if heir {
            edges.push(keyed_edge("faction:heir:", f.id.as_str(), f.name.as_str(), RelationshipGraphKind::Heir));
        }
        proof {
            let v = |e: OfficerRelationshipGraphEdge| edge_view(e);
            let ff = game.factions@[i as int];
            assert(mid.map_values(v) =~= before.map_values(v) + if ff.ruler_id@ == oid {
                seq![("faction:ruler:"@ + ff.id@, ff.name@, RelationshipGraphKind::Ruler)]
            } else {
                Seq::<EdgeView>::empty()
            });
            assert(edges@.map_values(v) =~= mid.map_values(v) + if ff.heir_id matches Some(h) && h@ == oid {
                seq![("faction:heir:"@ + ff.id@, ff.name@, RelationshipGraphKind::Heir)]
            } else {
                Seq::<EdgeView>::empty()
            });
        }
        i = i + 1;
    }
    assert(game.factions@.take(game.factions@.len() as int) =~= game.factions@);
    let ghost roles = edges@;
    let mut j: usize = 0;
    while j < game.cities.len()
        invariant
            oid == officer.id@,
            j <= game.cities@.len(),
            roles.map_values(|e: OfficerRelationshipGraphEdge| edge_view(e)) == faction_role_views(game.factions@, oid),
            edges@.map_values(|e: OfficerRelationshipGraphEdge| edge_view(e)) == roles.map_values(
                |e: OfficerRelationshipGraphEdge| edge_view(e),
            ) + governor_views(game.cities@.take(j as int), oid),
        decreases game.cities@.len() - j,
    {
        let ghost before = edges@;
        assert(game.cities@.take(j as int + 1).drop_last() =~= game.cities@.take(j as int));
        assert(game.cities@.take(j as int + 1).last() == game.cities@[j as int]);
        let c = &game.cities[j];
        let governs = match &c.governor_id {
            Some(g) => str_eq(g.as_str(), officer.id.as_str()),
            None => false,
        };
        if governs {
            edges.push(keyed_edge("city:governor:", c.id.as_str(), c.name.as_str(), RelationshipGraphKind::Governor));
        }
        proof {
            let v = |e: OfficerRelationshipGraphEdge| edge_view(e);
            let cc = game.cities@[j as int];
            let e: Seq<EdgeView> = if cc.governor_id matches Some(g) && g@ == oid {
                seq![("city:governor:"@ + cc.id@, cc.name@, RelationshipGraphKind::Governor)]
            } else {
                Seq::empty()
            };
            assert(edges@.map_values(v) =~= before.map_values(v) + e);
            assert(governor_views(game.cities@.take(j as int + 1), oid) == governor_views(game.cities@.take(j as int), oid) + e);
            assert(roles.map_values(v) + governor_views(game.cities@.take(j as int + 1), oid) =~= roles.map_values(v)
                + governor_views(game.cities@.take(j as int), oid) + e);
        }
        j = j + 1;
    }
    assert(game.cities@.take(game.cities@.len() as int) =~= game.cities@);
    edges
}

/// The spouse edges of officer `oid` from the marriages `ms`, in order.
pub open spec fn marriage_views(game: GameState, ms: Seq<crate::game::Marriage>, oid: Seq<char>) -> Seq<EdgeView>
    decreases ms.len(),
{
    if ms.len() == 0 {
        Seq::empty()
    } else {
        let m = ms.last();
        let spouse = if m.husband_id@ == oid { m.wife_id@ } else { m.husband_id@ };
        let e: Seq<EdgeView> = if m.husband_id@ == oid || m.wife_id@ == oid {
            seq![(spouse, display_name(game, spouse), RelationshipGraphKind::Spouse)]
        } else {
            Seq::empty()
        };
        marriage_views(game, ms.drop_last(), oid) + e
    }
}

/// The edges of the marriages made during play that involve `officer`: one
/// per marriage, to the spouse.
pub fn dynamic_marriage_edges(game: &GameState, officer: &Officer) -> (edges: Vec<OfficerRelationshipGraphEdge>)
    ensures
        edges@.map_values(|e: OfficerRelationshipGraphEdge| edge_view(e)) == marriage_views(*game, game.marriages@, officer.id@),
{
    let ghost oid = officer.id@;
    let ghost ms = game.marriages@;
    let mut edges: Vec<OfficerRelationshipGraphEdge> = Vec::new();
    let mut i: usize = 0;
    while i < game.marriages.len()
        invariant
            oid == officer.id@,
            ms == game.marriages@,
            i <= ms.len(),
            edges@.map_values(|e: OfficerRelationshipGraphEdge| edge_view(e)) == marriage_views(*game, ms.take(i as int), oid),
        decreases ms.len() - i,
    {
        let ghost before = edges@;
        assert(ms.take(i as int + 1).drop_last() =~= ms.take(i as int));
        assert(ms.take(i as int + 1).last() == ms[i as int]);
        let m = &game.marriages[i];
        let is_husband = str_eq(m.husband_id.as_str(), officer.id.as_str());
        let is_wife = str_eq(m.wife_id.as_str(), officer.id.as_str());
        if is_husband || is_wife {
            let spouse_id = if is_husband { m.wife_id.as_str() } else { m.husband_id.as_str() };
            let name = officer_display_name(game, spouse_id);
            edges.push(OfficerRelationshipGraphEdge {
                target_id: owned(spouse_id),
                target_name: name,
                kind: RelationshipGraphKind::Spouse,
            });
        }
        proof {
            let v = |e: OfficerRelationshipGraphEdge| edge_view(e);
            let mm = ms[i as int];
            let spouse = if mm.husband_id@ == oid { mm.wife_id@ } else { mm.husband_id@ };
            let e: Seq<EdgeView> = if mm.husband_id@ == oid || mm.wife_id@ == oid {
                seq![(spouse, display_name(*game, spouse), RelationshipGraphKind::Spouse)]
            } else {
                Seq::empty()
            };
            assert(edges@.map_values(v) =~= before.map_values(v) + e);
        }
        i = i + 1;
    }
    assert(ms.take(ms.len() as int) =~= ms);
    edges
}

/// The parent and child edges of officer `oid` from the family ties `rs`,
/// in order.
pub open spec fn family_views(game: GameState, rs: Seq<crate::game::FamilyRelationship>, oid: Seq<char>) -> Seq<EdgeView>
    decreases rs.len(),
{
    if rs.len() == 0 {
        Seq::empty()
    } else {
        let r = rs.last();
        let parent: Seq<EdgeView> = if r.child_id@ == oid {
            seq![(r.parent_id@, display_name(game, r.parent_id@), RelationshipGraphKind::Parent)]
        } else {
            Seq::empty()
        };
        let child: Seq<EdgeView> = if r.parent_id@ == oid {
            seq![(r.child_id@, display_name(game, r.child_id@), RelationshipGraphKind::Child)]
        } else {
            Seq::empty()
        };
        family_views(game, rs.drop_last(), oid) + parent + child
    }
}

/// The edges of the family ties made during play that involve `officer`: to
/// the parent where it is the child, to the child where it is the parent.
pub fn dynamic_family_edges(game: &GameState, officer: &Officer) -> (edges: Vec<OfficerRelationshipGraphEdge>)
    ensures
        edges@.map_values(|e: OfficerRelationshipGraphEdge| edge_view(e)) == family_views(*game, game.family_relationships@, officer.id@),
{
    let ghost oid = officer.id@;
    let ghost rs = game.family_relationships@;
    let mut edges: Vec<OfficerRelationshipGraphEdge> = Vec::new();
    let mut i: usize = 0;
    while i < game.family_relationships.len()
        invariant
            oid == officer.id@,
            rs == game.family_relationships@,
            i <= rs.len(),
            edges@.map_values(|e: OfficerRelationshipGraphEdge| edge_view(e)) == family_views(*game, rs.take(i as int), oid),
        decreases rs.len() - i,
    {
        let ghost before = edges@;
        assert(rs.take(i as int + 1).drop_last() =~= rs.take(i as int));
        assert(rs.take(i as int + 1).last() == rs[i as int]);
        let r = &game.family_relationships[i];
        if str_eq(r.child_id.as_str(), officer.id.as_str()) {
            let name = officer_display_name(game, r.parent_id.as_str());
            edges.push(OfficerRelationshipGraphEdge {
                target_id: owned(r.parent_id.as_str()),
                target_name: name,
                kind: RelationshipGraphKind::Parent,
            });
        }
        let ghost mid = edges@;
        if str_eq(r.parent_id.as_str(), officer.id.as_str()) {
            let name = officer_display_name(game, r.child_id.as_str());
            edges.push(OfficerRelationshipGraphEdge {
                target_id: owned(r.child_id.as_str()),
                target_name: name,
                kind: RelationshipGraphKind::Child,
            });
        }
        proof {
            let v = |e: OfficerRelationshipGraphEdge| edge_view(e);
            let rr = rs[i as int];
            let parent: Seq<EdgeView> = if rr.child_id@ == oid {
                seq![(rr.parent_id@, display_name(*game, rr.parent_id@), RelationshipGraphKind::Parent)]
            } else {
                Seq::empty()
            };
            let child: Seq<EdgeView> = if rr.parent_id@ == oid {
                seq![(rr.child_id@, display_name(*game, rr.child_id@), RelationshipGraphKind::Child)]
            } else {
                Seq::empty()
            };
            assert(mid.map_values(v) =~= before.map_values(v) + parent);
            assert(edges@.map_values(v) =~= mid.map_values(v) + child);
            assert(before.map_values(v) + parent + child =~= family_views(*game, rs.take(i as int), oid) + parent + child);
        }
        i = i + 1;
    }
    assert(rs.take(rs.len() as int) =~= rs);
    edges
}

/// The edges of the ties recorded in a historical profile, in order.
pub open spec fn static_views(rs: Seq<crate::game::OfficerRelationship>) -> Seq<EdgeView> {
    rs.map_values(|r: crate::game::OfficerRelationship| (r.target_id@, r.target_name@, static_kind(r.kind)))
}

/// The relationship graph of an officer: its name and its edges.
#[derive(Clone, Debug)]
pub struct OfficerRelationshipGraph {
    pub center_name: String,
    pub edges: Vec<OfficerRelationshipGraphEdge>,
}

/// The relationship graph of `officer`: the ties of its historical profile,
/// then its roles, its marriages and its family ties made during play.
pub fn officer_relationship_graph(game: &GameState, officer: &Officer) -> (g: OfficerRelationshipGraph)
    ensures
        g.center_name@ == officer.name@,
        g.edges@.map_values(|e: OfficerRelationshipGraphEdge| edge_view(e)) == (match officer.profile {
            Some(p) => static_views(p.relationships@),
            None => Seq::empty(),
        }) + faction_role_views(game.factions@, officer.id@) + governor_views(game.cities@, officer.id@)
            + marriage_views(*game, game.marriages@, officer.id@) + family_views(*game, game.family_relationships@, officer.id@),
{
    let ghost v = |e: OfficerRelationshipGraphEdge| edge_view(e);
    let mut edges: Vec<OfficerRelationshipGraphEdge> = Vec::new();
    match &officer.profile {
        Some(p) => {
            let mut i: usize = 0;
            while i < p.relationships.len()
                invariant
                    v == (|e: OfficerRelationshipGraphEdge| edge_view(e)),
                    i <= p.relationships@.len(),
                    edges@.map_values(v) == static_views(p.relationships@.take(i as int)),
                decreases p.relationships@.len() - i,
            {
                let r = &p.relationships[i];
                let ghost before = edges@;
                edges.push(OfficerRelationshipGraphEdge {
                    target_id: owned(r.target_id.as_str()),
                    target_name: owned(r.target_name.as_str()),
                    kind: graph_kind_for_static_relationship(r.kind),
                });
                assert(edges@.map_values(v) =~= static_views(p.relationships@.take(i as int + 1))) by {
                    assert(edges@.map_values(v) =~= before.map_values(v).push(edge_view(edges@[i as int])));
                }
                i = i + 1;
            }
            assert(p.relationships@.take(p.relationships@.len() as int) =~= p.relationships@);
        },
        None => {},
    }
    let ghost a = edges@;
    let mut roles = dynamic_role_edges(game, officer);
    edges.append(&mut roles);
    let ghost b = edges@;
    let mut marriages = dynamic_marriage_edges(game, officer);
    edges.append(&mut marriages);
    let ghost c = edges@;
    let mut family = dynamic_family_edges(game, officer);
    edges.append(&mut family);
    proof {
        assert forall|x: Seq<OfficerRelationshipGraphEdge>, y: Seq<OfficerRelationshipGraphEdge>| #[trigger] (x + y).map_values(v)
            == x.map_values(v) + y.map_values(v) by {
            assert((x + y).map_values(v) =~= x.map_values(v) + y.map_values(v));
        }
    }
    OfficerRelationshipGraph { center_name: owned(officer.name.as_str()), edges }
}

/// The years of an officer's life: the birth year of the profile, else the
/// officer's own when it is not zero; the death year of the profile. `None`
/// where unknown.
pub fn officer_life_span(officer: &Officer) -> (span: (Option<i32>, Option<i32>))
    ensures
        span.0 == match officer.profile {
            Some(p) if p.birth_year is Some => p.birth_year,
            _ => if officer.birth_year != 0 { Some(officer.birth_year) } else { None },
        },
        span.1 == match officer.profile {
            Some(p) => p.death_year,
            None => None,
        },
{
    let profile_birth = match &officer.profile {
        Some(p) => p.birth_year,
        None => None,
    };
    let birth = match profile_birth {
        Some(y) => Some(y),
        None => if officer.birth_year != 0 { Some(officer.birth_year) } else { None },
    };
    let death = match &officer.profile {
        Some(p) => p.death_year,
        None => None,
    };
    (birth, death)
}

/// The name of the officer's city; `None` when unassigned or not in the
/// table.
pub fn officer_city_detail_name(game: &GameState, officer: &Officer) -> (name: Option<String>)
    ensures
        match officer.city_id {
            Some(c) => match city_index(game.cities@, c@) {
                Some(i) => name matches Some(n) && n@ == game.cities@[i].name@,
                None => name is None,
            },
            None => name is None,
        },
{
    match &officer.city_id {
        Some(c) => match game.find_city(c.as_str()) {
            Some(i) => Some(owned(game.cities[i].name.as_str())),
            None => None,
        },
        None => None,
    }
}

/// The court office the officer holds, as its name and rank; `None` when it
/// holds none known.
pub fn officer_office_detail_name(game: &GameState, officer: &Officer) -> (office: Option<(String, String)>)
    ensures
        match officer.office_id {
            Some(o) => match post_index(game.official_posts@, o@) {
                Some(p) => office matches Some(x) && x.0@ == game.official_posts@[p].name@
                    && x.1@ == game.official_posts@[p].rank_label@,
                None => office is None,
            },
            None => office is None,
        },
{
    match &officer.office_id {
        Some(o) => match game.find_post(o.as_str()) {
            Some(p) => Some((owned(game.official_posts[p].name.as_str()), owned(game.official_posts[p].rank_label.as_str()))),
            None => None,
        },
        None => None,
    }
}

} // verus!
