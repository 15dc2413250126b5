//! The ancestral shrine: kinship ties between officers, gathered from
//! marriages and family ties made in play and from historical profiles, and
//! the marriage register of a faction.

use vstd::prelude::*;
use crate::game::{GameState, Officer, OfficerGender, OfficerRelationshipKind, officer_index};
use crate::text::{keys_less, lemma_keys_less, lemma_seq_lt_total, owned, seq_lt, str_eq, str_less};

verus! {

/// The kinds of kinship ties, in their listing order.
#[derive(Clone, Copy, Debug, PartialEq, Eq, Structural)]
pub enum ShrineKinshipEdgeKind {
    Spouse,
    ParentChild,
    WeakParentChild,
}

/// Where a tie is known from: play, history, or both.
#[derive(Clone, Copy, Debug, PartialEq, Eq, Structural)]
pub enum ShrineRelationshipSource {
    Dynamic,
    Historical,
    Mixed,
}

/// A kinship tie between two officers.
#[derive(Clone, Debug)]
pub struct ShrineKinshipEdge {
    pub from_id: String,
    pub to_id: String,
    pub kind: ShrineKinshipEdgeKind,
    pub source: ShrineRelationshipSource,
}

/// The sources of a tie known twice: the same source, or both.
pub open spec fn merged_source(a: ShrineRelationshipSource, b: ShrineRelationshipSource) -> ShrineRelationshipSource {
    if a == b {
        a
    } else {
        ShrineRelationshipSource::Mixed
    }
}

/// Merging sources ignores order and repetition: a tie recorded several
/// times, from any sources in any order, ends with the same source.
pub proof fn lemma_merged_source_laws(a: ShrineRelationshipSource, b: ShrineRelationshipSource, c: ShrineRelationshipSource)
    ensures
        merged_source(a, b) == merged_source(b, a),
        merged_source(a, a) == a,
        merged_source(merged_source(a, b), c) == merged_source(a, merged_source(b, c)),
{
}

/// The source of a tie known from `first` and from `second`.
pub fn merge_relationship_source(first: ShrineRelationshipSource, second: ShrineRelationshipSource) -> (r: ShrineRelationshipSource)
    ensures
        r == merged_source(first, second),
{
    if first == second {
        first
    } else {
        ShrineRelationshipSource::Mixed
    }
}

/// The two identifiers in ascending order.
pub open spec fn ordered_pair(a: Seq<char>, b: Seq<char>) -> (Seq<char>, Seq<char>) {
    if !seq_lt(b, a) {
        (a, b)
    } else {
        (b, a)
    }
}

/// The two identifiers, the smaller first.
pub fn sorted_pair(first_id: &str, second_id: &str) -> (r: (String, String))
    ensures
        (r.0@, r.1@) == ordered_pair(first_id@, second_id@),
{
    if !str_less(second_id, first_id) {
        (owned(first_id), owned(second_id))
    } else {
        (owned(second_id), owned(first_id))
    }
}

/// The listing code of a tie kind.
pub open spec fn kind_code(k: ShrineKinshipEdgeKind) -> Seq<char> {
    match k {
        ShrineKinshipEdgeKind::Spouse => seq!['0'],
        ShrineKinshipEdgeKind::ParentChild => seq!['1'],
        ShrineKinshipEdgeKind::WeakParentChild => seq!['2'],
    }
}

/// The key under which a tie is listed: kind, then both identifiers.
pub open spec fn tie_key(kind: ShrineKinshipEdgeKind, from: Seq<char>, to: Seq<char>) -> Seq<Seq<char>> {
    seq![kind_code(kind), from, to]
}

/// The key of tie `e`.
pub open spec fn edge_key(e: ShrineKinshipEdge) -> Seq<Seq<char>> {
    tie_key(e.kind, e.from_id@, e.to_id@)
}

/// The ties of `es` are listed by key, each key once, and `m` gives exactly
/// their keys and sources.
pub open spec fn lists_ties(es: Seq<ShrineKinshipEdge>, m: Map<Seq<Seq<char>>, ShrineRelationshipSource>) -> bool {
    &&& forall|i: int, j: int| 0 <= i < j < es.len() ==> keys_less(edge_key(#[trigger] es[i]), edge_key(#[trigger] es[j]))
    &&& forall|i: int| 0 <= i < es.len() ==> m.contains_key(edge_key(#[trigger] es[i])) && m[edge_key(es[i])] == es[i].source
    &&& forall|k: Seq<Seq<char>>| #[trigger] m.contains_key(k) ==> exists|i: int| 0 <= i < es.len() && edge_key(#[trigger] es[i]) == k
}

/// `m` with tie `k` recorded from `source`, merged with what it had.
pub open spec fn with_tie(m: Map<Seq<Seq<char>>, ShrineRelationshipSource>, k: Seq<Seq<char>>, source: ShrineRelationshipSource) -> Map<Seq<Seq<char>>, ShrineRelationshipSource> {
    m.insert(k, if m.contains_key(k) { merged_source(m[k], source) } else { source })
}

fn kind_code_less(a: ShrineKinshipEdgeKind, b: ShrineKinshipEdgeKind) -> (r: bool)
    ensures
        r == seq_lt(kind_code(a), kind_code(b)),
{
    proof {
        reveal_with_fuel(seq_lt, 2);
        assert(kind_code(a).subrange(1, 1) =~= Seq::<char>::empty());
        assert(kind_code(b).subrange(1, 1) =~= Seq::<char>::empty());
    }
    let ca: u32 = match a {
        ShrineKinshipEdgeKind::Spouse => 0,
        ShrineKinshipEdgeKind::ParentChild => 1,
        ShrineKinshipEdgeKind::WeakParentChild => 2,
    };
    let cb: u32 = match b {
        ShrineKinshipEdgeKind::Spouse => 0,
        ShrineKinshipEdgeKind::ParentChild => 1,
        ShrineKinshipEdgeKind::WeakParentChild => 2,
    };
    ca < cb
}

fn tie_key_less(kind: ShrineKinshipEdgeKind, from: &str, to: &str, e: &ShrineKinshipEdge) -> (r: (bool, bool))
    ensures
        r.0 == keys_less(edge_key(*e), tie_key(kind, from@, to@)),
        r.1 == (edge_key(*e) == tie_key(kind, from@, to@)),
{
    let ghost a = edge_key(*e);
    let ghost b = tie_key(kind, from@, to@);
    proof {
        reveal_with_fuel(keys_less, 4);
        assert(a.drop_first() =~= seq![e.from_id@, e.to_id@]);
        assert(b.drop_first() =~= seq![from@, to@]);
        assert(a.drop_first().drop_first() =~= seq![e.to_id@]);
        assert(b.drop_first().drop_first() =~= seq![to@]);
        assert(a.drop_first().drop_first().drop_first() =~= Seq::<Seq<char>>::empty());
    }
    let kind_less = kind_code_less(e.kind, kind);
    let same_kind = e.kind == kind;
    let from_less = str_less(e.from_id.as_str(), from);
    let same_from = str_eq(e.from_id.as_str(), from);
    let to_less = str_less(e.to_id.as_str(), to);
    let same_to = str_eq(e.to_id.as_str(), to);
    proof {
        if !same_kind {
            assert(kind_code(e.kind) != kind_code(kind)) by {
                assert(kind_code(e.kind)[0] != kind_code(kind)[0]);
            }
        }
        if same_kind && same_from && same_to {
            assert(a =~= b);
        }
        if a == b {
            assert(a[0] == b[0]);
            assert(a[1] == b[1]);
            assert(a[2] == b[2]);
            assert(kind_code(e.kind)[0] == kind_code(kind)[0]);
        }
    }
    let less = kind_less || (same_kind && (from_less || (same_from && to_less)));
    (less, same_kind && same_from && same_to)
}

/// Where tie `(kind, from, to)` is or would go in the listing, and whether
/// it is there.
fn tie_position(edges: &Vec<ShrineKinshipEdge>, kind: ShrineKinshipEdgeKind, from: &str, to: &str) -> (r: (usize, bool))
    ensures
        r.0 <= edges@.len(),
        forall|i: int| 0 <= i < r.0 ==> keys_less(edge_key(#[trigger] edges@[i]), tie_key(kind, from@, to@)),
        r.0 < edges@.len() ==> !keys_less(edge_key(edges@[r.0 as int]), tie_key(kind, from@, to@)),
        r.1 == (r.0 < edges@.len() && edge_key(edges@[r.0 as int]) == tie_key(kind, from@, to@)),
{
    let mut p: usize = 0;
    while p < edges.len()
        invariant
            p <= edges@.len(),
            forall|i: int| 0 <= i < p ==> keys_less(edge_key(#[trigger] edges@[i]), tie_key(kind, from@, to@)),
        decreases edges@.len() - p,
    {
        let (less, eq) = tie_key_less(kind, from, to, &edges[p]);
        if !less {
            return (p, eq);
        }
        p = p + 1;
    }
    (p, false)
}

/// Records tie `(kind, from_id, to_id)` from `source` in the listing, merging
/// the sources when the tie is already there.
pub fn shrine_insert_edge_source(
    edges: &mut Vec<ShrineKinshipEdge>,
    kind: ShrineKinshipEdgeKind,
    from_id: String,
    to_id: String,
    source: ShrineRelationshipSource,
    Ghost(m): Ghost<Map<Seq<Seq<char>>, ShrineRelationshipSource>>,
)
    requires
        lists_ties(old(edges)@, m),
    ensures
        lists_ties(final(edges)@, with_tie(m, tie_key(kind, from_id@, to_id@), source)),
{
    let ghost k = tie_key(kind, from_id@, to_id@);
    let ghost es = edges@;
    let (p, same) = tie_position(edges, kind, from_id.as_str(), to_id.as_str());
    let ghost m2 = with_tie(m, k, source);
    if p < edges.len() && same {
        let merged = merge_relationship_source(edges[p].source, source);
        let old_edge = edges.remove(p);
        assert(old_edge == es[p as int]);
        assert(edges@ == es.remove(p as int));
        let new_edge = ShrineKinshipEdge { from_id: old_edge.from_id, to_id: old_edge.to_id, kind: old_edge.kind, source: merged };
        let ghost ne = new_edge;
        edges.insert(p, new_edge);
        proof {
            assert(edges@ == es.remove(p as int).insert(p as int, ne));
            assert(edges@ =~= es.update(p as int, ne));
            assert(m.contains_key(k));
            assert forall|i: int, j: int| 0 <= i < j < edges@.len() implies keys_less(edge_key(#[trigger] edges@[i]), edge_key(#[trigger] edges@[j])) by {
                assert(edge_key(edges@[i]) == edge_key(es[i]));
                assert(edge_key(edges@[j]) == edge_key(es[j]));
            }
            assert forall|i: int| 0 <= i < edges@.len() implies m2.contains_key(edge_key(#[trigger] edges@[i])) && m2[edge_key(edges@[i])] == edges@[i].source by {
                if i != p {
                    assert(edge_key(es[i]) != k) by {
                        if i < p {
                            lemma_keys_less(edge_key(es[i]), k, k);
                        } else {
                            lemma_keys_less(k, edge_key(es[i]), k);
                        }
                    }
                }
            }
            assert forall|kk: Seq<Seq<char>>| #[trigger] m2.contains_key(kk) implies exists|i: int| 0 <= i < edges@.len() && edge_key(#[trigger] edges@[i]) == kk by {
                let i = choose|i: int| 0 <= i < es.len() && edge_key(#[trigger] es[i]) == kk;
                assert(edge_key(edges@[i]) == kk);
            }
        }
    } else {
        proof {
            if p < es.len() {
                lemma_keys_less(edge_key(es[p as int]), k, k);
            }
            assert(!m.contains_key(k)) by {
                if m.contains_key(k) {
                    let i = choose|i: int| 0 <= i < es.len() && edge_key(#[trigger] es[i]) == k;
                    if i < p {
                        lemma_keys_less(k, k, k);
                    } else if i > p {
                        lemma_keys_less(edge_key(es[p as int]), k, k);
                        lemma_keys_less(k, edge_key(es[p as int]), k);
                    }
                }
            }
        }
        let e = ShrineKinshipEdge { from_id, to_id, kind, source };
        edges.insert(p, e);
        proof {
            assert(edges@ =~= es.insert(p as int, e));
            assert(edge_key(e) == k);
            assert forall|i: int, j: int| 0 <= i < j < edges@.len() implies keys_less(edge_key(#[trigger] edges@[i]), edge_key(#[trigger] edges@[j])) by {
                if j < p {
                } else if j == p {
                } else if i < p {
                    assert(edges@[j] == es[j - 1]);
                    lemma_keys_less(edge_key(es[i]), k, edge_key(es[j - 1]));
                    if j - 1 == p {
                        lemma_keys_less(k, edge_key(es[j - 1]), k);
                    } else {
                        lemma_keys_less(k, edge_key(es[p as int]), edge_key(es[j - 1]));
                    }
                } else if i == p {
                    assert(edges@[j] == es[j - 1]);
                    if j - 1 > p {
                        lemma_keys_less(k, edge_key(es[p as int]), edge_key(es[j - 1]));
                    }
                } else {
                    assert(edges@[i] == es[i - 1]);
                    assert(edges@[j] == es[j - 1]);
                }
            }
            assert forall|i: int| 0 <= i < edges@.len() implies m2.contains_key(edge_key(#[trigger] edges@[i])) && m2[edge_key(edges@[i])] == edges@[i].source by {
                if i < p {
                    assert(edges@[i] == es[i]);
                    assert(edge_key(es[i]) != k) by {
                        lemma_keys_less(k, k, k);
                    }
                } else if i > p {
                    assert(edges@[i] == es[i - 1]);
                    assert(edge_key(es[i - 1]) != k);
                }
            }
            assert forall|kk: Seq<Seq<char>>| #[trigger] m2.contains_key(kk) implies exists|i: int| 0 <= i < edges@.len() && edge_key(#[trigger] edges@[i]) == kk by {
                if kk == k {
                    assert(edge_key(edges@[p as int]) == kk);
                } else {
                    let i = choose|i: int| 0 <= i < es.len() && edge_key(#[trigger] es[i]) == kk;
                    if i < p {
                        assert(edge_key(edges@[i]) == kk);
                    } else {
                        assert(edges@[i + 1] == es[i]);
                        assert(edge_key(edges@[i + 1]) == kk);
                    }
                }
            }
        }
    }
}

/// Whether officers `first_id` and `second_id` are a couple that concerns
/// faction `faction_id`: one of them serves it.
pub open spec fn concerns_faction(game: GameState, fid: Seq<char>, a: Seq<char>, b: Seq<char>) -> bool {
    (officer_index(game.officers@, a) matches Some(i) && game.officers@[i].faction_id@ == fid) || (officer_index(
        game.officers@,
        b,
    ) matches Some(j) && game.officers@[j].faction_id@ == fid)
}

/// Whether the couple `first_id`, `second_id` concerns faction `faction_id`.
pub fn marriage_relevant_to_faction(game: &GameState, faction_id: &str, first_id: &str, second_id: &str) -> (b: bool)
    ensures
        b == concerns_faction(*game, faction_id@, first_id@, second_id@),
{
    let first = match game.find_officer(first_id) {
        Some(i) => str_eq(game.officers[i].faction_id.as_str(), faction_id),
        None => false,
    };
    first || match game.find_officer(second_id) {
        Some(j) => str_eq(game.officers[j].faction_id.as_str(), faction_id),
        None => false,
    }
}

/// The gender of officer `id`, if the game has that officer.
pub open spec fn gender_of(game: GameState, id: Seq<char>) -> Option<OfficerGender> {
    match officer_index(game.officers@, id) {
        Some(i) => Some(game.officers@[i].gender),
        None => None,
    }
}

/// A couple as registered: husband then wife when their genders say so,
/// else the identifiers in ascending order.
pub open spec fn couple_key(game: GameState, a: Seq<char>, b: Seq<char>) -> (Seq<char>, Seq<char>) {
    match (gender_of(game, a), gender_of(game, b)) {
        (Some(OfficerGender::Male), Some(OfficerGender::Female)) => (a, b),
        (Some(OfficerGender::Female), Some(OfficerGender::Male)) => (b, a),
        _ => ordered_pair(a, b),
    }
}

fn gender_lookup(game: &GameState, id: &str) -> (g: Option<OfficerGender>)
    ensures
        g == gender_of(*game, id@),
{
    match game.find_officer(id) {
        Some(i) => Some(game.officers[i].gender),
        None => None,
    }
}

/// The couple `first_id`, `second_id` as registered.
pub fn marriage_pair_ids(game: &GameState, first_id: &str, second_id: &str) -> (r: (String, String))
    ensures
        (r.0@, r.1@) == couple_key(*game, first_id@, second_id@),
{
    match (gender_lookup(game, first_id), gender_lookup(game, second_id)) {
        (Some(OfficerGender::Male), Some(OfficerGender::Female)) => (owned(first_id), owned(second_id)),
        (Some(OfficerGender::Female), Some(OfficerGender::Male)) => (owned(second_id), owned(first_id)),
        _ => sorted_pair(first_id, second_id),
    }
}

/// The age of officer `o` in year `year`.
pub open spec fn age_in(o: Officer, year: int) -> int {
    year - o.birth_year
}

/// Parent then child of a historical parent tie between two officers: the
/// older one is the parent; `None` when either is unknown or they are the
/// same age.
pub open spec fn parent_child_direction(game: GameState, a: Seq<char>, b: Seq<char>) -> Option<(Seq<char>, Seq<char>)> {
    match (officer_index(game.officers@, a), officer_index(game.officers@, b)) {
        (Some(i), Some(j)) => {
            let ai = age_in(game.officers@[i], game.year as int);
            let aj = age_in(game.officers@[j], game.year as int);
            if ai > aj {
                Some((game.officers@[i].id@, game.officers@[j].id@))
            } else if aj > ai {
                Some((game.officers@[j].id@, game.officers@[i].id@))
            } else {
                None
            }
        },
        _ => None,
    }
}

/// Parent then child of a historical parent tie, if their ages tell.
pub fn historical_parent_child_direction(game: &GameState, first_id: &str, second_id: &str) -> (r: Option<(String, String)>)
    ensures
        match r {
            Some(p) => parent_child_direction(*game, first_id@, second_id@) == Some((p.0@, p.1@)),
            None => parent_child_direction(*game, first_id@, second_id@) is None,
        },
{
    let i = match game.find_officer(first_id) {
        Some(i) => i,
        None => return None,
    };
    let j = match game.find_officer(second_id) {
        Some(j) => j,
        None => return None,
    };
    let first = &game.officers[i];
    let second = &game.officers[j];
    let first_age = game.year as i64 - first.birth_year as i64;
    let second_age = game.year as i64 - second.birth_year as i64;
    if first_age > second_age {
        Some((owned(first.id.as_str()), owned(second.id.as_str())))
    } else if second_age > first_age {
        Some((owned(second.id.as_str()), owned(first.id.as_str())))
    } else {
        None
    }
}

/// The ties that marriages `ms` add to `m0`.
pub open spec fn marriage_ties(ms: Seq<crate::game::Marriage>, m0: Map<Seq<Seq<char>>, ShrineRelationshipSource>) -> Map<Seq<Seq<char>>, ShrineRelationshipSource>
    decreases ms.len(),
{
    if ms.len() == 0 {
        m0
    } else {
        let p = ordered_pair(ms.last().husband_id@, ms.last().wife_id@);
        with_tie(marriage_ties(ms.drop_last(), m0), tie_key(ShrineKinshipEdgeKind::Spouse, p.0, p.1), ShrineRelationshipSource::Dynamic)
    }
}

/// The ties that the family ties `fs` between known officers add to `m0`.
pub open spec fn family_ties(game: GameState, fs: Seq<crate::game::FamilyRelationship>, m0: Map<Seq<Seq<char>>, ShrineRelationshipSource>) -> Map<Seq<Seq<char>>, ShrineRelationshipSource>
    decreases fs.len(),
{
    if fs.len() == 0 {
        m0
    } else {
        let m = family_ties(game, fs.drop_last(), m0);
        let f = fs.last();
        if officer_index(game.officers@, f.parent_id@) is Some && officer_index(game.officers@, f.child_id@) is Some {
            with_tie(m, tie_key(ShrineKinshipEdgeKind::ParentChild, f.parent_id@, f.child_id@), ShrineRelationshipSource::Dynamic)
        } else {
            m
        }
    }
}

/// The tie that historical relationship `r` of officer `oid` adds to `m`.
pub open spec fn historical_tie(game: GameState, oid: Seq<char>, r: crate::game::OfficerRelationship, m: Map<Seq<Seq<char>>, ShrineRelationshipSource>) -> Map<Seq<Seq<char>>, ShrineRelationshipSource> {
    if officer_index(game.officers@, r.target_id@) is None {
        m
    } else {
        match r.kind {
            OfficerRelationshipKind::Spouse => {
                let p = ordered_pair(oid, r.target_id@);
                with_tie(m, tie_key(ShrineKinshipEdgeKind::Spouse, p.0, p.1), ShrineRelationshipSource::Historical)
            },
            OfficerRelationshipKind::ParentChild | OfficerRelationshipKind::AdoptiveParentChild => {
                match parent_child_direction(game, oid, r.target_id@) {
                    Some(d) => with_tie(m, tie_key(ShrineKinshipEdgeKind::ParentChild, d.0, d.1), ShrineRelationshipSource::Historical),
                    None => {
                        let p = ordered_pair(oid, r.target_id@);
                        with_tie(m, tie_key(ShrineKinshipEdgeKind::WeakParentChild, p.0, p.1), ShrineRelationshipSource::Historical)
                    },
                }
            },
            _ => m,
        }
    }
}

/// The ties that the historical relationships `rs` of officer `oid` add to `m0`.
pub open spec fn relationship_ties(game: GameState, oid: Seq<char>, rs: Seq<crate::game::OfficerRelationship>, m0: Map<Seq<Seq<char>>, ShrineRelationshipSource>) -> Map<Seq<Seq<char>>, ShrineRelationshipSource>
    decreases rs.len(),
{
    if rs.len() == 0 {
        m0
    } else {
        historical_tie(game, oid, rs.last(), relationship_ties(game, oid, rs.drop_last(), m0))
    }
}

/// The ties that the profiles of officers `os` add to `m0`.
pub open spec fn profile_ties(game: GameState, os: Seq<Officer>, m0: Map<Seq<Seq<char>>, ShrineRelationshipSource>) -> Map<Seq<Seq<char>>, ShrineRelationshipSource>
    decreases os.len(),
{
    if os.len() == 0 {
        m0
    } else {
        let m = profile_ties(game, os.drop_last(), m0);
        match os.last().profile {
            Some(p) => relationship_ties(game, os.last().id@, p.relationships@, m),
            None => m,
        }
    }
}

/// Every kinship tie of the game with its source: marriages and family ties
/// made in play, then the ties in officers' historical profiles.
pub open spec fn kinship_ties(game: GameState) -> Map<Seq<Seq<char>>, ShrineRelationshipSource> {
    profile_ties(
        game,
        game.officers@,
        family_ties(game, game.family_relationships@, marriage_ties(game.marriages@, Map::empty())),
    )
}

/// A tie recorded in `m` under the key of `kind`, `from`, `to` is an edge of
/// the listing `es` of `m`.
proof fn lemma_listed_edge(es: Seq<ShrineKinshipEdge>, m: Map<Seq<Seq<char>>, ShrineRelationshipSource>, kind: ShrineKinshipEdgeKind, from: Seq<char>, to: Seq<char>)
    requires
        lists_ties(es, m),
        m.contains_key(tie_key(kind, from, to)),
    ensures
        exists|e: int| 0 <= e < es.len() && es[e].kind == kind && #[trigger] es[e].from_id@ == from && es[e].to_id@ == to,
{
    let key = tie_key(kind, from, to);
    let e = choose|e: int| 0 <= e < es.len() && edge_key(#[trigger] es[e]) == key;
    assert(edge_key(es[e])[0] == kind_code(kind));
    assert(es[e].kind == kind) by {
        assert(kind_code(es[e].kind)[0] == kind_code(kind)[0]);
    }
    assert(edge_key(es[e])[1] == from);
    assert(edge_key(es[e])[2] == to);
}

proof fn lemma_marriage_ties_keep(ms: Seq<crate::game::Marriage>, m0: Map<Seq<Seq<char>>, ShrineRelationshipSource>, key: Seq<Seq<char>>)
    requires
        m0.contains_key(key),
    ensures
        marriage_ties(ms, m0).contains_key(key),
    decreases ms.len(),
{
    if ms.len() > 0 {
        lemma_marriage_ties_keep(ms.drop_last(), m0, key);
    }
}

proof fn lemma_marriage_ties_add(ms: Seq<crate::game::Marriage>, m0: Map<Seq<Seq<char>>, ShrineRelationshipSource>, q: int)
    requires
        0 <= q < ms.len(),
    ensures
        marriage_ties(ms, m0).contains_key(
            tie_key(ShrineKinshipEdgeKind::Spouse, ordered_pair(ms[q].husband_id@, ms[q].wife_id@).0, ordered_pair(ms[q].husband_id@, ms[q].wife_id@).1),
        ),
    decreases ms.len(),
{
    if q < ms.len() - 1 {
        assert(ms.drop_last()[q] == ms[q]);
        lemma_marriage_ties_add(ms.drop_last(), m0, q);
    }
}

proof fn lemma_family_ties_keep(game: GameState, fs: Seq<crate::game::FamilyRelationship>, m0: Map<Seq<Seq<char>>, ShrineRelationshipSource>, key: Seq<Seq<char>>)
    requires
        m0.contains_key(key),
    ensures
        family_ties(game, fs, m0).contains_key(key),
    decreases fs.len(),
{
    if fs.len() > 0 {
        lemma_family_ties_keep(game, fs.drop_last(), m0, key);
    }
}

proof fn lemma_family_ties_add(game: GameState, fs: Seq<crate::game::FamilyRelationship>, m0: Map<Seq<Seq<char>>, ShrineRelationshipSource>, q: int)
    requires
        0 <= q < fs.len(),
        officer_index(game.officers@, fs[q].parent_id@) is Some,
        officer_index(game.officers@, fs[q].child_id@) is Some,
    ensures
        family_ties(game, fs, m0).contains_key(tie_key(ShrineKinshipEdgeKind::ParentChild, fs[q].parent_id@, fs[q].child_id@)),
    decreases fs.len(),
{
    if q < fs.len() - 1 {
        assert(fs.drop_last()[q] == fs[q]);
        lemma_family_ties_add(game, fs.drop_last(), m0, q);
    }
}

/// Every marriage of the game is listed as a spouse tie between husband and
/// wife, the two in identifier order.
pub proof fn lemma_marriages_listed(game: GameState, es: Seq<ShrineKinshipEdge>, q: int)
    requires
        lists_ties(es, kinship_ties(game)),
        0 <= q < game.marriages@.len(),
    ensures
        ({
            let h = game.marriages@[q].husband_id@;
            let w = game.marriages@[q].wife_id@;
            exists|e: int| 0 <= e < es.len() && es[e].kind == ShrineKinshipEdgeKind::Spouse
                && (#[trigger] es[e].from_id@ == h && es[e].to_id@ == w && !seq_lt(w, h)
                || es[e].from_id@ == w && es[e].to_id@ == h && seq_lt(w, h))
        }),
{
    let ms = game.marriages@;
    let p = ordered_pair(ms[q].husband_id@, ms[q].wife_id@);
    let key = tie_key(ShrineKinshipEdgeKind::Spouse, p.0, p.1);
    lemma_marriage_ties_add(ms, Map::empty(), q);
    lemma_family_ties_keep(game, game.family_relationships@, marriage_ties(ms, Map::empty()), key);
    lemma_profile_ties_keep(game, game.officers@, family_ties(game, game.family_relationships@, marriage_ties(ms, Map::empty())), key);
    lemma_listed_edge(es, kinship_ties(game), ShrineKinshipEdgeKind::Spouse, p.0, p.1);
}

/// Every family tie made in play between two officers of the game is listed
/// as a parent–child tie from the parent to the child.
pub proof fn lemma_family_ties_listed(game: GameState, es: Seq<ShrineKinshipEdge>, q: int)
    requires
        lists_ties(es, kinship_ties(game)),
        0 <= q < game.family_relationships@.len(),
        officer_index(game.officers@, game.family_relationships@[q].parent_id@) is Some,
        officer_index(game.officers@, game.family_relationships@[q].child_id@) is Some,
    ensures
        exists|e: int| 0 <= e < es.len() && es[e].kind == ShrineKinshipEdgeKind::ParentChild
            && #[trigger] es[e].from_id@ == game.family_relationships@[q].parent_id@
            && es[e].to_id@ == game.family_relationships@[q].child_id@,
{
    let fs = game.family_relationships@;
    let key = tie_key(ShrineKinshipEdgeKind::ParentChild, fs[q].parent_id@, fs[q].child_id@);
    let m0 = marriage_ties(game.marriages@, Map::empty());
    lemma_family_ties_add(game, fs, m0, q);
    lemma_profile_ties_keep(game, game.officers@, family_ties(game, fs, m0), key);
    lemma_listed_edge(es, kinship_ties(game), ShrineKinshipEdgeKind::ParentChild, fs[q].parent_id@, fs[q].child_id@);
}

proof fn lemma_relationship_ties_keep(game: GameState, oid: Seq<char>, rs: Seq<crate::game::OfficerRelationship>, m0: Map<Seq<Seq<char>>, ShrineRelationshipSource>, key: Seq<Seq<char>>)
    requires
        m0.contains_key(key),
    ensures
        relationship_ties(game, oid, rs, m0).contains_key(key),
    decreases rs.len(),
{
    if rs.len() > 0 {
        lemma_relationship_ties_keep(game, oid, rs.drop_last(), m0, key);
    }
}

proof fn lemma_profile_ties_keep(game: GameState, os: Seq<Officer>, m0: Map<Seq<Seq<char>>, ShrineRelationshipSource>, key: Seq<Seq<char>>)
    requires
        m0.contains_key(key),
    ensures
        profile_ties(game, os, m0).contains_key(key),
    decreases os.len(),
{
    if os.len() > 0 {
        lemma_profile_ties_keep(game, os.drop_last(), m0, key);
        let m = profile_ties(game, os.drop_last(), m0);
        match os.last().profile {
            Some(p) => lemma_relationship_ties_keep(game, os.last().id@, p.relationships@, m, key),
            None => {},
        }
    }
}

/// A tie that relationship `n` of `rs` records, whatever was recorded
/// before it, is among the ties of all of `rs`.
proof fn lemma_relationship_ties_add(game: GameState, oid: Seq<char>, rs: Seq<crate::game::OfficerRelationship>, m0: Map<Seq<Seq<char>>, ShrineRelationshipSource>, n: int, key: Seq<Seq<char>>)
    requires
        0 <= n < rs.len(),
        forall|m: Map<Seq<Seq<char>>, ShrineRelationshipSource>| #[trigger] historical_tie(game, oid, rs[n], m).contains_key(key),
    ensures
        relationship_ties(game, oid, rs, m0).contains_key(key),
    decreases rs.len(),
{
    if n == rs.len() - 1 {
        assert(historical_tie(game, oid, rs[n], relationship_ties(game, oid, rs.drop_last(), m0)).contains_key(key));
    } else {
        assert(rs.drop_last()[n] == rs[n]);
        lemma_relationship_ties_add(game, oid, rs.drop_last(), m0, n, key);
        let before = relationship_ties(game, oid, rs.drop_last(), m0);
        assert(historical_tie(game, oid, rs.last(), before).contains_key(key));
    }
}

/// A tie that the profile of officer `k` of `os` records, whatever was
/// recorded before it, is among the ties of all the profiles of `os`.
proof fn lemma_profile_ties_add(game: GameState, os: Seq<Officer>, m0: Map<Seq<Seq<char>>, ShrineRelationshipSource>, k: int, n: int, key: Seq<Seq<char>>)
    requires
        0 <= k < os.len(),
        os[k].profile is Some,
        0 <= n < os[k].profile->Some_0.relationships@.len(),
        forall|m: Map<Seq<Seq<char>>, ShrineRelationshipSource>| #[trigger] historical_tie(game, os[k].id@, os[k].profile->Some_0.relationships@[n], m).contains_key(key),
    ensures
        profile_ties(game, os, m0).contains_key(key),
    decreases os.len(),
{
    let before = profile_ties(game, os.drop_last(), m0);
    if k == os.len() - 1 {
        let p = os.last().profile->Some_0;
        lemma_relationship_ties_add(game, os.last().id@, p.relationships@, before, n, key);
    } else {
        assert(os.drop_last()[k] == os[k]);
        lemma_profile_ties_add(game, os.drop_last(), m0, k, n, key);
        match os.last().profile {
            Some(p) => lemma_relationship_ties_keep(game, os.last().id@, p.relationships@, before, key),
            None => {},
        }
    }
}

/// Every parent or adoptive-parent relationship in an officer's historical
/// profile, to an officer of the game, is listed as a tie between the two:
/// a parent–child tie from the one born earlier to the one born later, or,
/// when they were born in the same year, a tie of uncertain direction
/// between the two in identifier order.
pub proof fn lemma_profile_parent_ties_listed(game: GameState, es: Seq<ShrineKinshipEdge>, k: int, n: int, i: int, j: int)
    requires
        lists_ties(es, kinship_ties(game)),
        0 <= k < game.officers@.len(),
        game.officers@[k].profile is Some,
        0 <= n < game.officers@[k].profile->Some_0.relationships@.len(),
        game.officers@[k].profile->Some_0.relationships@[n].kind is ParentChild
            || game.officers@[k].profile->Some_0.relationships@[n].kind is AdoptiveParentChild,
        officer_index(game.officers@, game.officers@[k].id@) == Some(i),
        officer_index(game.officers@, game.officers@[k].profile->Some_0.relationships@[n].target_id@) == Some(j),
    ensures
        game.officers@[i].birth_year < game.officers@[j].birth_year ==> exists|e: int| 0 <= e < es.len()
            && es[e].kind == ShrineKinshipEdgeKind::ParentChild && #[trigger] es[e].from_id@ == game.officers@[i].id@
            && es[e].to_id@ == game.officers@[j].id@,
        game.officers@[j].birth_year < game.officers@[i].birth_year ==> exists|e: int| 0 <= e < es.len()
            && es[e].kind == ShrineKinshipEdgeKind::ParentChild && #[trigger] es[e].from_id@ == game.officers@[j].id@
            && es[e].to_id@ == game.officers@[i].id@,
        game.officers@[i].birth_year == game.officers@[j].birth_year ==> exists|e: int| 0 <= e < es.len()
            && es[e].kind == ShrineKinshipEdgeKind::WeakParentChild && (#[trigger] es[e].from_id@ == game.officers@[i].id@
            && es[e].to_id@ == game.officers@[j].id@ && !seq_lt(game.officers@[j].id@, game.officers@[i].id@)
            || es[e].from_id@ == game.officers@[j].id@ && es[e].to_id@ == game.officers@[i].id@
            && seq_lt(game.officers@[j].id@, game.officers@[i].id@)),
{
    let os = game.officers@;
    let oid = os[k].id@;
    let r = os[k].profile->Some_0.relationships@[n];
    crate::game::lemma_officer_index(os, oid);
    crate::game::lemma_officer_index(os, r.target_id@);
    let a = os[i];
    let b = os[j];
    let kind = if a.birth_year != b.birth_year { ShrineKinshipEdgeKind::ParentChild } else { ShrineKinshipEdgeKind::WeakParentChild };
    let from = if a.birth_year < b.birth_year {
        a.id@
    } else if b.birth_year < a.birth_year {
        b.id@
    } else {
        ordered_pair(a.id@, b.id@).0
    };
    let to = if a.birth_year < b.birth_year {
        b.id@
    } else if b.birth_year < a.birth_year {
        a.id@
    } else {
        ordered_pair(a.id@, b.id@).1
    };
    let key = tie_key(kind, from, to);
    assert forall|m: Map<Seq<Seq<char>>, ShrineRelationshipSource>| #[trigger] historical_tie(game, oid, r, m).contains_key(key) by {
        assert(officer_index(os, r.target_id@) is Some);
    }
    let m0 = family_ties(game, game.family_relationships@, marriage_ties(game.marriages@, Map::empty()));
    lemma_profile_ties_add(game, os, m0, k, n, key);
    lemma_listed_edge(es, kinship_ties(game), kind, from, to);
}

/// Every spouse relationship in an officer's historical profile, to an
/// officer of the game, is listed as a spouse tie between the two, in
/// identifier order.
pub proof fn lemma_profile_spouse_ties_listed(game: GameState, es: Seq<ShrineKinshipEdge>, k: int, n: int)
    requires
        lists_ties(es, kinship_ties(game)),
        0 <= k < game.officers@.len(),
        game.officers@[k].profile is Some,
        0 <= n < game.officers@[k].profile->Some_0.relationships@.len(),
        game.officers@[k].profile->Some_0.relationships@[n].kind is Spouse,
        officer_index(game.officers@, game.officers@[k].profile->Some_0.relationships@[n].target_id@) is Some,
    ensures
        ({
            let a = game.officers@[k].id@;
            let b = game.officers@[k].profile->Some_0.relationships@[n].target_id@;
            exists|e: int| 0 <= e < es.len() && es[e].kind == ShrineKinshipEdgeKind::Spouse
                && (#[trigger] es[e].from_id@ == a && es[e].to_id@ == b && !seq_lt(b, a)
                || es[e].from_id@ == b && es[e].to_id@ == a && seq_lt(b, a))
        }),
{
    let os = game.officers@;
    let oid = os[k].id@;
    let r = os[k].profile->Some_0.relationships@[n];
    let p = ordered_pair(oid, r.target_id@);
    let key = tie_key(ShrineKinshipEdgeKind::Spouse, p.0, p.1);
    assert forall|m: Map<Seq<Seq<char>>, ShrineRelationshipSource>| #[trigger] historical_tie(game, oid, r, m).contains_key(key) by {}
    let m0 = family_ties(game, game.family_relationships@, marriage_ties(game.marriages@, Map::empty()));
    lemma_profile_ties_add(game, os, m0, k, n, key);
    lemma_listed_edge(es, kinship_ties(game), ShrineKinshipEdgeKind::Spouse, p.0, p.1);
}

/// `from`, `to` are `a` and `b` in identifier order.
pub open spec fn in_id_order(from: Seq<char>, to: Seq<char>, a: Seq<char>, b: Seq<char>) -> bool {
    (from == a && to == b && !seq_lt(b, a)) || (from == b && to == a && seq_lt(b, a))
}

/// Tie `kind`, `from`, `to` records marriage `q` of the game: a spouse tie
/// between husband and wife.
pub open spec fn records_marriage(game: GameState, kind: ShrineKinshipEdgeKind, from: Seq<char>, to: Seq<char>, q: int) -> bool {
    &&& 0 <= q < game.marriages@.len()
    &&& kind == ShrineKinshipEdgeKind::Spouse
    &&& in_id_order(from, to, game.marriages@[q].husband_id@, game.marriages@[q].wife_id@)
}

/// Tie `kind`, `from`, `to` records family tie `q` made in play between two
/// officers of the game: a parent–child tie from the parent to the child.
pub open spec fn records_family_tie(game: GameState, kind: ShrineKinshipEdgeKind, from: Seq<char>, to: Seq<char>, q: int) -> bool {
    &&& 0 <= q < game.family_relationships@.len()
    &&& officer_index(game.officers@, game.family_relationships@[q].parent_id@) is Some
    &&& officer_index(game.officers@, game.family_relationships@[q].child_id@) is Some
    &&& kind == ShrineKinshipEdgeKind::ParentChild
    &&& from == game.family_relationships@[q].parent_id@
    &&& to == game.family_relationships@[q].child_id@
}

/// Tie `kind`, `from`, `to` records relationship `r` of officer `oid`'s
/// historical profile, to an officer of the game: a spouse relationship as a
/// spouse tie; a parent or adoptive-parent relationship as a parent–child
/// tie from the one born earlier, or as a tie of uncertain direction when
/// both were born in the same year.
pub open spec fn relationship_records(game: GameState, oid: Seq<char>, r: crate::game::OfficerRelationship, kind: ShrineKinshipEdgeKind, from: Seq<char>, to: Seq<char>) -> bool {
    let os = game.officers@;
    let b = r.target_id@;
    &&& officer_index(os, b) is Some
    &&& match r.kind {
        OfficerRelationshipKind::Spouse => kind == ShrineKinshipEdgeKind::Spouse && in_id_order(from, to, oid, b),
        OfficerRelationshipKind::ParentChild | OfficerRelationshipKind::AdoptiveParentChild => {
            &&& officer_index(os, oid) is Some
            &&& {
                let x = os[officer_index(os, oid)->Some_0];
                let y = os[officer_index(os, b)->Some_0];
                if x.birth_year < y.birth_year {
                    kind == ShrineKinshipEdgeKind::ParentChild && from == x.id@ && to == y.id@
                } else if y.birth_year < x.birth_year {
                    kind == ShrineKinshipEdgeKind::ParentChild && from == y.id@ && to == x.id@
                } else {
                    kind == ShrineKinshipEdgeKind::WeakParentChild && in_id_order(from, to, oid, b)
                }
            }
        },
        _ => false,
    }
}

/// Tie `kind`, `from`, `to` records relationship `n` of the historical
/// profile of officer `k`.
pub open spec fn records_profile_relationship(game: GameState, kind: ShrineKinshipEdgeKind, from: Seq<char>, to: Seq<char>, k: int, n: int) -> bool {
    &&& 0 <= k < game.officers@.len()
    &&& game.officers@[k].profile is Some
    &&& 0 <= n < game.officers@[k].profile->Some_0.relationships@.len()
    &&& relationship_records(game, game.officers@[k].id@, game.officers@[k].profile->Some_0.relationships@[n], kind, from, to)
}

proof fn lemma_key_parts(e: ShrineKinshipEdge, kind: ShrineKinshipEdgeKind, from: Seq<char>, to: Seq<char>)
    requires
        edge_key(e) == tie_key(kind, from, to),
    ensures
        e.kind == kind,
        e.from_id@ == from,
        e.to_id@ == to,
{
    assert(edge_key(e)[0] == kind_code(kind));
    assert(kind_code(e.kind)[0] == kind_code(kind)[0]);
    assert(edge_key(e)[1] == from);
    assert(edge_key(e)[2] == to);
}

proof fn lemma_marriage_ties_source(ms: Seq<crate::game::Marriage>, m0: Map<Seq<Seq<char>>, ShrineRelationshipSource>, key: Seq<Seq<char>>)
    requires
        marriage_ties(ms, m0).contains_key(key),
    ensures
        m0.contains_key(key) || exists|q: int| 0 <= q < ms.len() && key == #[trigger] tie_key(
            ShrineKinshipEdgeKind::Spouse,
            ordered_pair(ms[q].husband_id@, ms[q].wife_id@).0,
            ordered_pair(ms[q].husband_id@, ms[q].wife_id@).1,
        ),
    decreases ms.len(),
{
    if ms.len() > 0 {
        let q = ms.len() - 1;
        let k0 = tie_key(ShrineKinshipEdgeKind::Spouse, ordered_pair(ms[q].husband_id@, ms[q].wife_id@).0, ordered_pair(ms[q].husband_id@, ms[q].wife_id@).1);
        if key != k0 {
            lemma_marriage_ties_source(ms.drop_last(), m0, key);
            if !m0.contains_key(key) {
                let q2 = choose|q2: int| 0 <= q2 < ms.drop_last().len() && key == #[trigger] tie_key(
                    ShrineKinshipEdgeKind::Spouse,
                    ordered_pair(ms.drop_last()[q2].husband_id@, ms.drop_last()[q2].wife_id@).0,
                    ordered_pair(ms.drop_last()[q2].husband_id@, ms.drop_last()[q2].wife_id@).1,
                );
                assert(ms.drop_last()[q2] == ms[q2]);
            }
        }
    }
}

proof fn lemma_family_ties_source(game: GameState, fs: Seq<crate::game::FamilyRelationship>, m0: Map<Seq<Seq<char>>, ShrineRelationshipSource>, key: Seq<Seq<char>>)
    requires
        family_ties(game, fs, m0).contains_key(key),
    ensures
        m0.contains_key(key) || exists|q: int| 0 <= q < fs.len() && officer_index(game.officers@, fs[q].parent_id@) is Some
            && officer_index(game.officers@, fs[q].child_id@) is Some
            && key == #[trigger] tie_key(ShrineKinshipEdgeKind::ParentChild, fs[q].parent_id@, fs[q].child_id@),
    decreases fs.len(),
{
    if fs.len() > 0 {
        let q = fs.len() - 1;
        let f = fs[q];
        let known = officer_index(game.officers@, f.parent_id@) is Some && officer_index(game.officers@, f.child_id@) is Some;
        if !(known && key == tie_key(ShrineKinshipEdgeKind::ParentChild, f.parent_id@, f.child_id@)) {
            lemma_family_ties_source(game, fs.drop_last(), m0, key);
            if !m0.contains_key(key) {
                let q2 = choose|q2: int| 0 <= q2 < fs.drop_last().len() && officer_index(game.officers@, fs.drop_last()[q2].parent_id@) is Some
                    && officer_index(game.officers@, fs.drop_last()[q2].child_id@) is Some
                    && key == #[trigger] tie_key(ShrineKinshipEdgeKind::ParentChild, fs.drop_last()[q2].parent_id@, fs.drop_last()[q2].child_id@);
                assert(fs.drop_last()[q2] == fs[q2]);
            }
        }
    }
}

proof fn lemma_historical_tie_source(game: GameState, oid: Seq<char>, r: crate::game::OfficerRelationship, m: Map<Seq<Seq<char>>, ShrineRelationshipSource>, key: Seq<Seq<char>>)
    requires
        historical_tie(game, oid, r, m).contains_key(key),
        !m.contains_key(key),
        officer_index(game.officers@, oid) is Some,
    ensures
        exists|kind: ShrineKinshipEdgeKind, from: Seq<char>, to: Seq<char>| key == #[trigger] tie_key(kind, from, to)
            && relationship_records(game, oid, r, kind, from, to),
{
    let os = game.officers@;
    crate::game::lemma_officer_index(os, oid);
    crate::game::lemma_officer_index(os, r.target_id@);
    let p = ordered_pair(oid, r.target_id@);
    match r.kind {
        OfficerRelationshipKind::Spouse => {
            assert(relationship_records(game, oid, r, ShrineKinshipEdgeKind::Spouse, p.0, p.1));
        },
        OfficerRelationshipKind::ParentChild | OfficerRelationshipKind::AdoptiveParentChild => {
            match parent_child_direction(game, oid, r.target_id@) {
                Some(d) => {
                    assert(relationship_records(game, oid, r, ShrineKinshipEdgeKind::ParentChild, d.0, d.1));
                },
                None => {
                    assert(relationship_records(game, oid, r, ShrineKinshipEdgeKind::WeakParentChild, p.0, p.1));
                },
            }
        },
        _ => {},
    }
}

proof fn lemma_relationship_ties_source(game: GameState, oid: Seq<char>, rs: Seq<crate::game::OfficerRelationship>, m0: Map<Seq<Seq<char>>, ShrineRelationshipSource>, key: Seq<Seq<char>>)
    requires
        relationship_ties(game, oid, rs, m0).contains_key(key),
        officer_index(game.officers@, oid) is Some,
    ensures
        m0.contains_key(key) || exists|n: int, kind: ShrineKinshipEdgeKind, from: Seq<char>, to: Seq<char>| 0 <= n < rs.len()
            && key == #[trigger] tie_key(kind, from, to) && #[trigger] relationship_records(game, oid, rs[n], kind, from, to),
    decreases rs.len(),
{
    if rs.len() > 0 {
        let before = relationship_ties(game, oid, rs.drop_last(), m0);
        if before.contains_key(key) {
            lemma_relationship_ties_source(game, oid, rs.drop_last(), m0, key);
            if !m0.contains_key(key) {
                let (n, kind, from, to) = choose|n: int, kind: ShrineKinshipEdgeKind, from: Seq<char>, to: Seq<char>| 0 <= n < rs.drop_last().len()
                    && key == #[trigger] tie_key(kind, from, to) && #[trigger] relationship_records(game, oid, rs.drop_last()[n], kind, from, to);
                assert(rs.drop_last()[n] == rs[n]);
                assert(relationship_records(game, oid, rs[n], kind, from, to));
            }
        } else {
            lemma_historical_tie_source(game, oid, rs.last(), before, key);
            let (kind, from, to) = choose|kind: ShrineKinshipEdgeKind, from: Seq<char>, to: Seq<char>| key == #[trigger] tie_key(kind, from, to)
                && relationship_records(game, oid, rs.last(), kind, from, to);
            assert(relationship_records(game, oid, rs[rs.len() - 1], kind, from, to));
        }
    }
}

proof fn lemma_profile_ties_source(game: GameState, os: Seq<Officer>, m0: Map<Seq<Seq<char>>, ShrineRelationshipSource>, key: Seq<Seq<char>>)
    requires
        profile_ties(game, os, m0).contains_key(key),
        forall|k: int| 0 <= k < os.len() ==> officer_index(game.officers@, #[trigger] os[k].id@) is Some,
    ensures
        m0.contains_key(key) || exists|k: int, n: int, kind: ShrineKinshipEdgeKind, from: Seq<char>, to: Seq<char>| 0 <= k < os.len()
            && os[k].profile is Some && 0 <= n < os[k].profile->Some_0.relationships@.len()
            && key == #[trigger] tie_key(kind, from, to)
            && #[trigger] relationship_records(game, os[k].id@, os[k].profile->Some_0.relationships@[n], kind, from, to),
    decreases os.len(),
{
    if os.len() > 0 {
        let before = profile_ties(game, os.drop_last(), m0);
        let last = os.len() - 1;
        assert forall|k: int| 0 <= k < os.drop_last().len() implies officer_index(game.officers@, #[trigger] os.drop_last()[k].id@) is Some by {
            assert(os.drop_last()[k] == os[k]);
        }
        if before.contains_key(key) {
            lemma_profile_ties_source(game, os.drop_last(), m0, key);
            if !m0.contains_key(key) {
                let (k, n, kind, from, to) = choose|k: int, n: int, kind: ShrineKinshipEdgeKind, from: Seq<char>, to: Seq<char>| 0 <= k < os.drop_last().len()
                    && os.drop_last()[k].profile is Some && 0 <= n < os.drop_last()[k].profile->Some_0.relationships@.len()
                    && key == #[trigger] tie_key(kind, from, to)
                    && #[trigger] relationship_records(game, os.drop_last()[k].id@, os.drop_last()[k].profile->Some_0.relationships@[n], kind, from, to);
                assert(os.drop_last()[k] == os[k]);
                assert(relationship_records(game, os[k].id@, os[k].profile->Some_0.relationships@[n], kind, from, to));
            }
        } else {
            let p = os[last].profile->Some_0;
            assert(os.last() == os[last]);
            lemma_relationship_ties_source(game, os[last].id@, p.relationships@, before, key);
            let (n, kind, from, to) = choose|n: int, kind: ShrineKinshipEdgeKind, from: Seq<char>, to: Seq<char>| 0 <= n < p.relationships@.len()
                && key == #[trigger] tie_key(kind, from, to) && #[trigger] relationship_records(game, os[last].id@, p.relationships@[n], kind, from, to);
            assert(relationship_records(game, os[last].id@, os[last].profile->Some_0.relationships@[n], kind, from, to));
        }
    }
}

/// Every listed tie records something of the game: a marriage, a family tie
/// made in play between two of its officers, or a spouse, parent or
/// adoptive-parent relationship of an officer's historical profile.
pub proof fn lemma_listed_ties_have_a_record(game: GameState, es: Seq<ShrineKinshipEdge>, e: int)
    requires
        lists_ties(es, kinship_ties(game)),
        0 <= e < es.len(),
    ensures
        (exists|q: int| #[trigger] records_marriage(game, es[e].kind, es[e].from_id@, es[e].to_id@, q))
            || (exists|q: int| #[trigger] records_family_tie(game, es[e].kind, es[e].from_id@, es[e].to_id@, q))
            || (exists|k: int, n: int| #[trigger] records_profile_relationship(game, es[e].kind, es[e].from_id@, es[e].to_id@, k, n)),
{
    let key = edge_key(es[e]);
    let ms = game.marriages@;
    let fs = game.family_relationships@;
    let m1 = marriage_ties(ms, Map::empty());
    let m2 = family_ties(game, fs, m1);
    assert(kinship_ties(game).contains_key(key));
    assert forall|k: int| 0 <= k < game.officers@.len() implies officer_index(game.officers@, #[trigger] game.officers@[k].id@) is Some by {
        crate::game::lemma_officer_index(game.officers@, game.officers@[k].id@);
    }
    lemma_profile_ties_source(game, game.officers@, m2, key);
    if m2.contains_key(key) {
        lemma_family_ties_source(game, fs, m1, key);
        if m1.contains_key(key) {
            lemma_marriage_ties_source(ms, Map::empty(), key);
            let q = choose|q: int| 0 <= q < ms.len() && key == #[trigger] tie_key(
                ShrineKinshipEdgeKind::Spouse,
                ordered_pair(ms[q].husband_id@, ms[q].wife_id@).0,
                ordered_pair(ms[q].husband_id@, ms[q].wife_id@).1,
            );
            let p = ordered_pair(ms[q].husband_id@, ms[q].wife_id@);
            lemma_key_parts(es[e], ShrineKinshipEdgeKind::Spouse, p.0, p.1);
            assert(records_marriage(game, es[e].kind, es[e].from_id@, es[e].to_id@, q));
        } else {
            let q = choose|q: int| 0 <= q < fs.len() && officer_index(game.officers@, fs[q].parent_id@) is Some
                && officer_index(game.officers@, fs[q].child_id@) is Some
                && key == #[trigger] tie_key(ShrineKinshipEdgeKind::ParentChild, fs[q].parent_id@, fs[q].child_id@);
            lemma_key_parts(es[e], ShrineKinshipEdgeKind::ParentChild, fs[q].parent_id@, fs[q].child_id@);
            assert(records_family_tie(game, es[e].kind, es[e].from_id@, es[e].to_id@, q));
        }
    } else {
        let os = game.officers@;
        let (k, n, kind, from, to) = choose|k: int, n: int, kind: ShrineKinshipEdgeKind, from: Seq<char>, to: Seq<char>| 0 <= k < os.len()
            && os[k].profile is Some && 0 <= n < os[k].profile->Some_0.relationships@.len()
            && key == #[trigger] tie_key(kind, from, to)
            && #[trigger] relationship_records(game, os[k].id@, os[k].profile->Some_0.relationships@[n], kind, from, to);
        lemma_key_parts(es[e], kind, from, to);
        assert(records_profile_relationship(game, es[e].kind, es[e].from_id@, es[e].to_id@, k, n));
    }
}

/// Every kinship tie of the game, listed by kind and identifiers, each once.
pub fn shrine_all_kinship_edges(game: &GameState) -> (edges: Vec<ShrineKinshipEdge>)
    ensures
        lists_ties(edges@, kinship_ties(*game)),
{
    let mut edges: Vec<ShrineKinshipEdge> = Vec::new();
    let ghost ms = game.marriages@;
    let mut i: usize = 0;
    while i < game.marriages.len()
        invariant
            ms == game.marriages@,
            i <= ms.len(),
            lists_ties(edges@, marriage_ties(ms.take(i as int), Map::empty())),
        decreases ms.len() - i,
    {
        assert(ms.take(i as int + 1).drop_last() =~= ms.take(i as int));
        assert(ms.take(i as int + 1).last() == ms[i as int]);
        let marriage = &game.marriages[i];
        let (first, second) = sorted_pair(marriage.husband_id.as_str(), marriage.wife_id.as_str());
        shrine_insert_edge_source(
            &mut edges,
            ShrineKinshipEdgeKind::Spouse,
            first,
            second,
            ShrineRelationshipSource::Dynamic,
            Ghost(marriage_ties(ms.take(i as int), Map::empty())),
        );
        i = i + 1;
    }
    assert(ms.take(ms.len() as int) =~= ms);
    let ghost m1 = marriage_ties(ms, Map::empty());
    let ghost fs = game.family_relationships@;
    let mut j: usize = 0;
    while j < game.family_relationships.len()
        invariant
            fs == game.family_relationships@,
            j <= fs.len(),
            lists_ties(edges@, family_ties(*game, fs.take(j as int), m1)),
        decreases fs.len() - j,
    {
        assert(fs.take(j as int + 1).drop_last() =~= fs.take(j as int));
        assert(fs.take(j as int + 1).last() == fs[j as int]);
        let rel = &game.family_relationships[j];
        let parent_known = game.find_officer(rel.parent_id.as_str()).is_some();
        let child_known = game.find_officer(rel.child_id.as_str()).is_some();
        if parent_known && child_known {
            shrine_insert_edge_source(
                &mut edges,
                ShrineKinshipEdgeKind::ParentChild,
                owned(rel.parent_id.as_str()),
                owned(rel.child_id.as_str()),
                ShrineRelationshipSource::Dynamic,
                Ghost(family_ties(*game, fs.take(j as int), m1)),
            );
        }
        j = j + 1;
    }
    assert(fs.take(fs.len() as int) =~= fs);
    let ghost m2 = family_ties(*game, fs, m1);
    let ghost os = game.officers@;
    let mut k: usize = 0;
    while k < game.officers.len()
        invariant
            os == game.officers@,
            k <= os.len(),
            lists_ties(edges@, profile_ties(*game, os.take(k as int), m2)),
        decreases os.len() - k,
    {
        assert(os.take(k as int + 1).drop_last() =~= os.take(k as int));
        assert(os.take(k as int + 1).last() == os[k as int]);
        let officer = &game.officers[k];
        match &officer.profile {
            None => {},
            Some(profile) => {
                let ghost base = profile_ties(*game, os.take(k as int), m2);
                let ghost rs = profile.relationships@;
                let mut r: usize = 0;
                while r < profile.relationships.len()
                    invariant
                        rs == profile.relationships@,
                        r <= rs.len(),
                        lists_ties(edges@, relationship_ties(*game, officer.id@, rs.take(r as int), base)),
                    decreases rs.len() - r,
                {
                    assert(rs.take(r as int + 1).drop_last() =~= rs.take(r as int));
                    assert(rs.take(r as int + 1).last() == rs[r as int]);
                    let ghost cur = relationship_ties(*game, officer.id@, rs.take(r as int), base);
                    let relationship = &profile.relationships[r];
                    if game.find_officer(relationship.target_id.as_str()).is_some() {
                        match relationship.kind {
                            OfficerRelationshipKind::Spouse => {
                                let (first, second) = sorted_pair(officer.id.as_str(), relationship.target_id.as_str());
                                shrine_insert_edge_source(
                                    &mut edges,
                                    ShrineKinshipEdgeKind::Spouse,
                                    first,
                                    second,
                                    ShrineRelationshipSource::Historical,
                                    Ghost(cur),
                                );
                            },
                            OfficerRelationshipKind::ParentChild | OfficerRelationshipKind::AdoptiveParentChild => {
                                match historical_parent_child_direction(game, officer.id.as_str(), relationship.target_id.as_str()) {
                                    Some((parent_id, child_id)) => {
                                        shrine_insert_edge_source(
                                            &mut edges,
                                            ShrineKinshipEdgeKind::ParentChild,
                                            parent_id,
                                            child_id,
                                            ShrineRelationshipSource::Historical,
                                            Ghost(cur),
                                        );
                                    },
                                    None => {
                                        let (first, second) = sorted_pair(officer.id.as_str(), relationship.target_id.as_str());
                                        shrine_insert_edge_source(
                                            &mut edges,
                                            ShrineKinshipEdgeKind::WeakParentChild,
                                            first,
                                            second,
                                            ShrineRelationshipSource::Historical,
                                            Ghost(cur),
                                        );
                                    },
                                }
                            },
                            _ => {},
                        }
                    }
                    r = r + 1;
                }
                assert(rs.take(rs.len() as int) =~= rs);
            },
        }
        k = k + 1;
    }
    assert(os.take(os.len() as int) =~= os);
    edges
}

/// The name shown for officer `id`: its name, or the identifier itself.
pub open spec fn display_name(game: GameState, id: Seq<char>) -> Seq<char> {
    match officer_index(game.officers@, id) {
        Some(i) => game.officers@[i].name@,
        None => id,
    }
}

/// The name shown for officer `officer_id`.
pub fn officer_display_name(game: &GameState, officer_id: &str) -> (s: String)
    ensures
        s@ == display_name(*game, officer_id@),
{
    match game.find_officer(officer_id) {
        Some(i) => owned(game.officers[i].name.as_str()),
        None => owned(officer_id),
    }
}

/// A line of a faction's marriage register.
#[derive(Clone, Debug)]
pub struct ShrineMarriageEntry {
    pub husband_id: String,
    pub wife_id: String,
    pub husband_name: String,
    pub wife_name: String,
    pub date: Option<(i32, u8)>,
    pub source: ShrineRelationshipSource,
}

/// The key of a register line: husband, then wife.
pub open spec fn entry_key(e: ShrineMarriageEntry) -> Seq<Seq<char>> {
    seq![e.husband_id@, e.wife_id@]
}

/// What the register records of a couple: the date of its first marriage in
/// play, if any, and where the marriage is known from.
pub type CoupleRecord = (Option<(i32, u8)>, ShrineRelationshipSource);

/// The register lines `es` are ordered by couple, each couple once, name
/// their people by their shown names, and `m` gives exactly their records.
pub open spec fn lists_couples(game: GameState, es: Seq<ShrineMarriageEntry>, m: Map<Seq<Seq<char>>, CoupleRecord>) -> bool {
    &&& forall|i: int, j: int| 0 <= i < j < es.len() ==> keys_less(entry_key(#[trigger] es[i]), entry_key(#[trigger] es[j]))
    &&& forall|i: int| 0 <= i < es.len() ==> m.contains_key(entry_key(#[trigger] es[i])) && m[entry_key(es[i])] == (
        es[i].date,
        es[i].source,
    ) && es[i].husband_name@ == display_name(game, es[i].husband_id@) && es[i].wife_name@ == display_name(game, es[i].wife_id@)
    &&& forall|k: Seq<Seq<char>>| #[trigger] m.contains_key(k) ==> exists|i: int| 0 <= i < es.len() && entry_key(#[trigger] es[i]) == k
}

/// `m` with the couple `k` recorded: a marriage in play (with its date) or a
/// historical one.
pub open spec fn with_couple(m: Map<Seq<Seq<char>>, CoupleRecord>, k: Seq<Seq<char>>, date: Option<(i32, u8)>, source: ShrineRelationshipSource) -> Map<Seq<Seq<char>>, CoupleRecord> {
    if m.contains_key(k) {
        m.insert(k, (if m[k].0 is Some { m[k].0 } else { date }, merged_source(m[k].1, source)))
    } else {
        m.insert(k, (date, source))
    }
}

fn couple_key_less(h: &str, w: &str, e: &ShrineMarriageEntry) -> (r: (bool, bool))
    ensures
        r.0 == keys_less(entry_key(*e), seq![h@, w@]),
        r.1 == (entry_key(*e) == seq![h@, w@]),
{
    let ghost a = entry_key(*e);
    let ghost b = seq![h@, w@];
    proof {
        reveal_with_fuel(keys_less, 3);
        assert(a.drop_first() =~= seq![e.wife_id@]);
        assert(b.drop_first() =~= seq![w@]);
        assert(a.drop_first().drop_first() =~= Seq::<Seq<char>>::empty());
    }
    let h_less = str_less(e.husband_id.as_str(), h);
    let h_same = str_eq(e.husband_id.as_str(), h);
    let w_less = str_less(e.wife_id.as_str(), w);
    let w_same = str_eq(e.wife_id.as_str(), w);
    proof {
        if h_same && w_same {
            assert(a =~= b);
        }
        if a == b {
            assert(a[0] == b[0] && a[1] == b[1]);
        }
    }
    (h_less || (h_same && w_less), h_same && w_same)
}

fn couple_position(es: &Vec<ShrineMarriageEntry>, h: &str, w: &str) -> (r: (usize, bool))
    ensures
        r.0 <= es@.len(),
        forall|i: int| 0 <= i < r.0 ==> keys_less(entry_key(#[trigger] es@[i]), seq![h@, w@]),
        r.0 < es@.len() ==> !keys_less(entry_key(es@[r.0 as int]), seq![h@, w@]),
        r.1 == (r.0 < es@.len() && entry_key(es@[r.0 as int]) == seq![h@, w@]),
{
    let mut p: usize = 0;
    while p < es.len()
        invariant
            p <= es@.len(),
            forall|i: int| 0 <= i < p ==> keys_less(entry_key(#[trigger] es@[i]), seq![h@, w@]),
        decreases es@.len() - p,
    {
        let (less, eq) = couple_key_less(h, w, &es[p]);
        if !less {
            return (p, eq);
        }
        p = p + 1;
    }
    (p, false)
}

/// Records the couple `(husband_id, wife_id)` in the register.
fn record_couple(
    game: &GameState,
    entries: &mut Vec<ShrineMarriageEntry>,
    husband_id: String,
    wife_id: String,
    date: Option<(i32, u8)>,
    source: ShrineRelationshipSource,
    Ghost(m): Ghost<Map<Seq<Seq<char>>, CoupleRecord>>,
)
    requires
        lists_couples(*game, old(entries)@, m),
    ensures
        lists_couples(*game, final(entries)@, with_couple(m, seq![husband_id@, wife_id@], date, source)),
{
    let ghost k = seq![husband_id@, wife_id@];
    let ghost es = entries@;
    let (p, same) = couple_position(entries, husband_id.as_str(), wife_id.as_str());
    let ghost m2 = with_couple(m, k, date, source);
    if p < entries.len() && same {
        let old_entry = entries.remove(p);
        assert(old_entry == es[p as int]);
        assert(entries@ == es.remove(p as int));
        let new_date = match old_entry.date {
            Some(d) => Some(d),
            None => date,
        };
        let merged = merge_relationship_source(old_entry.source, source);
        let new_entry = ShrineMarriageEntry {
            husband_id: old_entry.husband_id,
            wife_id: old_entry.wife_id,
            husband_name: old_entry.husband_name,
            wife_name: old_entry.wife_name,
            date: new_date,
            source: merged,
        };
        let ghost ne = new_entry;
        entries.insert(p, new_entry);
        proof {
            assert(entries@ =~= es.update(p as int, ne));
            assert(m.contains_key(k));
            assert forall|i: int, j: int| 0 <= i < j < entries@.len() implies keys_less(entry_key(#[trigger] entries@[i]), entry_key(#[trigger] entries@[j])) by {
                assert(entry_key(entries@[i]) == entry_key(es[i]));
                assert(entry_key(entries@[j]) == entry_key(es[j]));
            }
            assert forall|i: int| 0 <= i < entries@.len() implies m2.contains_key(entry_key(#[trigger] entries@[i])) && m2[entry_key(entries@[i])] == (
                entries@[i].date,
                entries@[i].source,
            ) && entries@[i].husband_name@ == display_name(*game, entries@[i].husband_id@) && entries@[i].wife_name@ == display_name(*game, entries@[i].wife_id@) by {
                if i != p {
                    assert(entry_key(es[i]) != k) by {
                        if i < p {
                            lemma_keys_less(entry_key(es[i]), k, k);
                        } else {
                            lemma_keys_less(k, entry_key(es[i]), k);
                        }
                    }
                }
            }
            assert forall|kk: Seq<Seq<char>>| #[trigger] m2.contains_key(kk) implies exists|i: int| 0 <= i < entries@.len() && entry_key(#[trigger] entries@[i]) == kk by {
                let i = choose|i: int| 0 <= i < es.len() && entry_key(#[trigger] es[i]) == kk;
                assert(entry_key(entries@[i]) == kk);
            }
        }
    } else {
        proof {
            if p < es.len() {
                lemma_keys_less(entry_key(es[p as int]), k, k);
            }
            assert(!m.contains_key(k)) by {
                if m.contains_key(k) {
                    let i = choose|i: int| 0 <= i < es.len() && entry_key(#[trigger] es[i]) == k;
                    if i < p {
                        lemma_keys_less(k, k, k);
                    } else if i > p {
                        lemma_keys_less(entry_key(es[p as int]), k, k);
                        lemma_keys_less(k, entry_key(es[p as int]), k);
                    }
                }
            }
        }
        let husband_name = officer_display_name(game, husband_id.as_str());
        let wife_name = officer_display_name(game, wife_id.as_str());
        let e = ShrineMarriageEntry { husband_id, wife_id, husband_name, wife_name, date, source };
        entries.insert(p, e);
        proof {
            assert(entries@ =~= es.insert(p as int, e));
            assert(entry_key(e) =~= k);
            assert forall|i: int, j: int| 0 <= i < j < entries@.len() implies keys_less(entry_key(#[trigger] entries@[i]), entry_key(#[trigger] entries@[j])) by {
                if j < p {
                } else if j == p {
                } else if i < p {
                    assert(entries@[j] == es[j - 1]);
                    lemma_keys_less(entry_key(es[i]), k, entry_key(es[j - 1]));
                    if j - 1 == p {
                        lemma_keys_less(k, entry_key(es[j - 1]), k);
                    } else {
                        lemma_keys_less(k, entry_key(es[p as int]), entry_key(es[j - 1]));
                    }
                } else if i == p {
                    assert(entries@[j] == es[j - 1]);
                    if j - 1 > p {
                        lemma_keys_less(k, entry_key(es[p as int]), entry_key(es[j - 1]));
                    }
                } else {
                    assert(entries@[i] == es[i - 1]);
                    assert(entries@[j] == es[j - 1]);
                }
            }
            assert forall|i: int| 0 <= i < entries@.len() implies m2.contains_key(entry_key(#[trigger] entries@[i])) && m2[entry_key(entries@[i])] == (
                entries@[i].date,
                entries@[i].source,
            ) && entries@[i].husband_name@ == display_name(*game, entries@[i].husband_id@) && entries@[i].wife_name@ == display_name(*game, entries@[i].wife_id@) by {
                if i < p {
                    assert(entries@[i] == es[i]);
                    assert(entry_key(es[i]) != k) by {
                        lemma_keys_less(k, k, k);
                    }
                } else if i > p {
                    assert(entries@[i] == es[i - 1]);
                    assert(entry_key(es[i - 1]) != k);
                }
            }
            assert forall|kk: Seq<Seq<char>>| #[trigger] m2.contains_key(kk) implies exists|i: int| 0 <= i < entries@.len() && entry_key(#[trigger] entries@[i]) == kk by {
                if kk == k {
                    assert(entry_key(entries@[p as int]) == kk);
                } else {
                    let i = choose|i: int| 0 <= i < es.len() && entry_key(#[trigger] es[i]) == kk;
                    if i < p {
                        assert(entry_key(entries@[i]) == kk);
                    } else {
                        assert(entries@[i + 1] == es[i]);
                        assert(entry_key(entries@[i + 1]) == kk);
                    }
                }
            }
        }
    }
}

/// The couples that marriages in play `ms` concerning faction `fid` add to `m0`.
pub open spec fn dynamic_couples(game: GameState, fid: Seq<char>, ms: Seq<crate::game::Marriage>, m0: Map<Seq<Seq<char>>, CoupleRecord>) -> Map<Seq<Seq<char>>, CoupleRecord>
    decreases ms.len(),
{
    if ms.len() == 0 {
        m0
    } else {
        let m = dynamic_couples(game, fid, ms.drop_last(), m0);
        let x = ms.last();
        if concerns_faction(game, fid, x.husband_id@, x.wife_id@) {
            let c = couple_key(game, x.husband_id@, x.wife_id@);
            with_couple(m, seq![c.0, c.1], Some((x.year, x.month)), ShrineRelationshipSource::Dynamic)
        } else {
            m
        }
    }
}

/// The couples that officer `oid`'s historical spouses add to `m0`.
pub open spec fn historical_couples(game: GameState, fid: Seq<char>, oid: Seq<char>, rs: Seq<crate::game::OfficerRelationship>, m0: Map<Seq<Seq<char>>, CoupleRecord>) -> Map<Seq<Seq<char>>, CoupleRecord>
    decreases rs.len(),
{
    if rs.len() == 0 {
        m0
    } else {
        let m = historical_couples(game, fid, oid, rs.drop_last(), m0);
        let r = rs.last();
        if r.kind == OfficerRelationshipKind::Spouse && officer_index(game.officers@, r.target_id@) is Some
            && concerns_faction(game, fid, oid, r.target_id@) {
            let c = couple_key(game, oid, r.target_id@);
            with_couple(m, seq![c.0, c.1], None, ShrineRelationshipSource::Historical)
        } else {
            m
        }
    }
}

/// The couples that the profiles of officers `os` add to `m0`.
pub open spec fn profile_couples(game: GameState, fid: Seq<char>, os: Seq<Officer>, m0: Map<Seq<Seq<char>>, CoupleRecord>) -> Map<Seq<Seq<char>>, CoupleRecord>
    decreases os.len(),
{
    if os.len() == 0 {
        m0
    } else {
        let m = profile_couples(game, fid, os.drop_last(), m0);
        match os.last().profile {
            Some(p) => historical_couples(game, fid, os.last().id@, p.relationships@, m),
            None => m,
        }
    }
}

/// The marriage register of faction `fid`: marriages in play, then the
/// historical spouses of known officers, for couples one of whom serves it.
pub open spec fn couple_register(game: GameState, fid: Seq<char>) -> Map<Seq<Seq<char>>, CoupleRecord> {
    profile_couples(game, fid, game.officers@, dynamic_couples(game, fid, game.marriages@, Map::empty()))
}

/// The marriage register of faction `faction_id`, by husband and wife.
pub fn shrine_marriage_entries(game: &GameState, faction_id: &str) -> (entries: Vec<ShrineMarriageEntry>)
    ensures
        lists_couples(*game, entries@, couple_register(*game, faction_id@)),
{
    let mut entries: Vec<ShrineMarriageEntry> = Vec::new();
    let ghost ms = game.marriages@;
    let ghost fid = faction_id@;
    let mut i: usize = 0;
    while i < game.marriages.len()
        invariant
            ms == game.marriages@,
            fid == faction_id@,
            i <= ms.len(),
            lists_couples(*game, entries@, dynamic_couples(*game, fid, ms.take(i as int), Map::empty())),
        decreases ms.len() - i,
    {
        assert(ms.take(i as int + 1).drop_last() =~= ms.take(i as int));
        assert(ms.take(i as int + 1).last() == ms[i as int]);
        let marriage = &game.marriages[i];
        if marriage_relevant_to_faction(game, faction_id, marriage.husband_id.as_str(), marriage.wife_id.as_str()) {
            let (h, w) = marriage_pair_ids(game, marriage.husband_id.as_str(), marriage.wife_id.as_str());
            record_couple(
                game,
                &mut entries,
                h,
                w,
                Some((marriage.year, marriage.month)),
                ShrineRelationshipSource::Dynamic,
                Ghost(dynamic_couples(*game, fid, ms.take(i as int), Map::empty())),
            );
        }
        i = i + 1;
    }
    assert(ms.take(ms.len() as int) =~= ms);
    let ghost m1 = dynamic_couples(*game, fid, ms, Map::empty());
    let ghost os = game.officers@;
    let mut k: usize = 0;
    while k < game.officers.len()
        invariant
            os == game.officers@,
            fid == faction_id@,
            k <= os.len(),
            lists_couples(*game, entries@, profile_couples(*game, fid, os.take(k as int), m1)),
        decreases os.len() - k,
    {
        assert(os.take(k as int + 1).drop_last() =~= os.take(k as int));
        assert(os.take(k as int + 1).last() == os[k as int]);
        let officer = &game.officers[k];
        match &officer.profile {
            None => {},
            Some(profile) => {
                let ghost base = profile_couples(*game, fid, os.take(k as int), m1);
                let ghost rs = profile.relationships@;
                let mut r: usize = 0;
                while r < profile.relationships.len()
                    invariant
                        rs == profile.relationships@,
                        fid == faction_id@,
                        r <= rs.len(),
                        lists_couples(*game, entries@, historical_couples(*game, fid, officer.id@, rs.take(r as int), base)),
                    decreases rs.len() - r,
                {
                    assert(rs.take(r as int + 1).drop_last() =~= rs.take(r as int));
                    assert(rs.take(r as int + 1).last() == rs[r as int]);
                    let relationship = &profile.relationships[r];
                    if relationship.kind == OfficerRelationshipKind::Spouse && game.find_officer(relationship.target_id.as_str()).is_some()
                        && marriage_relevant_to_faction(game, faction_id, officer.id.as_str(), relationship.target_id.as_str()) {
                        let (h, w) = marriage_pair_ids(game, officer.id.as_str(), relationship.target_id.as_str());
                        record_couple(
                            game,
                            &mut entries,
                            h,
                            w,
                            None,
                            ShrineRelationshipSource::Historical,
                            Ghost(historical_couples(*game, fid, officer.id@, rs.take(r as int), base)),
                        );
                    }
                    r = r + 1;
                }
                assert(rs.take(rs.len() as int) =~= rs);
            },
        }
        k = k + 1;
    }
    assert(os.take(os.len() as int) =~= os);
    entries
}

/// The number of ties recorded in the historical profiles of `os`.
pub open spec fn profile_relationship_count(os: Seq<Officer>) -> int
    decreases os.len(),
{
    if os.len() == 0 {
        0
    } else {
        profile_relationship_count(os.drop_last()) + match os.last().profile {
            Some(p) => p.relationships@.len() as int,
            None => 0int,
        }
    }
}

/// The number of tie records of a game: marriages, family ties and the ties
/// of historical profiles.
pub open spec fn tie_record_count(game: GameState) -> int {
    game.marriages@.len() + game.family_relationships@.len() + profile_relationship_count(game.officers@)
}

type TieMap = Map<Seq<Seq<char>>, ShrineRelationshipSource>;

proof fn lemma_with_tie_size(m: TieMap, k: Seq<Seq<char>>, src: ShrineRelationshipSource)
    requires
        m.dom().finite(),
    ensures
        with_tie(m, k, src).dom().finite(),
        with_tie(m, k, src).dom().len() <= m.dom().len() + 1,
{
    assert(with_tie(m, k, src).dom() =~= m.dom().insert(k));
}

proof fn lemma_marriage_ties_size(ms: Seq<crate::game::Marriage>, m0: TieMap)
    requires
        m0.dom().finite(),
    ensures
        marriage_ties(ms, m0).dom().finite(),
        marriage_ties(ms, m0).dom().len() <= m0.dom().len() + ms.len(),
    decreases ms.len(),
{
    if ms.len() > 0 {
        lemma_marriage_ties_size(ms.drop_last(), m0);
        let p = ordered_pair(ms.last().husband_id@, ms.last().wife_id@);
        lemma_with_tie_size(marriage_ties(ms.drop_last(), m0), tie_key(ShrineKinshipEdgeKind::Spouse, p.0, p.1), ShrineRelationshipSource::Dynamic);
    }
}

proof fn lemma_family_ties_size(game: GameState, fs: Seq<crate::game::FamilyRelationship>, m0: TieMap)
    requires
        m0.dom().finite(),
    ensures
        family_ties(game, fs, m0).dom().finite(),
        family_ties(game, fs, m0).dom().len() <= m0.dom().len() + fs.len(),
    decreases fs.len(),
{
    if fs.len() > 0 {
        lemma_family_ties_size(game, fs.drop_last(), m0);
        let f = fs.last();
        lemma_with_tie_size(family_ties(game, fs.drop_last(), m0), tie_key(ShrineKinshipEdgeKind::ParentChild, f.parent_id@, f.child_id@), ShrineRelationshipSource::Dynamic);
    }
}

proof fn lemma_relationship_ties_size(game: GameState, oid: Seq<char>, rs: Seq<crate::game::OfficerRelationship>, m0: TieMap)
    requires
        m0.dom().finite(),
    ensures
        relationship_ties(game, oid, rs, m0).dom().finite(),
        relationship_ties(game, oid, rs, m0).dom().len() <= m0.dom().len() + rs.len(),
    decreases rs.len(),
{
    if rs.len() > 0 {
        lemma_relationship_ties_size(game, oid, rs.drop_last(), m0);
        let m = relationship_ties(game, oid, rs.drop_last(), m0);
        let r = rs.last();
        let p = ordered_pair(oid, r.target_id@);
        lemma_with_tie_size(m, tie_key(ShrineKinshipEdgeKind::Spouse, p.0, p.1), ShrineRelationshipSource::Historical);
        lemma_with_tie_size(m, tie_key(ShrineKinshipEdgeKind::WeakParentChild, p.0, p.1), ShrineRelationshipSource::Historical);
        match parent_child_direction(game, oid, r.target_id@) {
            Some(d) => lemma_with_tie_size(m, tie_key(ShrineKinshipEdgeKind::ParentChild, d.0, d.1), ShrineRelationshipSource::Historical),
            None => {},
        }
    }
}

proof fn lemma_profile_ties_size(game: GameState, os: Seq<Officer>, m0: TieMap)
    requires
        m0.dom().finite(),
    ensures
        profile_ties(game, os, m0).dom().finite(),
        profile_ties(game, os, m0).dom().len() <= m0.dom().len() + profile_relationship_count(os),
    decreases os.len(),
{
    if os.len() > 0 {
        lemma_profile_ties_size(game, os.drop_last(), m0);
        match os.last().profile {
            Some(p) => lemma_relationship_ties_size(game, os.last().id@, p.relationships@, profile_ties(game, os.drop_last(), m0)),
            None => {},
        }
    }
}

/// A game has no more kinship ties than tie records.
pub proof fn lemma_kinship_ties_size(game: GameState)
    ensures
        kinship_ties(game).dom().finite(),
        kinship_ties(game).dom().len() <= tie_record_count(game),
{
    let e = Map::<Seq<Seq<char>>, ShrineRelationshipSource>::empty();
    assert(e.dom() =~= Set::<Seq<Seq<char>>>::empty());
    lemma_marriage_ties_size(game.marriages@, e);
    let a = marriage_ties(game.marriages@, e);
    lemma_family_ties_size(game, game.family_relationships@, a);
    lemma_profile_ties_size(game, game.officers@, family_ties(game, game.family_relationships@, a));
}

/// A listing of the ties of `m` has one entry per tie.
pub proof fn lemma_listed_ties_size(es: Seq<ShrineKinshipEdge>, m: TieMap)
    requires
        lists_ties(es, m),
        m.dom().finite(),
    ensures
        es.len() <= m.dom().len(),
{
    broadcast use vstd::seq_lib::seq_to_set_is_finite;
    let ks = es.map_values(|e: ShrineKinshipEdge| edge_key(e));
    assert forall|i: int, j: int| 0 <= i < ks.len() && 0 <= j < ks.len() && i != j implies ks[i] != ks[j] by {
        if i < j {
            assert(keys_less(edge_key(es[i]), edge_key(es[j])));
            lemma_keys_less(ks[i], ks[i], ks[i]);
        } else {
            assert(keys_less(edge_key(es[j]), edge_key(es[i])));
            lemma_keys_less(ks[j], ks[j], ks[j]);
        }
    }
    assert(ks.no_duplicates());
    ks.unique_seq_to_set();
    assert(ks.to_set().subset_of(m.dom())) by {
        assert forall|k: Seq<Seq<char>>| ks.to_set().contains(k) implies m.dom().contains(k) by {
            let i = choose|i: int| 0 <= i < ks.len() && ks[i] == k;
            assert(m.contains_key(edge_key(es[i])));
        }
    }
    vstd::set_lib::lemma_len_subset(ks.to_set(), m.dom());
}

/// The abdication form of the shrine: the successor chosen, and whether the
/// final confirmation is showing.
#[derive(Clone, Debug)]
pub struct AbdicationForm {
    pub successor: Option<String>,
    pub confirm: bool,
}

/// The identifiers of a list of names.
pub open spec fn name_views(v: Seq<String>) -> Seq<Seq<char>> {
    v.map_values(|s: String| s@)
}

impl AbdicationForm {
    /// Keeps the chosen successor while it is still a candidate; otherwise
    /// chooses the first candidate, or no one, and hides the confirmation.
    pub fn sync_candidates(&mut self, candidates: &Vec<String>)
        ensures
            (old(self).successor matches Some(s) && name_views(candidates@).contains(s@)) ==> (final(self).successor
                matches Some(t) && t@ == old(self).successor->Some_0@ && final(self).confirm == old(self).confirm),
            !(old(self).successor matches Some(s) && name_views(candidates@).contains(s@)) ==> {
                &&& !final(self).confirm
                &&& if candidates@.len() > 0 {
                    final(self).successor matches Some(t) && t@ == candidates@[0]@
                } else {
                    final(self).successor is None
                }
            },
    {
        let listed = match &self.successor {
            Some(s) => {
                let mut found = false;
                let mut i: usize = 0;
                while i < candidates.len()
                    invariant
                        i <= candidates@.len(),
                        found == exists|k: int| 0 <= k < i && (#[trigger] candidates@[k])@ == s@,
                    decreases candidates@.len() - i,
                {
                    if str_eq(candidates[i].as_str(), s.as_str()) {
                        found = true;
                    }
                    i = i + 1;
                }
                proof {
                    if found {
                        let k = choose|k: int| 0 <= k < candidates@.len() && (#[trigger] candidates@[k])@ == s@;
                        assert(name_views(candidates@)[k] == s@);
                    }
                    if name_views(candidates@).contains(s@) {
                        let k = choose|k: int| 0 <= k < name_views(candidates@).len() && name_views(candidates@)[k] == s@;
                        assert(candidates@[k]@ == s@);
                    }
                }
                found
            },
            None => false,
        };
        if !listed {
            self.successor = if candidates.len() > 0 { Some(owned(candidates[0].as_str())) } else { None };
            self.confirm = false;
        }
    }

    /// Chooses `id` as successor and hides the confirmation.
    pub fn select_successor(&mut self, id: &str)
        ensures
            final(self).successor matches Some(t) && t@ == id@,
            !final(self).confirm,
    {
        self.successor = Some(owned(id));
        self.confirm = false;
    }

    /// Shows the final confirmation, when there is a candidate to confirm.
    pub fn ask_confirmation(&mut self, has_candidates: bool)
        ensures
            final(self).confirm == (old(self).confirm || has_candidates),
            final(self).successor == old(self).successor,
    {
        if has_candidates {
            self.confirm = true;
        }
    }

    /// Hides the final confirmation.
    pub fn cancel(&mut self)
        ensures
            !final(self).confirm,
            final(self).successor == old(self).successor,
    {
        self.confirm = false;
    }

    /// The successor to hand the throne to when the confirmation is
    /// accepted: the chosen one, while the confirmation is showing.
    pub fn confirmed_successor(&self) -> (r: Option<String>)
        ensures
            r is Some <==> (self.confirm && self.successor is Some),
            r matches Some(t) ==> t@ == self.successor->Some_0@,
    {
        if self.confirm {
            match &self.successor {
                Some(s) => Some(owned(s.as_str())),
                None => None,
            }
        } else {
            None
        }
    }
}

/// The marriage the player asks for: both partners must be chosen.
pub fn marriage_request(first: &Option<String>, second: &Option<String>) -> (r: Option<(String, String)>)
    ensures
        r is Some <==> (first is Some && second is Some),
        r matches Some(p) ==> p.0@ == first->Some_0@ && p.1@ == second->Some_0@,
{
    match (first, second) {
        (Some(a), Some(b)) => Some((owned(a.as_str()), owned(b.as_str()))),
        _ => None,
    }
}

} // verus!
