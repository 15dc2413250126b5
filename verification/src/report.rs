//! Highlighting of monthly report lines: the names of officers and cities
//! that occur in a message are split out as their own tokens.

use vstd::prelude::*;
use crate::game::GameState;
use crate::text::{chars_occur_at, chars_of, occurs_at, owned, str_eq, string_from_range};

verus! {

/// What a highlighted name refers to.
#[derive(Clone, Copy, Debug, PartialEq, Eq, Structural)]
pub enum ReportHighlightKind {
    Officer,
    City,
}

/// A name to highlight in reports.
#[derive(Clone, Debug, PartialEq, Eq)]
pub struct ReportHighlightEntity {
    pub name: String,
    pub kind: ReportHighlightKind,
}

/// A piece of a report message: a highlighted name, or plain text.
#[derive(Clone, Debug, PartialEq, Eq)]
pub struct ReportHighlightToken {
    pub text: String,
    pub kind: Option<ReportHighlightKind>,
}

/// The texts of `ts`, joined.
pub open spec fn joined_texts(ts: Seq<ReportHighlightToken>) -> Seq<char>
    decreases ts.len(),
{
    if ts.len() == 0 {
        Seq::empty()
    } else {
        joined_texts(ts.drop_last()) + ts.last().text@
    }
}

/// Where token `i` of `ts` starts in the message.
pub open spec fn token_start(ts: Seq<ReportHighlightToken>, i: int) -> int {
    joined_texts(ts.take(i)).len() as int
}

/// The name of entity `k` occurs in `msg` at `pos`.
pub open spec fn name_matches_at(msg: Seq<char>, pos: int, es: Seq<ReportHighlightEntity>, k: int) -> bool {
    0 <= k < es.len() && occurs_at(msg, pos, es[k].name@)
}

/// Entity `k` is the one highlighted at `pos`: its name occurs there, no
/// name that occurs there is longer, and no entity before it has a name of
/// the same length that occurs there.
pub open spec fn chosen_match(msg: Seq<char>, pos: int, es: Seq<ReportHighlightEntity>, k: int) -> bool {
    &&& name_matches_at(msg, pos, es, k)
    &&& forall|j: int| #[trigger] name_matches_at(msg, pos, es, j) ==> es[j].name@.len() <= es[k].name@.len()
        && (j < k ==> es[j].name@.len() < es[k].name@.len())
}

/// No entity's name occurs in `msg` at `pos`.
pub open spec fn no_match_at(msg: Seq<char>, pos: int, es: Seq<ReportHighlightEntity>) -> bool {
    forall|j: int| !#[trigger] name_matches_at(msg, pos, es, j)
}

/// `ts` is the highlighting of `msg` by `es`: the tokens spell the message,
/// none is empty, each highlighted token is the name chosen where it starts,
/// no name starts inside a plain token, and plain text is never split.
pub open spec fn is_highlighting(ts: Seq<ReportHighlightToken>, msg: Seq<char>, es: Seq<ReportHighlightEntity>) -> bool {
    &&& joined_texts(ts) == msg
    &&& forall|i: int| 0 <= i < ts.len() ==> (#[trigger] ts[i]).text@.len() > 0
    &&& forall|i: int| 0 <= i < ts.len() && (#[trigger] ts[i]).kind is Some ==> exists|k: int|
        chosen_match(msg, token_start(ts, i), es, k) && ts[i].text@ == es[k].name@ && ts[i].kind == Some(es[k].kind)
    &&& forall|i: int, p: int| #![trigger ts[i], no_match_at(msg, p, es)] 0 <= i < ts.len() && ts[i].kind is None
        && token_start(ts, i) <= p < token_start(ts, i) + ts[i].text@.len() ==> no_match_at(msg, p, es)
    &&& forall|i: int| 0 <= i < ts.len() - 1 && (#[trigger] ts[i]).kind is None ==> ts[i + 1].kind is Some
}

/// Every entity has a non-empty name.
pub open spec fn names_nonempty(es: Seq<ReportHighlightEntity>) -> bool {
    forall|k: int| 0 <= k < es.len() ==> (#[trigger] es[k]).name@.len() > 0
}

/// The entity highlighted at `pos`, if any name occurs there.
fn best_match(msg: &Vec<char>, pos: usize, names: &Vec<Vec<char>>, es: &[ReportHighlightEntity]) -> (r: Option<usize>)
    requires
        names.len() == es@.len(),
        forall|k: int| 0 <= k < names.len() ==> (#[trigger] names@[k])@ == es@[k].name@,
    ensures
        match r {
            Some(k) => chosen_match(msg@, pos as int, es@, k as int),
            None => no_match_at(msg@, pos as int, es@),
        },
{
    let mut best: Option<usize> = None;
    let mut k: usize = 0;
    while k < names.len()
        invariant
            names.len() == es@.len(),
            forall|j: int| 0 <= j < names.len() ==> (#[trigger] names@[j])@ == es@[j].name@,
            k <= names.len(),
            match best {
                Some(b) => b < k && name_matches_at(msg@, pos as int, es@, b as int) && forall|j: int|
                    0 <= j < k && #[trigger] name_matches_at(msg@, pos as int, es@, j) ==> es@[j].name@.len()
                        <= es@[b as int].name@.len() && (j < b ==> es@[j].name@.len() < es@[b as int].name@.len()),
                None => forall|j: int| 0 <= j < k ==> !#[trigger] name_matches_at(msg@, pos as int, es@, j),
            },
        decreases names.len() - k,
    {
        if chars_occur_at(msg, pos, &names[k]) {
            match best {
                Some(b) => {
                    if names[k].len() > names[b].len() {
                        best = Some(k);
                    }
                },
                None => {
                    best = Some(k);
                },
            }
        }
        k = k + 1;
    }
    best
}

proof fn lemma_joined_push(ts: Seq<ReportHighlightToken>, t: ReportHighlightToken)
    ensures
        joined_texts(ts.push(t)) == joined_texts(ts) + t.text@,
        ts.push(t).take(ts.len() as int) == ts,
{
    assert(ts.push(t).drop_last() =~= ts);
    assert(ts.push(t).take(ts.len() as int) =~= ts);
}

/// Splits a report message into highlighted names and plain text. At each
/// position the longest name that occurs there is taken, the first such
/// entity where several share that name.
pub fn tokenize_report_message(message: &str, entities: &[ReportHighlightEntity]) -> (tokens: Vec<ReportHighlightToken>)
    requires
        names_nonempty(entities@),
    ensures
        is_highlighting(tokens@, message@, entities@),
{
    let m = chars_of(message);
    let mut names: Vec<Vec<char>> = Vec::new();
    let mut k: usize = 0;
    while k < entities.len()
        invariant
            k <= entities@.len(),
            names.len() == k,
            forall|j: int| 0 <= j < k ==> (#[trigger] names@[j])@ == entities@[j].name@,
        decreases entities@.len() - k,
    {
        names.push(chars_of(entities[k].name.as_str()));
        k = k + 1;
    }
    let ghost es = entities@;
    let ghost msg = m@;
    let mut tokens: Vec<ReportHighlightToken> = Vec::new();
    let mut plain_start: usize = 0;
    let mut index: usize = 0;
    while index < m.len()
        invariant
            es == entities@,
            msg == m@,
            msg == message@,
            names_nonempty(es),
            names.len() == es.len(),
            forall|j: int| 0 <= j < names.len() ==> (#[trigger] names@[j])@ == es[j].name@,
            plain_start <= index <= m.len(),
            joined_texts(tokens@) == msg.subrange(0, plain_start as int),
            forall|p: int| plain_start <= p < index ==> no_match_at(msg, p, es),
            tokens@.len() > 0 ==> tokens@.last().kind is Some,
            forall|i: int| 0 <= i < tokens@.len() ==> (#[trigger] tokens@[i]).text@.len() > 0,
            forall|i: int| 0 <= i < tokens@.len() && (#[trigger] tokens@[i]).kind is Some ==> exists|k: int|
                chosen_match(msg, token_start(tokens@, i), es, k) && tokens@[i].text@ == es[k].name@
                    && tokens@[i].kind == Some(es[k].kind),
            forall|i: int, p: int| #![trigger tokens@[i], no_match_at(msg, p, es)] 0 <= i < tokens@.len()
                && tokens@[i].kind is None && token_start(tokens@, i) <= p < token_start(tokens@, i)
                + tokens@[i].text@.len() ==> no_match_at(msg, p, es),
            forall|i: int| 0 <= i < tokens@.len() - 1 && (#[trigger] tokens@[i]).kind is None ==> tokens@[i + 1].kind is Some,
        decreases m.len() - index,
    {
        match best_match(&m, index, &names, entities) {
            Some(b) => {
                if plain_start < index {
                    let ghost before = tokens@;
                    let plain = ReportHighlightToken { text: string_from_range(&m, plain_start, index), kind: None };
                    tokens.push(plain);
                    proof {
                        lemma_joined_push(before, plain);
                        assert(msg.subrange(0, plain_start as int) + msg.subrange(plain_start as int, index as int)
                            =~= msg.subrange(0, index as int));
                        assert(token_start(tokens@, before.len() as int) == plain_start);
                        assert forall|i: int| 0 <= i < before.len() implies token_start(tokens@, i) == token_start(before, i) by {
                            assert(tokens@.take(i) =~= before.take(i));
                        }
                    }
                }
                let ghost before = tokens@;
                let ghost start = index as int;
                let name_len = names[b].len();
                let t = ReportHighlightToken { text: owned(entities[b].name.as_str()), kind: Some(entities[b].kind) };
                tokens.push(t);
                proof {
                    lemma_joined_push(before, t);
                    assert(msg.subrange(0, start) + msg.subrange(start, start + name_len) =~= msg.subrange(0, start + name_len));
                    assert(token_start(tokens@, before.len() as int) == start);
                    assert forall|i: int| 0 <= i < before.len() implies token_start(tokens@, i) == token_start(before, i) by {
                        assert(tokens@.take(i) =~= before.take(i));
                    }
                    assert(tokens@[before.len() as int] == t);
                    assert(chosen_match(msg, token_start(tokens@, before.len() as int), es, b as int));
                }
                index = index + name_len;
                plain_start = index;
            },
            None => {
                index = index + 1;
            },
        }
    }
    if plain_start < m.len() {
        let ghost before = tokens@;
        let plain = ReportHighlightToken { text: string_from_range(&m, plain_start, m.len()), kind: None };
        tokens.push(plain);
        proof {
            lemma_joined_push(before, plain);
            assert(msg.subrange(0, plain_start as int) + msg.subrange(plain_start as int, msg.len() as int) =~= msg);
            assert(token_start(tokens@, before.len() as int) == plain_start);
            assert forall|i: int| 0 <= i < before.len() implies token_start(tokens@, i) == token_start(before, i) by {
                assert(tokens@.take(i) =~= before.take(i));
            }
        }
    } else {
        assert(msg.subrange(0, plain_start as int) =~= msg);
    }
    tokens
}

/// A name to highlight, with what it refers to.
pub open spec fn entity_view(e: ReportHighlightEntity) -> (Seq<char>, ReportHighlightKind) {
    (e.name@, e.kind)
}

/// The names a game offers for highlighting, in order: officers, then cities.
pub open spec fn highlight_candidates(game: GameState) -> Seq<(Seq<char>, ReportHighlightKind)> {
    game.officers@.map_values(|o: crate::game::Officer| (o.name@, ReportHighlightKind::Officer))
        + game.cities@.map_values(|c: crate::game::City| (c.name@, ReportHighlightKind::City))
}

/// Whether `name` is the name of some candidate of `cs`.
pub open spec fn name_listed(cs: Seq<(Seq<char>, ReportHighlightKind)>, name: Seq<char>) -> bool {
    exists|j: int| 0 <= j < cs.len() && (#[trigger] cs[j]).0 == name
}

/// The candidates with a non-empty name that no earlier candidate has.
pub open spec fn first_named(cs: Seq<(Seq<char>, ReportHighlightKind)>) -> Seq<(Seq<char>, ReportHighlightKind)>
    decreases cs.len(),
{
    if cs.len() == 0 {
        Seq::empty()
    } else {
        let rest = first_named(cs.drop_last());
        if cs.last().0.len() > 0 && !name_listed(cs.drop_last(), cs.last().0) {
            rest.push(cs.last())
        } else {
            rest
        }
    }
}

proof fn lemma_first_named_names(cs: Seq<(Seq<char>, ReportHighlightKind)>, name: Seq<char>)
    requires
        name.len() > 0,
    ensures
        name_listed(first_named(cs), name) <==> name_listed(cs, name),
    decreases cs.len(),
{
    if cs.len() > 0 {
        let pre = cs.drop_last();
        lemma_first_named_names(pre, name);
        if name_listed(pre, name) {
            let j = choose|j: int| 0 <= j < pre.len() && (#[trigger] pre[j]).0 == name;
            assert(cs[j] == pre[j]);
        }
        if name_listed(cs, name) && cs.last().0 != name {
            let j = choose|j: int| 0 <= j < cs.len() && (#[trigger] cs[j]).0 == name;
            assert(j < cs.len() - 1);
            assert(pre[j] == cs[j]);
        }
        let r = first_named(pre);
        if name_listed(r.push(cs.last()), name) && cs.last().0 != name {
            let j = choose|j: int| 0 <= j < r.push(cs.last()).len() && (#[trigger] r.push(cs.last())[j]).0 == name;
            assert(r[j] == r.push(cs.last())[j]);
        }
        if name_listed(r, name) {
            let j = choose|j: int| 0 <= j < r.len() && (#[trigger] r[j]).0 == name;
            assert(r.push(cs.last())[j] == r[j]);
        }
        if cs.last().0 == name {
            assert(cs[cs.len() - 1] == cs.last());
            assert(r.push(cs.last())[r.len() as int] == cs.last());
        }
    }
}

/// Whether one of `es` is named `name`.
fn has_entity_named(es: &Vec<ReportHighlightEntity>, name: &str) -> (b: bool)
    ensures
        b == name_listed(es@.map_values(|e: ReportHighlightEntity| entity_view(e)), name@),
{
    let ghost vs = es@.map_values(|e: ReportHighlightEntity| entity_view(e));
    let mut i: usize = 0;
    while i < es.len()
        invariant
            vs == es@.map_values(|e: ReportHighlightEntity| entity_view(e)),
            i <= es.len(),
            forall|j: int| 0 <= j < i ==> (#[trigger] vs[j]).0 != name@,
        decreases es.len() - i,
    {
        assert(vs[i as int] == entity_view(es@[i as int]));
        if str_eq(es[i].name.as_str(), name) {
            return true;
        }
        i = i + 1;
    }
    false
}

/// Appends candidate `(name, kind)` unless its name is empty or taken.
fn offer_name(
    es: &mut Vec<ReportHighlightEntity>,
    name: &str,
    kind: ReportHighlightKind,
    Ghost(cs): Ghost<Seq<(Seq<char>, ReportHighlightKind)>>,
)
    requires
        old(es)@.map_values(|e: ReportHighlightEntity| entity_view(e)) == first_named(cs),
    ensures
        final(es)@.map_values(|e: ReportHighlightEntity| entity_view(e)) == first_named(cs.push((name@, kind))),
{
    let ghost c = cs.push((name@, kind));
    assert(c.drop_last() =~= cs);
    assert(c.last() == (name@, kind));
    let taken = has_entity_named(es, name);
    proof {
        if name@.len() > 0 {
            lemma_first_named_names(cs, name@);
        }
    }
    if name.unicode_len() > 0 && !taken {
        let ghost before = es@;
        es.push(ReportHighlightEntity { name: owned(name), kind });
        assert(es@.map_values(|e: ReportHighlightEntity| entity_view(e)) =~= before.map_values(
            |e: ReportHighlightEntity| entity_view(e),
        ).push((name@, kind)));
    }
}

/// The names to highlight in reports: every officer's name, then every city's
/// name, each non-empty name once, at its first occurrence.
pub fn report_highlight_entities(game: &GameState) -> (es: Vec<ReportHighlightEntity>)
    ensures
        es@.map_values(|e: ReportHighlightEntity| entity_view(e)) == first_named(highlight_candidates(*game)),
        names_nonempty(es@),
{
    let ghost os = game.officers@.map_values(|o: crate::game::Officer| (o.name@, ReportHighlightKind::Officer));
    let ghost cs = game.cities@.map_values(|c: crate::game::City| (c.name@, ReportHighlightKind::City));
    let mut es: Vec<ReportHighlightEntity> = Vec::new();
    assert(es@.map_values(|e: ReportHighlightEntity| entity_view(e)) =~= first_named(os.take(0)));
    let mut i: usize = 0;
    while i < game.officers.len()
        invariant
            os == game.officers@.map_values(|o: crate::game::Officer| (o.name@, ReportHighlightKind::Officer)),
            i <= game.officers.len(),
            es@.map_values(|e: ReportHighlightEntity| entity_view(e)) == first_named(os.take(i as int)),
        decreases game.officers.len() - i,
    {
        assert(os.take(i as int + 1) =~= os.take(i as int).push((game.officers@[i as int].name@, ReportHighlightKind::Officer)));
        offer_name(&mut es, game.officers[i].name.as_str(), ReportHighlightKind::Officer, Ghost(os.take(i as int)));
        i = i + 1;
    }
    assert(os.take(os.len() as int) =~= os);
    let mut j: usize = 0;
    while j < game.cities.len()
        invariant
            os == game.officers@.map_values(|o: crate::game::Officer| (o.name@, ReportHighlightKind::Officer)),
            cs == game.cities@.map_values(|c: crate::game::City| (c.name@, ReportHighlightKind::City)),
            j <= game.cities.len(),
            es@.map_values(|e: ReportHighlightEntity| entity_view(e)) == first_named(os + cs.take(j as int)),
        decreases game.cities.len() - j,
    {
        assert(os + cs.take(j as int + 1) =~= (os + cs.take(j as int)).push((game.cities@[j as int].name@, ReportHighlightKind::City)));
        offer_name(&mut es, game.cities[j].name.as_str(), ReportHighlightKind::City, Ghost(os + cs.take(j as int)));
        j = j + 1;
    }
    assert(cs.take(cs.len() as int) =~= cs);
    proof {
        lemma_first_named_nonempty(highlight_candidates(*game));
        assert forall|k: int| 0 <= k < es@.len() implies (#[trigger] es@[k]).name@.len() > 0 by {
            assert(es@.map_values(|e: ReportHighlightEntity| entity_view(e))[k] == entity_view(es@[k]));
        }
    }
    es
}

proof fn lemma_first_named_nonempty(cs: Seq<(Seq<char>, ReportHighlightKind)>)
    ensures
        forall|k: int| 0 <= k < first_named(cs).len() ==> (#[trigger] first_named(cs)[k]).0.len() > 0,
    decreases cs.len(),
{
    if cs.len() > 0 {
        let r = first_named(cs.drop_last());
        lemma_first_named_nonempty(cs.drop_last());
        assert forall|k: int| 0 <= k < first_named(cs).len() implies (#[trigger] first_named(cs)[k]).0.len() > 0 by {
            if k < r.len() {
                assert(first_named(cs)[k] == r[k]);
            }
        }
    }
}

} // verus!
