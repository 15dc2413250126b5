//! The event center: which event stays selected, how an event's status,
//! time and related places and people are shown, what the event button
//! says, and what answering a decision does to the center.

use vstd::prelude::*;
use crate::game::{GameState, city_index, faction_index, officer_index};
use crate::text::{i64_to_string, int_dec, dec, owned, push_decimal, push_str, str_eq};

verus! {

/// What an event is about.
#[derive(Clone, Copy, Debug, PartialEq, Eq, Structural)]
pub enum GameEventKind {
    CityDevelopment,
    Battle,
    CityCaptured,
    FactionDestroyed,
    TechnologyCompleted,
    HistoricalLife,
    OfficerLifecycle,
    Succession,
    Famine,
    NaturalDisaster,
    PublicOrder,
    Economy,
    Military,
    Diplomacy,
    Opportunity,
    GameStatus,
}

/// How much an event matters.
#[derive(Clone, Copy, Debug, PartialEq, Eq, Structural)]
pub enum GameEventSeverity {
    Info,
    Important,
    Warning,
    Critical,
}

/// One answer to an event that asks for a decision.
#[derive(Clone, Debug)]
pub struct EventChoice {
    pub id: String,
    pub label: String,
    pub description: String,
}

/// Whether an event asks for a decision, and what became of it.
#[derive(Clone, Debug)]
pub enum EventResolution {
    NoneRequired,
    PendingDecision { deadline_turn: u32, choices: Vec<EventChoice> },
    Resolved { label: String, turn: u32 },
    Expired { label: String, turn: u32 },
    Cancelled { reason: String, turn: u32 },
}

/// One event of the chronicle.
#[derive(Clone, Debug)]
pub struct GameEvent {
    pub id: String,
    /// The order in which events happened.
    pub sequence: u64,
    pub year: i32,
    pub month: u8,
    pub turn: u32,
    pub kind: GameEventKind,
    pub severity: GameEventSeverity,
    pub title: String,
    pub summary: String,
    pub detail: String,
    pub city_id: Option<String>,
    pub faction_id: Option<String>,
    pub officer_id: Option<String>,
    pub viewed: bool,
    pub resolution: EventResolution,
}

/// The position of the first event of `events` with identifier `id`.
pub open spec fn event_index(events: Seq<GameEvent>, id: Seq<char>) -> Option<int>
    decreases events.len(),
{
    if events.len() == 0 {
        None
    } else if events[0].id@ == id {
        Some(0)
    } else {
        match event_index(events.drop_first(), id) {
            Some(i) => Some(i + 1),
            None => None,
        }
    }
}

proof fn lemma_event_index(events: Seq<GameEvent>, id: Seq<char>)
    ensures
        match event_index(events, id) {
            Some(i) => 0 <= i < events.len() && events[i].id@ == id && forall|k: int| 0 <= k < i ==> events[k].id@ != id,
            None => forall|k: int| 0 <= k < events.len() ==> events[k].id@ != id,
        },
    decreases events.len(),
{
    if events.len() > 0 {
        lemma_event_index(events.drop_first(), id);
        assert forall|k: int| 1 <= k < events.len() implies events[k] == events.drop_first()[k - 1] by {}
    }
}

/// The position of event `id` in `events`.
pub fn find_event(events: &Vec<GameEvent>, id: &str) -> (r: Option<usize>)
    ensures
        match r {
            Some(i) => event_index(events@, id@) == Some(i as int) && i < events@.len(),
            None => event_index(events@, id@) is None,
        },
{
    proof {
        lemma_event_index(events@, id@);
    }
    let mut i: usize = 0;
    while i < events.len()
        invariant
            i <= events.len(),
            forall|k: int| 0 <= k < i ==> (#[trigger] events@[k]).id@ != id@,
            match event_index(events@, id@) {
                Some(j) => 0 <= j < events.len() && events@[j].id@ == id@ && forall|k: int| 0 <= k < j ==> events@[k].id@ != id@,
                None => forall|k: int| 0 <= k < events.len() ==> events@[k].id@ != id@,
            },
        decreases events.len() - i,
    {
        if str_eq(events[i].id.as_str(), id) {
            return Some(i);
        }
        i = i + 1;
    }
    None
}

/// Position `k` holds the newest event: none has a higher sequence number,
/// and every later one has a lower one (of equally new events, the last).
pub open spec fn is_newest(events: Seq<GameEvent>, k: int) -> bool {
    &&& 0 <= k < events.len()
    &&& forall|j: int| 0 <= j < events.len() ==> (#[trigger] events[j]).sequence <= events[k].sequence
    &&& forall|j: int| k < j < events.len() ==> (#[trigger] events[j]).sequence < events[k].sequence
}

/// The position of the newest event, if there is any.
pub fn newest_event(events: &Vec<GameEvent>) -> (r: Option<usize>)
    ensures
        match r {
            Some(k) => is_newest(events@, k as int),
            None => events@.len() == 0,
        },
{
    if events.len() == 0 {
        return None;
    }
    let mut best: usize = 0;
    let mut i: usize = 1;
    while i < events.len()
        invariant
            0 <= best < i <= events.len(),
            forall|j: int| 0 <= j < i ==> (#[trigger] events@[j]).sequence <= events@[best as int].sequence,
            forall|j: int| best < j < i ==> (#[trigger] events@[j]).sequence < events@[best as int].sequence,
        decreases events.len() - i,
    {
        if events[i].sequence >= events[best].sequence {
            best = i;
        }
        i = i + 1;
    }
    Some(best)
}

/// Some position holds the newest event of a non-empty chronicle.
pub proof fn lemma_newest_exists(events: Seq<GameEvent>)
    requires
        events.len() > 0,
    ensures
        exists|k: int| is_newest(events, k),
    decreases events.len(),
{
    if events.len() == 1 {
        assert(is_newest(events, 0));
    } else {
        let init = events.drop_last();
        lemma_newest_exists(init);
        let k = choose|k: int| is_newest(init, k);
        let last = events.len() - 1;
        assert forall|j: int| 0 <= j < last implies events[j] == init[j] by {}
        if events[last].sequence >= events[k].sequence {
            assert(is_newest(events, last));
        } else {
            assert(is_newest(events, k));
        }
    }
}

/// Only one position holds the newest event.
pub proof fn lemma_newest_unique(events: Seq<GameEvent>, a: int, b: int)
    requires
        is_newest(events, a),
        is_newest(events, b),
    ensures
        a == b,
{
    if a < b {
        assert(events[b].sequence < events[a].sequence);
        assert(events[a].sequence <= events[b].sequence);
    } else if b < a {
        assert(events[a].sequence < events[b].sequence);
        assert(events[b].sequence <= events[a].sequence);
    }
}

/// The identifier of the newest event of a non-empty chronicle.
pub open spec fn newest_id(events: Seq<GameEvent>) -> Seq<char> {
    events[choose|k: int| is_newest(events, k)].id@
}

/// The event selected when the center opens with `selected` chosen before:
/// that one while the chronicle holds it, else the newest, else none.
pub open spec fn selection_after(selected: Option<Seq<char>>, events: Seq<GameEvent>) -> Option<Seq<char>> {
    if selected matches Some(s) && event_index(events, s) is Some {
        selected
    } else if events.len() == 0 {
        None
    } else {
        Some(newest_id(events))
    }
}

/// The identifiers of an optional string.
pub open spec fn opt_view(s: Option<String>) -> Option<Seq<char>> {
    match s {
        Some(t) => Some(t@),
        None => None,
    }
}

/// The event selected when the center opens: the selected one while it is
/// still in the chronicle, else the newest, else none (also without a game).
pub fn ensure_selected_event(selected: &Option<String>, events: Option<&Vec<GameEvent>>) -> (r: Option<String>)
    ensures
        match events {
            None => r is None,
            Some(es) => opt_view(r) == selection_after(opt_view(*selected), es@),
        },
{
    let es = match events {
        Some(es) => es,
        None => return None,
    };
    let keep = match selected {
        Some(s) => find_event(es, s.as_str()).is_some(),
        None => false,
    };
    if keep {
        return match selected {
            Some(s) => Some(owned(s.as_str())),
            None => None,
        };
    }
    match newest_event(es) {
        Some(k) => {
            proof {
                lemma_newest_exists(es@);
                let c = choose|c: int| is_newest(es@, c);
                lemma_newest_unique(es@, k as int, c);
            }
            Some(owned(es[k].id.as_str()))
        },
        None => None,
    }
}

/// Opening the event center again selects what it selected the first time:
/// once chosen, the selection stays while the chronicle is unchanged.
pub proof fn lemma_event_selection_stable(selected: Option<Seq<char>>, events: Seq<GameEvent>)
    ensures
        selection_after(selection_after(selected, events), events) == selection_after(selected, events),
{
    if !(selected matches Some(s) && event_index(events, s) is Some) && events.len() > 0 {
        lemma_newest_exists(events);
        let k = choose|k: int| is_newest(events, k);
        lemma_event_index(events, events[k].id@);
        assert(event_index(events, newest_id(events)) is Some);
    }
}

/// The status word shown beside an event.
#[derive(Clone, Copy, Debug, PartialEq, Eq, Structural)]
pub enum EventStatus {
    Pending,
    Resolved,
    Expired,
    Cancelled,
    Unread,
    Recorded,
}

/// The status of `e`: its decision's state, or for an event without one,
/// whether it has been read.
pub open spec fn status_of(e: GameEvent) -> EventStatus {
    match e.resolution {
        EventResolution::PendingDecision { .. } => EventStatus::Pending,
        EventResolution::Resolved { .. } => EventStatus::Resolved,
        EventResolution::Expired { .. } => EventStatus::Expired,
        EventResolution::Cancelled { .. } => EventStatus::Cancelled,
        EventResolution::NoneRequired => if e.viewed {
            EventStatus::Recorded
        } else {
            EventStatus::Unread
        },
    }
}

/// The status of `event`.
pub fn event_status(event: &GameEvent) -> (s: EventStatus)
    ensures
        s == status_of(*event),
{
    match &event.resolution {
        EventResolution::PendingDecision { .. } => EventStatus::Pending,
        EventResolution::Resolved { .. } => EventStatus::Resolved,
        EventResolution::Expired { .. } => EventStatus::Expired,
        EventResolution::Cancelled { .. } => EventStatus::Cancelled,
        EventResolution::NoneRequired => if event.viewed {
            EventStatus::Recorded
        } else {
            EventStatus::Unread
        },
    }
}

/// When an event happened, as "<year>年<month>月 第<turn>回合".
pub open spec fn time_label(e: GameEvent) -> Seq<char> {
    int_dec(e.year as int) + "年"@ + dec(e.month as nat) + "月 第"@ + dec(e.turn as nat) + "回合"@
}

/// When `event` happened.
pub fn event_time_label(event: &GameEvent) -> (s: String)
    ensures
        s@ == time_label(*event),
{
    let mut s = i64_to_string(event.year as i64);
    push_str(&mut s, "年");
    push_decimal(&mut s, event.month as u64);
    push_str(&mut s, "月 第");
    push_decimal(&mut s, event.turn as u64);
    push_str(&mut s, "回合");
    s
}

/// The places and people an event names, by the names the game has for
/// them; one the game does not have is left out.
#[derive(Debug)]
pub struct EventRelated {
    pub city: Option<String>,
    pub faction: Option<String>,
    pub officer: Option<String>,
}

impl EventRelated {
    /// Whether it names nothing, so that the pane leaves the line out.
    pub fn is_empty(&self) -> (b: bool)
        ensures
            b == (self.city is None && self.faction is None && self.officer is None),
    {
        self.city.is_none() && self.faction.is_none() && self.officer.is_none()
    }
}

/// `r` is the name of the city of `game` that `id` names, if any.
pub open spec fn city_name_of(r: Option<String>, game: GameState, id: Option<String>) -> bool {
    match id {
        Some(i) => match city_index(game.cities@, i@) {
            Some(k) => r matches Some(n) && n@ == game.cities@[k].name@,
            None => r is None,
        },
        None => r is None,
    }
}

/// `r` is the name of the faction of `game` that `id` names, if any.
pub open spec fn faction_name_of(r: Option<String>, game: GameState, id: Option<String>) -> bool {
    match id {
        Some(i) => match faction_index(game.factions@, i@) {
            Some(k) => r matches Some(n) && n@ == game.factions@[k].name@,
            None => r is None,
        },
        None => r is None,
    }
}

/// `r` is the name of the officer of `game` that `id` names, if any.
pub open spec fn officer_name_of(r: Option<String>, game: GameState, id: Option<String>) -> bool {
    match id {
        Some(i) => match officer_index(game.officers@, i@) {
            Some(k) => r matches Some(n) && n@ == game.officers@[k].name@,
            None => r is None,
        },
        None => r is None,
    }
}

/// The city, faction and officer that `event` names.
pub fn event_related_objects(game: &GameState, event: &GameEvent) -> (r: EventRelated)
    ensures
        city_name_of(r.city, *game, event.city_id),
        faction_name_of(r.faction, *game, event.faction_id),
        officer_name_of(r.officer, *game, event.officer_id),
{
    let city = match &event.city_id {
        Some(id) => match game.find_city(id.as_str()) {
            Some(k) => Some(owned(game.cities[k].name.as_str())),
            None => None,
        },
        None => None,
    };
    let faction = match &event.faction_id {
        Some(id) => match game.find_faction(id.as_str()) {
            Some(k) => Some(owned(game.factions[k].name.as_str())),
            None => None,
        },
        None => None,
    };
    let officer = match &event.officer_id {
        Some(id) => match game.find_officer(id.as_str()) {
            Some(k) => Some(owned(game.officers[k].name.as_str())),
            None => None,
        },
        None => None,
    };
    EventRelated { city, faction, officer }
}

/// What the event button of the top bar says.
#[derive(Clone, Copy, Debug, PartialEq, Eq, Structural)]
pub enum EventButtonLabel {
    /// Just "events".
    Plain,
    /// This many events wait for a decision.
    Pending(usize),
    /// This many events are unread.
    Unread(usize),
}

/// The event button's label: without a game, plain; else the events that
/// wait for a decision come first, then the unread ones, as the game counts
/// them (`pending`, `unread`).
pub fn event_button_label(has_game: bool, pending: usize, unread: usize) -> (l: EventButtonLabel)
    ensures
        l == (if !has_game {
            EventButtonLabel::Plain
        } else if pending > 0 {
            EventButtonLabel::Pending(pending)
        } else if unread > 0 {
            EventButtonLabel::Unread(unread)
        } else {
            EventButtonLabel::Plain
        }),
{
    if !has_game {
        EventButtonLabel::Plain
    } else if pending > 0 {
        EventButtonLabel::Pending(pending)
    } else if unread > 0 {
        EventButtonLabel::Unread(unread)
    } else {
        EventButtonLabel::Plain
    }
}

/// The event center's own state.
#[derive(Debug)]
pub struct EventCenterState {
    pub selected_event_id: Option<String>,
    /// The message under the detail pane; empty when there is none.
    pub event_message: String,
}

/// Takes in what answering event `event_id` came to: on success the message
/// is cleared and the event stays selected; on failure the game's error is
/// the message and the selection stays.
pub fn apply_event_decision_result(state: &mut EventCenterState, event_id: &str, result: Result<(), String>)
    ensures
        match result {
            Ok(()) => final(state).event_message@.len() == 0 && (final(state).selected_event_id matches Some(s) && s@
                == event_id@),
            Err(e) => final(state).event_message@ == e@ && final(state).selected_event_id == old(state).selected_event_id,
        },
{
    match result {
        Ok(()) => {
            let e = String::new();
            assert(e@ =~= Seq::<char>::empty());
            state.event_message = e;
            state.selected_event_id = Some(owned(event_id));
        },
        Err(e) => {
            state.event_message = e;
        },
    }
}

} // verus!
