use shogun::technology::TechnologyCatalog;
use shogun::events::{
    EventButtonLabel, EventCenterState, EventChoice, EventResolution, EventStatus, GameEvent, GameEventKind,
    GameEventSeverity, apply_event_decision_result, ensure_selected_event, event_button_label, event_related_objects,
    event_status, event_time_label, find_event, newest_event,
};
use shogun::game::{
    City, Controller, Faction, GameState, Officer, OfficerGender, OfficerStats, OfficerStatus, TroopPool,
};

fn event(id: &str, sequence: u64, resolution: EventResolution, viewed: bool) -> GameEvent {
    GameEvent {
        id: id.to_string(),
        sequence,
        year: 194,
        month: 3,
        turn: 7,
        kind: GameEventKind::Battle,
        severity: GameEventSeverity::Important,
        title: format!("{id} title"),
        summary: format!("{id} summary"),
        detail: String::new(),
        city_id: None,
        faction_id: None,
        officer_id: None,
        viewed,
        resolution,
    }
}

fn small_game() -> GameState {
    GameState {
        year: 194,
        turn: 7,
        player_faction_id: "liu_bei".to_string(),
        factions: vec![Faction {
            id: "liu_bei".to_string(),
            name: "刘备军".to_string(),
            ruler_id: "liu_bei".to_string(),
            heir_id: None,
            selectable: true,
            controlled_by: Controller::Player,
        }],
        officers: vec![Officer {
            id: "liu_bei".to_string(),
            name: "刘备".to_string(),
            faction_id: "liu_bei".to_string(),
            city_id: Some("xiapi".to_string()),
            office_id: None,
            stats: OfficerStats { leadership: 76, strength: 72, intelligence: 78, politics: 80, charm: 99 },
            loyalty: 100,
            birth_year: 161,
            gender: OfficerGender::Male,
            status: OfficerStatus::Active,
            profile: None,
        }],
        cities: vec![City {
            id: "xiapi".to_string(),
            name: "下邳".to_string(),
            faction_id: "liu_bei".to_string(),
            level: 3,
            population: 100,
            gold: 10,
            food: 20,
            materials: 30,
            troops: TroopPool::new(1, 2, 3),
            wounded_troops: TroopPool::default(),
            training: 50,
            agriculture: 100,
            commerce: 100,
            defense: 100,
            order: 80,
            governor_id: None,
            profile: None,
        }],
        marriages: Vec::new(),
        family_relationships: Vec::new(),
        officer_tag_definitions: Vec::new(),
        officer_tag_aliases: Vec::new(),
        official_posts: Vec::new(),
        relations: Vec::new(),
        technology_catalog: TechnologyCatalog { specs: Vec::new() },
        technologies: Vec::new(),
        pending_commands: Vec::new(),
        army_movements: Vec::new(),
        officer_recruitments: Vec::new(),
    }
}

#[test]
fn selection_keeps_an_existing_event_and_falls_back_to_the_newest() {
    let events = vec![
        event("a", 3, EventResolution::NoneRequired, true),
        event("b", 9, EventResolution::NoneRequired, true),
        event("c", 9, EventResolution::NoneRequired, false),
        event("d", 4, EventResolution::NoneRequired, false),
    ];
    assert_eq!(newest_event(&events), Some(2));
    assert_eq!(ensure_selected_event(&Some("a".to_string()), Some(&events)), Some("a".to_string()));
    assert_eq!(ensure_selected_event(&Some("gone".to_string()), Some(&events)), Some("c".to_string()));
    assert_eq!(ensure_selected_event(&None, Some(&events)), Some("c".to_string()));
    assert_eq!(ensure_selected_event(&Some("a".to_string()), None), None);
    assert_eq!(ensure_selected_event(&Some("a".to_string()), Some(&Vec::new())), None);
    assert_eq!(find_event(&events, "d"), Some(3));
    assert_eq!(find_event(&events, "z"), None);
}

#[test]
fn status_follows_the_decision_then_reading() {
    let pending = EventResolution::PendingDecision {
        deadline_turn: 9,
        choices: vec![EventChoice { id: "yes".to_string(), label: "是".to_string(), description: String::new() }],
    };
    assert_eq!(event_status(&event("p", 1, pending, false)), EventStatus::Pending);
    assert_eq!(
        event_status(&event("r", 1, EventResolution::Resolved { label: "是".to_string(), turn: 8 }, false)),
        EventStatus::Resolved
    );
    assert_eq!(
        event_status(&event("x", 1, EventResolution::Expired { label: "否".to_string(), turn: 8 }, true)),
        EventStatus::Expired
    );
    assert_eq!(
        event_status(&event("c", 1, EventResolution::Cancelled { reason: "城陷".to_string(), turn: 8 }, true)),
        EventStatus::Cancelled
    );
    assert_eq!(event_status(&event("u", 1, EventResolution::NoneRequired, false)), EventStatus::Unread);
    assert_eq!(event_status(&event("v", 1, EventResolution::NoneRequired, true)), EventStatus::Recorded);
}

#[test]
fn time_label_names_year_month_and_turn() {
    assert_eq!(event_time_label(&event("a", 1, EventResolution::NoneRequired, true)), "194年3月 第7回合");
    let mut early = event("b", 1, EventResolution::NoneRequired, true);
    early.year = -5;
    early.month = 12;
    early.turn = 0;
    assert_eq!(event_time_label(&early), "-5年12月 第0回合");
}

#[test]
fn related_objects_use_game_names_and_skip_unknown_ones() {
    let game = small_game();
    let mut e = event("a", 1, EventResolution::NoneRequired, true);
    let none = event_related_objects(&game, &e);
    assert!(none.is_empty());
    e.city_id = Some("xiapi".to_string());
    e.faction_id = Some("cao_cao".to_string());
    e.officer_id = Some("liu_bei".to_string());
    let related = event_related_objects(&game, &e);
    assert!(!related.is_empty());
    assert_eq!(related.city.as_deref(), Some("下邳"));
    assert_eq!(related.faction, None);
    assert_eq!(related.officer.as_deref(), Some("刘备"));
}

#[test]
fn event_button_prefers_pending_decisions() {
    assert_eq!(event_button_label(false, 3, 2), EventButtonLabel::Plain);
    assert_eq!(event_button_label(true, 3, 2), EventButtonLabel::Pending(3));
    assert_eq!(event_button_label(true, 0, 2), EventButtonLabel::Unread(2));
    assert_eq!(event_button_label(true, 0, 0), EventButtonLabel::Plain);
}

#[test]
fn decision_results_update_the_center() {
    let mut state = EventCenterState { selected_event_id: Some("old".to_string()), event_message: "之前".to_string() };
    apply_event_decision_result(&mut state, "e1", Err("选项无效".to_string()));
    assert_eq!(state.event_message, "选项无效");
    assert_eq!(state.selected_event_id.as_deref(), Some("old"));
    apply_event_decision_result(&mut state, "e1", Ok(()));
    assert!(state.event_message.is_empty());
    assert_eq!(state.selected_event_id.as_deref(), Some("e1"));
}

#[test]
fn reopening_the_center_keeps_the_selection() {
    let events = vec![
        event("a", 5, EventResolution::NoneRequired, true),
        event("b", 2, EventResolution::NoneRequired, true),
    ];
    for start in [None, Some("b".to_string()), Some("gone".to_string())] {
        let once = ensure_selected_event(&start, Some(&events));
        let twice = ensure_selected_event(&once, Some(&events));
        assert_eq!(once, twice);
    }
}
