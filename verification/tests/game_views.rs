use shogun::technology::TechnologyCatalog;
use shogun::city_list::{cities_by_name, city_list_rows};
use shogun::diplomacy::FactionPairRelation;
use shogun::orders::{
    ArmyMovement, ArmyMovementKind, Command, CommandKind, CommandSummary, DevelopmentFocus, DiplomacyProposal,
    ExpeditionAssignment, OfficerRecruitmentTask, TroopKind, command_summary, expedition_troops,
};
use shogun::technology::{FactionTechnologyState, TechnologyBranch, TechnologySpec};
use shogun::new_game::{can_start_new_game, choose_history_scenario, ensure_selected_faction, selectable_factions, selected_faction};
use shogun::diplomacy::{
    DiplomacyStatus, FactionRelation, RelationSummary, RelationTone, SubmissionOutcome, acceptance_favourable,
    apply_submission_result, diplomacy_status, diplomacy_target_row, relation_summary, relation_tone,
    term_permissions, withdraw_pending_order,
    DiplomacyActionKind, DiplomacyDraft, ResourceBundle, candidate_order, city_resource_bundle,
    diplomacy_targets, ensure_diplomacy_defaults, faction_resource_bundle, normalize_diplomacy_terms,
    player_cities,
};
use shogun::faction_detail::{
    OfficerRole, PersonLabel, faction_detail_cities, faction_detail_officers, faction_detail_snapshot, officer_name,
    officer_role_labels,
};
use shogun::faction_overview::{
    FactionOverviewRow, FactionOverviewSort, FactionOverviewSortColumn, FactionRowInteraction,
    apply_faction_row_interaction, faction_detail_resources, faction_overview_rows,
    sort_faction_overview_rows,
};
use shogun::game::{
    City, CityProfile, Controller, Faction, FamilyRelationship, GameState, Marriage, Officer,
    OfficerGender, OfficerProfile, OfficerStats, OfficerStatus, OfficerTagAlias, OfficerTagCategory,
    OfficerTagDefinition, OfficialPost, SourceConfidence, TroopPool,
};
use shogun::kinship::{ShrineKinshipNodeRole, shrine_connected_kinship_order, shrine_kinship_generations, shrine_kinship_graph};
use shogun::shrine::{AbdicationForm, ShrineKinshipEdge, ShrineKinshipEdgeKind, ShrineRelationshipSource, marriage_request};
use shogun::game::OfficerRelationshipKind;
use shogun::tags::TagSet;
use shogun::map::{MapBoundaryViewCache, TerritoryCell, city_matches_cell, province_border_segments, dominant_cell_faction, selected_city_in_cell_id};
use shogun::officer_browser::{
    OfficerBrowserFilters, OfficerGenderFilter, OfficerRowLabels, OfficerStatusFilter, OfficerTableResponse,
    PostOccupancy, RetainerOfficeAction, apply_table_selection, post_occupancy, retainer_office_action,
    TagFilterSummary, filtered_officer_rows, normalized_officer_tag_ids,
    officer_tag_definitions_by_category, officer_tag_display_text, retainer_officer_rows,
    selected_city_filter_name, selected_tag_filter_text, set_tag_filter,
};
use shogun::officer_detail::{
    RelationshipGraphKind, compact_node_label, officer_city_detail_name, officer_life_span,
    officer_office_detail_name, officer_relationship_graph,
};
use shogun::report::{
    ReportHighlightEntity, ReportHighlightKind, ReportHighlightToken, report_highlight_entities,
    tokenize_report_message,
};
use shogun::settings::UiLanguage;

fn faction(id: &str, name: &str, ruler: &str, controller: Controller) -> Faction {
    Faction {
        id: id.to_string(),
        name: name.to_string(),
        ruler_id: ruler.to_string(),
        heir_id: None,
        selectable: true,
        controlled_by: controller,
    }
}

fn city(id: &str, name: &str, faction_id: &str, commandery: &str) -> City {
    City {
        id: id.to_string(),
        name: name.to_string(),
        faction_id: faction_id.to_string(),
        level: 3,
        population: 50_000,
        gold: 1_000,
        food: 2_000,
        materials: 500,
        troops: TroopPool::new(3_000, 1_000, 1_000),
        wounded_troops: TroopPool::default(),
        training: 50,
        agriculture: 300,
        commerce: 300,
        defense: 400,
        order: 60,
        governor_id: None,
        profile: Some(CityProfile {
            province: "test".to_string(),
            commandery: commandery.to_string(),
        }),
    }
}

fn profile(id: &str, name: &str, tags: &[&str]) -> OfficerProfile {
    OfficerProfile {
        id: id.to_string(),
        name: name.to_string(),
        courtesy_name: None,
        native_place: None,
        birth_year: Some(161),
        death_year: Some(223),
        gender: OfficerGender::Male,
        stats: OfficerStats::default(),
        tags: tags.iter().map(|t| t.to_string()).collect(),
        confidence: SourceConfidence::High,
        biography: String::new(),
        relationships: Vec::new(),
        notes: String::new(),
    }
}

fn officer(id: &str, name: &str, faction_id: &str, city_id: &str, tags: &[&str]) -> Officer {
    Officer {
        id: id.to_string(),
        name: name.to_string(),
        faction_id: faction_id.to_string(),
        city_id: Some(city_id.to_string()),
        office_id: None,
        stats: OfficerStats {
            leadership: 70,
            strength: 70,
            intelligence: 70,
            politics: 70,
            charm: 70,
        },
        loyalty: 90,
        birth_year: 161,
        gender: OfficerGender::Male,
        status: OfficerStatus::Active,
        profile: Some(profile(id, name, tags)),
    }
}

fn tag(id: &str, category: OfficerTagCategory, zh: &str, en: &str) -> OfficerTagDefinition {
    OfficerTagDefinition {
        id: id.to_string(),
        category,
        label_zh: zh.to_string(),
        label_en: en.to_string(),
    }
}

/// A small game in the year 200 with the player leading Liu Bei's faction.
fn test_game() -> GameState {
    GameState {
        year: 200,
        turn: 1,
        player_faction_id: "liu_bei".to_string(),
        factions: vec![
            faction("cao_cao", "曹操军", "cao_cao", Controller::RuleAi),
            faction("liu_bei", "刘备军", "liu_bei", Controller::Player),
            faction("sun_quan", "孙权军", "sun_quan", Controller::RuleAi),
        ],
        officers: vec![
            officer("cao_cao", "曹操", "cao_cao", "xuchang", &["role:ruler"]),
            officer("guan_yu", "关羽", "liu_bei", "pingyuan", &["role:general", "affiliation:shu_han"]),
            officer("jian_yong", "简雍", "liu_bei", "xiapi", &["role:administrator", "affiliation:shu_han"]),
            officer("liu_bei", "刘备", "liu_bei", "pingyuan", &["role:ruler", "affiliation:shu_han"]),
            officer("sun_quan", "孙权", "sun_quan", "jianye", &["role:ruler"]),
            officer("zhang_fei", "张飞", "liu_bei", "pingyuan", &["role:general", "affiliation:shu_han"]),
            officer("zhao_yun", "赵云", "liu_bei", "xiapi", &["role:general"]),
        ],
        cities: vec![
            city("jianye", "建业", "sun_quan", "丹阳郡"),
            city("pingyuan", "平原", "liu_bei", "平原郡"),
            city("xiapi", "下邳", "liu_bei", "下邳郡"),
            city("xuchang", "许昌", "cao_cao", "颍川郡"),
        ],
        marriages: Vec::new(),
        family_relationships: Vec::new(),
        officer_tag_definitions: vec![
            tag("role:ruler", OfficerTagCategory::Role, "君主", "Ruler"),
            tag("role:general", OfficerTagCategory::Role, "武将", "General"),
            tag("role:administrator", OfficerTagCategory::Role, "文官", "Administrator"),
            tag("affiliation:shu_han", OfficerTagCategory::Affiliation, "蜀汉", "Shu Han"),
        ],
        officer_tag_aliases: vec![
            OfficerTagAlias { alias: "ruler".to_string(), tag_id: "role:ruler".to_string() },
            OfficerTagAlias { alias: "shu_han".to_string(), tag_id: "affiliation:shu_han".to_string() },
        ],
        official_posts: vec![OfficialPost {
            id: "taifu".to_string(),
            name: "太傅".to_string(),
            rank_label: "万石".to_string(),
            rank_order: 9,
        }],
        relations: Vec::new(),
        technology_catalog: TechnologyCatalog { specs: Vec::new() },
        technologies: Vec::new(),
        pending_commands: Vec::new(),
        army_movements: Vec::new(),
        officer_recruitments: Vec::new(),
    }
}

fn labels() -> OfficerRowLabels {
    OfficerRowLabels {
        unknown_faction: "未知".to_string(),
        unassigned_city: "未分配".to_string(),
        no_office: "无".to_string(),
    }
}

fn city_mut<'a>(game: &'a mut GameState, id: &str) -> &'a mut City {
    game.cities.iter_mut().find(|c| c.id == id).unwrap()
}

fn officer_mut<'a>(game: &'a mut GameState, id: &str) -> &'a mut Officer {
    game.officers.iter_mut().find(|o| o.id == id).unwrap()
}

fn officer_ref<'a>(game: &'a GameState, id: &str) -> &'a Officer {
    game.officers.iter().find(|o| o.id == id).unwrap()
}

fn faction_mut<'a>(game: &'a mut GameState, id: &str) -> &'a mut Faction {
    game.factions.iter_mut().find(|f| f.id == id).unwrap()
}

fn test_row(id: &str, name: &str, city_count: usize, gold: i64) -> FactionOverviewRow {
    FactionOverviewRow {
        faction_id: id.to_string(),
        faction_name: name.to_string(),
        city_count,
        active_officer_count: 0,
        gold,
        food: 0,
        materials: 0,
        troops: 0,
        population: 0,
        wounded: 0,
    }
}

fn row_ids(rows: &[FactionOverviewRow]) -> Vec<&str> {
    rows.iter().map(|row| row.faction_name.as_str()).collect()
}

#[test]
fn faction_rows_exclude_factions_without_cities() {
    let mut game = test_game();
    game.factions.push(Faction {
        id: "empty_faction".to_string(),
        name: "空势力".to_string(),
        ruler_id: "liu_bei".to_string(),
        heir_id: None,
        selectable: false,
        controlled_by: Controller::RuleAi,
    });

    let rows = faction_overview_rows(&game, FactionOverviewSort::default());

    assert!(!rows.iter().any(|row| row.faction_id == "empty_faction"));
}

#[test]
fn faction_rows_count_only_active_officers() {
    let mut game = test_game();
    let faction_id = game.player_faction_id.clone();
    for officer in game.officers.iter_mut() {
        if officer.faction_id == faction_id {
            officer.faction_id = "wild".to_string();
        }
    }
    let template = game.officers[0].clone();
    for (id, status) in [
        ("active_one", OfficerStatus::Active),
        ("active_two", OfficerStatus::Active),
        ("minor", OfficerStatus::Minor),
        ("dead", OfficerStatus::Dead),
        ("unavailable", OfficerStatus::Unavailable),
    ] {
        let mut officer = template.clone();
        officer.id = id.to_string();
        officer.name = id.to_string();
        officer.faction_id = faction_id.clone();
        officer.status = status;
        game.officers.push(officer);
    }

    let rows = faction_overview_rows(&game, FactionOverviewSort::default());
    let row = rows.iter().find(|row| row.faction_id == faction_id).unwrap();

    assert_eq!(row.active_officer_count, 2);
}

#[test]
fn faction_rows_aggregate_city_resources() {
    let mut game = test_game();
    let faction_id = game.player_faction_id.clone();
    let city_ids = game
        .cities
        .iter()
        .filter(|city| city.faction_id == faction_id)
        .take(2)
        .map(|city| city.id.clone())
        .collect::<Vec<_>>();
    assert_eq!(city_ids.len(), 2);
    {
        let city = city_mut(&mut game, &city_ids[0]);
        city.gold = 10;
        city.food = 20;
        city.materials = 30;
        city.troops = TroopPool { infantry: 40, cavalry: 50, archers: 60 };
        city.population = 70;
        city.wounded_troops = TroopPool { infantry: 1, cavalry: 2, archers: 3 };
    }
    {
        let city = city_mut(&mut game, &city_ids[1]);
        city.gold = 100;
        city.food = 200;
        city.materials = 300;
        city.troops = TroopPool { infantry: 400, cavalry: 500, archers: 600 };
        city.population = 700;
        city.wounded_troops = TroopPool { infantry: 10, cavalry: 20, archers: 30 };
    }

    let rows = faction_overview_rows(&game, FactionOverviewSort::default());
    let row = rows.iter().find(|row| row.faction_id == faction_id).unwrap();

    assert_eq!(row.city_count, 2);
    assert_eq!(row.gold, 110);
    assert_eq!(row.food, 220);
    assert_eq!(row.materials, 330);
    assert_eq!(row.troops, 1_650);
    assert_eq!(row.population, 770);
    assert_eq!(row.wounded, 66);
}

#[test]
fn faction_rows_sort_with_default_direction_toggle_and_tiebreaker() {
    let mut rows = vec![test_row("b", "B", 3, 20), test_row("a", "A", 3, 40), test_row("c", "C", 1, 30)];

    sort_faction_overview_rows(&mut rows, FactionOverviewSort::default());
    assert_eq!(row_ids(&rows), vec!["A", "B", "C"]);

    let mut sort = FactionOverviewSort::default();
    sort.activate(FactionOverviewSortColumn::Cities);
    sort_faction_overview_rows(&mut rows, sort);
    assert_eq!(row_ids(&rows), vec!["C", "A", "B"]);

    sort.activate(FactionOverviewSortColumn::Faction);
    sort_faction_overview_rows(&mut rows, sort);
    assert_eq!(row_ids(&rows), vec!["A", "B", "C"]);

    sort.activate(FactionOverviewSortColumn::Gold);
    sort_faction_overview_rows(&mut rows, sort);
    assert_eq!(row_ids(&rows), vec!["A", "C", "B"]);
}

#[test]
fn faction_sort_toggles_direction_on_the_same_column() {
    let mut rows = vec![test_row("b", "B", 3, 20), test_row("a", "A", 3, 40), test_row("c", "C", 1, 30)];
    let mut sort = FactionOverviewSort::default();
    sort.activate(FactionOverviewSortColumn::Faction);
    assert!(sort.descending);
    sort_faction_overview_rows(&mut rows, sort);
    assert_eq!(row_ids(&rows), vec!["C", "B", "A"]);
    sort.activate(FactionOverviewSortColumn::Cities);
    sort.activate(FactionOverviewSortColumn::Cities);
    assert!(sort.descending);
    sort_faction_overview_rows(&mut rows, sort);
    assert_eq!(row_ids(&rows), vec!["A", "B", "C"]);
}

#[test]
fn faction_sort_keeps_rows_tied_in_every_key_in_input_order() {
    let mut rows = vec![
        test_row("x", "Same", 2, 5),
        test_row("a", "Alpha", 1, 0),
        test_row("x", "Same", 2, 9),
        test_row("x", "Same", 2, 7),
    ];
    let mut sort = FactionOverviewSort::default();
    sort.activate(FactionOverviewSortColumn::Cities);
    sort_faction_overview_rows(&mut rows, sort);
    let golds: Vec<i64> = rows.iter().map(|row| row.gold).collect();
    assert_eq!(golds, vec![0, 5, 9, 7]);

    sort.activate(FactionOverviewSortColumn::Cities);
    assert!(sort.descending);
    sort_faction_overview_rows(&mut rows, sort);
    let golds: Vec<i64> = rows.iter().map(|row| row.gold).collect();
    assert_eq!(golds, vec![5, 9, 7, 0]);
}

#[test]
fn faction_row_interaction_selects_and_opens_detail() {
    let mut selected = None;
    let mut detail = None;

    apply_faction_row_interaction(
        "liu_bei",
        &mut selected,
        &mut detail,
        FactionRowInteraction { clicked: true, ..FactionRowInteraction::default() },
    );
    assert_eq!(selected.as_deref(), Some("liu_bei"));
    assert_eq!(detail, None);

    apply_faction_row_interaction(
        "cao_cao",
        &mut selected,
        &mut detail,
        FactionRowInteraction { view_clicked: true, ..FactionRowInteraction::default() },
    );
    assert_eq!(selected.as_deref(), Some("cao_cao"));
    assert_eq!(detail.as_deref(), Some("cao_cao"));

    apply_faction_row_interaction(
        "sun_quan",
        &mut selected,
        &mut detail,
        FactionRowInteraction { double_clicked: true, ..FactionRowInteraction::default() },
    );
    assert_eq!(selected.as_deref(), Some("sun_quan"));
    assert_eq!(detail.as_deref(), Some("sun_quan"));
}

fn configure_city_resources(game: &mut GameState, city_id: &str, base: i32) {
    let city = city_mut(game, city_id);
    city.gold = base;
    city.food = base * 2;
    city.materials = base * 3;
    city.population = (base * 7) as u32;
    city.troops = TroopPool::new((base * 4) as u32, (base * 5) as u32, (base * 6) as u32);
    city.wounded_troops = TroopPool::new((base / 10) as u32, (base / 5) as u32, (base * 3 / 10) as u32);
}

#[test]
fn faction_detail_snapshot_aggregates_resources_and_people() {
    let mut game = test_game();
    let faction_id = game.player_faction_id.clone();
    faction_mut(&mut game, &faction_id).heir_id = Some("guan_yu".to_string());
    city_mut(&mut game, "pingyuan").governor_id = Some("liu_bei".to_string());
    officer_mut(&mut game, "liu_bei").office_id = Some("taifu".to_string());
    officer_mut(&mut game, "zhao_yun").status = OfficerStatus::Unavailable;
    configure_city_resources(&mut game, "pingyuan", 10);
    configure_city_resources(&mut game, "xiapi", 100);

    let snapshot = faction_detail_snapshot(&game, &faction_id).unwrap();

    assert!(snapshot.alive);
    assert!(matches!(snapshot.heir, PersonLabel::Name(ref n) if n == "关羽"));
    assert_eq!(snapshot.resources.city_count, 2);
    assert_eq!(snapshot.resources.gold, 110);
    assert_eq!(snapshot.resources.food, 220);
    assert_eq!(snapshot.resources.materials, 330);
    assert_eq!(snapshot.resources.population, 770);
    assert_eq!(
        (snapshot.resources.troops.infantry, snapshot.resources.troops.cavalry, snapshot.resources.troops.archers),
        (440, 550, 660)
    );
    assert_eq!(snapshot.resources.wounded, 66);
    assert!(snapshot.resources.total_officer_count >= snapshot.resources.active_officer_count);
    let ruler = snapshot.officers.iter().find(|officer| officer.name == "刘备").unwrap();
    assert!(ruler.roles.iter().any(|role| matches!(role, OfficerRole::Ruler)));
    assert!(ruler.roles.iter().any(|role| matches!(role, OfficerRole::Governor)));
    assert!(ruler.roles.iter().any(|role| matches!(role, OfficerRole::Office(name) if name == "太傅")));
}

#[test]
fn faction_detail_snapshot_lists_diplomacy_technology_and_actions() {
    let mut game = test_game();
    let faction_id = game.player_faction_id.clone();
    let other_faction_id = game
        .factions
        .iter()
        .find(|f| f.id != faction_id && game.faction_alive(&f.id))
        .unwrap()
        .id
        .clone();
    let turn = game.turn;
    game.relations.push(FactionPairRelation {
        first: other_faction_id.clone(),
        second: faction_id.clone(),
        relation: FactionRelation { score: 42, truce_until_turn: Some(turn + 3), passage_rights: Vec::new() },
    });
    game.technology_catalog = TechnologyCatalog {
        specs: vec![
            TechnologySpec {
                id: "militia_drill".to_string(),
                name: "乡勇操练".to_string(),
                branch: TechnologyBranch::Military,
                prerequisites: Vec::new(),
                turns: 3,
                gold_cost: 200,
                effect: String::new(),
                icon_id: "users".to_string(),
            },
            TechnologySpec {
                id: "household_registers".to_string(),
                name: "户籍清丈".to_string(),
                branch: TechnologyBranch::Domestic,
                prerequisites: Vec::new(),
                turns: 3,
                gold_cost: 300,
                effect: String::new(),
                icon_id: "scroll".to_string(),
            },
        ],
    };
    game.technologies.push((
        faction_id.clone(),
        FactionTechnologyState {
            active: Some("militia_drill".to_string()),
            progress: vec![("militia_drill".to_string(), 1)],
            funded: TagSet::from_tags(&vec!["militia_drill".to_string()]),
            completed: TagSet::from_tags(&vec!["household_registers".to_string()]),
        },
    ));
    game.pending_commands.push(Command {
        issuer_faction_id: faction_id.clone(),
        city_id: "pingyuan".to_string(),
        officer_id: Some("liu_bei".to_string()),
        kind: CommandKind::Train,
    });
    game.pending_commands.push(Command {
        issuer_faction_id: other_faction_id.clone(),
        city_id: "xuchang".to_string(),
        officer_id: Some("cao_cao".to_string()),
        kind: CommandKind::Train,
    });
    game.army_movements.push(ArmyMovement {
        kind: ArmyMovementKind::Transfer,
        issuer_faction_id: faction_id.clone(),
        source_city_id: "pingyuan".to_string(),
        target_city_id: "xiapi".to_string(),
        commander_id: "liu_bei".to_string(),
        officer_ids: vec!["liu_bei".to_string()],
        troops: TroopPool::new(1, 2, 3),
        food_supply: 0,
        wounded_troops: TroopPool::default(),
        assignments: Vec::new(),
        siege_started_turn: None,
        training: 50,
        distance_li: 100,
        departure_turn: game.turn,
        arrival_turn: game.turn + 1,
    });
    game.officer_recruitments.push(OfficerRecruitmentTask {
        id: "task".to_string(),
        issuer_faction_id: faction_id.clone(),
        source_city_id: "pingyuan".to_string(),
        recruiter_officer_id: "liu_bei".to_string(),
        target_officer_id: "zhao_yun".to_string(),
        progress: 35,
        attempt_months: 1,
        started_turn: game.turn,
    });

    let snapshot = faction_detail_snapshot(&game, &faction_id).unwrap();

    assert!(snapshot.diplomacy.iter().any(|row| row.score == 42 && row.truce_until == Some(game.turn + 3)));
    assert_eq!(snapshot.technology.active_name.as_deref(), Some("乡勇操练"));
    assert_eq!(snapshot.technology.funded_count, 1);
    assert_eq!(snapshot.technology.completed_count, 1);
    assert_eq!(snapshot.technology.completed_names, vec!["户籍清丈"]);
    assert_eq!(snapshot.pending_commands.len(), 1);
    assert_eq!(snapshot.pending_commands[0].city, "平原");
    assert!(matches!(snapshot.pending_commands[0].summary, CommandSummary::Train));
    assert_eq!(snapshot.army_movements.len(), 1);
    assert!(matches!(snapshot.army_movements[0].commander, PersonLabel::Name(ref n) if n == "刘备"));
    assert_eq!(snapshot.army_movements[0].troops, 6);
    assert_eq!(snapshot.army_movements[0].target, "下邳");
    assert_eq!(snapshot.recruitments.len(), 1);
    assert!(matches!(snapshot.recruitments[0].target, PersonLabel::Name(ref n) if n == "赵云"));
    assert_eq!(snapshot.recruitments[0].progress, 35);
}

#[test]
fn faction_detail_snapshot_handles_destroyed_faction() {
    let mut game = test_game();
    let faction_id = game.player_faction_id.clone();
    for city in game.cities.iter_mut() {
        if city.faction_id == faction_id {
            city.faction_id = "cao_cao".to_string();
        }
    }

    let snapshot = faction_detail_snapshot(&game, &faction_id).unwrap();

    assert!(!snapshot.alive);
    assert_eq!(snapshot.resources.city_count, 0);
    assert!(snapshot.cities.is_empty());
    assert!(faction_detail_snapshot(&game, "nobody").is_none());
}

#[test]
fn command_summaries_name_their_targets() {
    let game = test_game();
    let command = |kind: CommandKind| Command {
        issuer_faction_id: "liu_bei".to_string(),
        city_id: "pingyuan".to_string(),
        officer_id: None,
        kind,
    };
    match command_summary(&game, &command(CommandKind::AppointGovernor { target_officer_id: "guan_yu".to_string() })) {
        CommandSummary::AppointGovernor { officer, city } => {
            assert!(matches!(officer, PersonLabel::Name(ref n) if n == "关羽"));
            assert_eq!(city, "平原");
        }
        other => panic!("unexpected {other:?}"),
    }
    let assignments = vec![
        ExpeditionAssignment { troop_kind: TroopKind::Infantry, troops: 100 },
        ExpeditionAssignment { troop_kind: TroopKind::Archers, troops: 30 },
        ExpeditionAssignment { troop_kind: TroopKind::Infantry, troops: 50 },
    ];
    assert_eq!(expedition_troops(&assignments), TroopPool::new(150, 0, 30));
    match command_summary(
        &game,
        &command(CommandKind::Expedition { target_city_id: "xuchang".to_string(), assignments }),
    ) {
        CommandSummary::Expedition { troops, target_city } => {
            assert_eq!(troops, TroopPool::new(150, 0, 30));
            assert_eq!(target_city, "许昌");
        }
        other => panic!("unexpected {other:?}"),
    }
    match command_summary(
        &game,
        &command(CommandKind::Transfer { target_city_id: "lost_city".to_string(), troops: TroopPool::new(1, 0, 0) }),
    ) {
        CommandSummary::Transfer { target_city, .. } => assert_eq!(target_city, "lost_city"),
        other => panic!("unexpected {other:?}"),
    }
    match command_summary(
        &game,
        &command(CommandKind::Diplomacy { target_faction_id: "cao_cao".to_string(), proposal: DiplomacyProposal::Truce }),
    ) {
        CommandSummary::Diplomacy { proposal, target_faction } => {
            assert_eq!(proposal, DiplomacyProposal::Truce);
            assert_eq!(target_faction, game.factions.iter().find(|f| f.id == "cao_cao").unwrap().name);
        }
        other => panic!("unexpected {other:?}"),
    }
    assert!(matches!(
        command_summary(&game, &command(CommandKind::Recruit { kind: TroopKind::Cavalry, amount: 500 })),
        CommandSummary::Recruit { kind: TroopKind::Cavalry, amount: 500 }
    ));
    assert!(matches!(
        command_summary(&game, &command(CommandKind::Develop { focus: DevelopmentFocus::Commerce })),
        CommandSummary::Develop { focus: DevelopmentFocus::Commerce }
    ));
}

#[test]
fn faction_detail_tables_are_ordered_by_troops_and_rank() {
    let mut game = test_game();
    faction_mut(&mut game, "liu_bei").heir_id = Some("guan_yu".to_string());
    city_mut(&mut game, "xiapi").troops = TroopPool::new(9_000, 0, 0);
    city_mut(&mut game, "xiapi").governor_id = Some("jian_yong".to_string());
    officer_mut(&mut game, "zhang_fei").stats.leadership = 90;

    let cities = faction_detail_cities(&game, "liu_bei");
    assert_eq!(cities.iter().map(|c| c.name.as_str()).collect::<Vec<_>>(), vec!["下邳", "平原"]);
    assert_eq!(cities[0].troops, 9_000);
    assert!(matches!(cities[0].governor, PersonLabel::Name(ref n) if n == "简雍"));
    assert!(matches!(cities[1].governor, PersonLabel::Nobody));

    let faction = game.factions[1].clone();
    let officers = faction_detail_officers(&game, &faction);
    let names = officers.iter().map(|o| o.name.as_str()).collect::<Vec<_>>();
    assert_eq!(names, vec!["刘备", "关羽", "简雍", "张飞", "赵云"]);
    assert_eq!(officers[0].rank_score, 10_000);
    assert_eq!(officers[1].rank_score, 8_000);
    assert_eq!(officers[2].rank_score, 4_000);
    assert_eq!(officers[0].city_name.as_deref(), Some("平原"));
}

#[test]
fn faction_detail_cities_equal_in_troops_and_name_keep_table_order() {
    let mut game = test_game();
    let ids: Vec<String> =
        game.cities.iter().filter(|c| c.faction_id == "liu_bei").map(|c| c.id.clone()).collect();
    assert_eq!(ids.len(), 2);
    for (k, id) in ids.iter().enumerate() {
        let city = city_mut(&mut game, id);
        city.name = "同名".to_string();
        city.troops = TroopPool::new(500, 0, 0);
        city.gold = 100 + k as i32;
    }
    let cities = faction_detail_cities(&game, "liu_bei");
    assert_eq!(cities.iter().map(|c| c.gold).collect::<Vec<_>>(), vec![100, 101]);
}

#[test]
fn officer_names_fall_back_to_identifier_or_unknown() {
    let game = test_game();
    assert!(matches!(officer_name(&game, "guan_yu"), PersonLabel::Name(ref n) if n == "关羽"));
    assert!(matches!(officer_name(&game, "lu_bu"), PersonLabel::Name(ref n) if n == "lu_bu"));
    assert!(matches!(officer_name(&game, ""), PersonLabel::Unknown));
}

#[test]
fn officer_roles_follow_ruler_heir_governor_office_order() {
    let mut game = test_game();
    faction_mut(&mut game, "liu_bei").heir_id = Some("liu_bei".to_string());
    city_mut(&mut game, "xiapi").governor_id = Some("liu_bei".to_string());
    officer_mut(&mut game, "liu_bei").office_id = Some("taifu".to_string());
    let faction = game.factions[1].clone();
    let roles = officer_role_labels(&game, &faction, officer_ref(&game, "liu_bei"));
    assert_eq!(roles.len(), 4);
    assert!(matches!(roles[0], OfficerRole::Ruler));
    assert!(matches!(roles[1], OfficerRole::Heir));
    assert!(matches!(roles[2], OfficerRole::Governor));
    assert!(matches!(&roles[3], OfficerRole::Office(name) if name == "太傅"));
    let none = officer_role_labels(&game, &faction, officer_ref(&game, "zhao_yun"));
    assert!(none.is_empty());
}

#[test]
fn report_highlight_tokenizer_matches_officers_and_cities() {
    let entities = vec![
        ReportHighlightEntity { name: "关羽".to_string(), kind: ReportHighlightKind::Officer },
        ReportHighlightEntity { name: "平原".to_string(), kind: ReportHighlightKind::City },
    ];

    let tokens = tokenize_report_message("关羽 进驻 平原", &entities);

    assert_eq!(
        tokens,
        vec![
            ReportHighlightToken { text: "关羽".to_string(), kind: Some(ReportHighlightKind::Officer) },
            ReportHighlightToken { text: " 进驻 ".to_string(), kind: None },
            ReportHighlightToken { text: "平原".to_string(), kind: Some(ReportHighlightKind::City) },
        ]
    );
}

#[test]
fn report_highlight_tokenizer_prefers_longest_match() {
    let entities = vec![
        ReportHighlightEntity { name: "关羽".to_string(), kind: ReportHighlightKind::Officer },
        ReportHighlightEntity { name: "关羽改".to_string(), kind: ReportHighlightKind::Officer },
    ];

    let tokens = tokenize_report_message("关羽改 完成训练", &entities);

    assert_eq!(
        tokens,
        vec![
            ReportHighlightToken { text: "关羽改".to_string(), kind: Some(ReportHighlightKind::Officer) },
            ReportHighlightToken { text: " 完成训练".to_string(), kind: None },
        ]
    );
}

#[test]
fn report_highlight_tokenizer_keeps_unmatched_text_plain() {
    let entities = vec![ReportHighlightEntity { name: "关羽".to_string(), kind: ReportHighlightKind::Officer }];

    let tokens = tokenize_report_message("本月无事", &entities);

    assert_eq!(tokens, vec![ReportHighlightToken { text: "本月无事".to_string(), kind: None }]);
}

#[test]
fn report_highlight_tokenizer_joins_back_to_the_message() {
    let entities = vec![
        ReportHighlightEntity { name: "平原".to_string(), kind: ReportHighlightKind::City },
        ReportHighlightEntity { name: "刘备".to_string(), kind: ReportHighlightKind::Officer },
    ];
    let message = "刘备自平原出兵，刘备军至下邳";
    let tokens = tokenize_report_message(message, &entities);
    let joined: String = tokens.iter().map(|t| t.text.as_str()).collect();
    assert_eq!(joined, message);
    assert_eq!(tokens.len(), 6);
    assert!(tokenize_report_message("", &entities).is_empty());
}

#[test]
fn report_highlight_entities_collect_officers_before_cities() {
    let game = test_game();

    let entities = report_highlight_entities(&game);

    assert!(entities.iter().any(|entity| entity.name == "刘备" && entity.kind == ReportHighlightKind::Officer));
    assert!(entities.iter().any(|entity| entity.name == "平原" && entity.kind == ReportHighlightKind::City));
    let last_officer = entities.iter().rposition(|e| e.kind == ReportHighlightKind::Officer).unwrap();
    let first_city = entities.iter().position(|e| e.kind == ReportHighlightKind::City).unwrap();
    assert!(last_officer < first_city);
}

fn test_cell(name: &str, city_ids: &[&str]) -> TerritoryCell {
    TerritoryCell {
        boundary_id: format!("boundary_{name}"),
        name: name.to_string(),
        parent_id: Some("province_yuzhou".to_string()),
        city_ids: city_ids.iter().map(|city_id| city_id.to_string()).collect(),
        points: vec![(0, 0), (1000, 0), (0, 1000)],
    }
}

#[test]
fn explicit_cell_city_ids_do_not_match_other_cities_in_same_commandery() {
    let cell = test_cell("颍川郡", &["yingchuan"]);
    let xuchang = city("xuchang", "许昌", "cao_cao", "颍川郡");

    assert!(!city_matches_cell(&cell, &xuchang));
}

#[test]
fn cells_without_city_ids_fall_back_to_commandery_name() {
    let cell = test_cell("颍川郡", &[]);
    let xuchang = city("xuchang", "许昌", "cao_cao", "颍川郡");

    assert!(city_matches_cell(&cell, &xuchang));
}

#[test]
fn dominant_cell_faction_counts_cities_then_troops() {
    let mut game = test_game();
    let cell = test_cell("徐州", &["pingyuan", "xiapi", "xuchang"]);
    assert_eq!(dominant_cell_faction(&cell, &game), Some(1));
    city_mut(&mut game, "xiapi").faction_id = "cao_cao".to_string();
    city_mut(&mut game, "xuchang").troops = TroopPool::new(1, 0, 0);
    assert_eq!(dominant_cell_faction(&cell, &game), Some(0));
    assert_eq!(dominant_cell_faction(&test_cell("空", &["nowhere"]), &game), None);
    assert!(selected_city_in_cell_id(&cell, &game, Some("xiapi")));
    assert!(!selected_city_in_cell_id(&cell, &game, Some("jianye")));
    assert!(!selected_city_in_cell_id(&cell, &game, None));
}

#[test]
fn officer_browser_search_matches_name_id_faction_and_city() {
    let game = test_game();
    let mut filters = OfficerBrowserFilters::default();

    filters.search = "关羽".to_string();
    assert!(filtered_officer_rows(&filters, &game, &labels()).iter().any(|row| row.name == "关羽"));

    filters.search = "guan_yu".to_string();
    assert!(filtered_officer_rows(&filters, &game, &labels())
        .iter()
        .any(|row| row.id == "guan_yu" && row.name == "关羽"));

    filters.search = "刘备军".to_string();
    assert!(!filtered_officer_rows(&filters, &game, &labels()).is_empty());

    filters.search = "平原".to_string();
    assert!(filtered_officer_rows(&filters, &game, &labels()).iter().all(|row| row.city_name == "平原"));
}

#[test]
fn officer_browser_filters_can_be_combined() {
    let mut game = test_game();
    officer_mut(&mut game, "guan_yu").gender = OfficerGender::Male;
    let filters = OfficerBrowserFilters {
        gender: OfficerGenderFilter::Male,
        faction_id: Some("liu_bei".to_string()),
        status: OfficerStatusFilter::Active,
        city_id: Some("pingyuan".to_string()),
        ..OfficerBrowserFilters::default()
    };

    let rows = filtered_officer_rows(&filters, &game, &labels());

    assert!(!rows.is_empty());
    assert!(rows.iter().all(|row| {
        row.gender == OfficerGender::Male
            && row.faction_name == "刘备军"
            && row.status == OfficerStatus::Active
            && row.city_name == "平原"
    }));
}

#[test]
fn officer_browser_tag_filters_use_or_within_category_and_and_across_categories() {
    let game = test_game();
    let mut filters = OfficerBrowserFilters::default();
    filters.tag_ids.insert("role:general".to_string());
    filters.tag_ids.insert("role:administrator".to_string());
    filters.tag_ids.insert("affiliation:shu_han".to_string());

    let rows = filtered_officer_rows(&filters, &game, &labels());

    assert!(!rows.is_empty());
    assert!(rows.iter().all(|row| {
        let officer = officer_ref(&game, &row.id);
        let tags = normalized_officer_tag_ids(officer, &game);
        (tags.contains("role:general") || tags.contains("role:administrator")) && tags.contains("affiliation:shu_han")
    }));
    let ids = rows.iter().map(|r| r.id.as_str()).collect::<Vec<_>>();
    assert!(!ids.contains(&"zhao_yun"));
    assert!(!ids.contains(&"liu_bei"));
}

#[test]
fn officer_browser_tag_filter_matches_legacy_profile_tags_and_resets() {
    let mut game = test_game();
    officer_mut(&mut game, "liu_bei").profile.as_mut().unwrap().tags = vec!["ruler".to_string(), "shu_han".to_string()];
    let mut filters = OfficerBrowserFilters::default();
    filters.tag_ids.insert("role:ruler".to_string());
    filters.tag_ids.insert("affiliation:shu_han".to_string());

    let rows = filtered_officer_rows(&filters, &game, &labels());

    assert!(rows.iter().any(|row| row.id == "liu_bei"));
    filters.reset();
    assert!(filters.tag_ids.is_empty());
}

#[test]
fn officer_browser_empty_filters_return_all_officers_stably_sorted() {
    let game = test_game();
    let rows = filtered_officer_rows(&OfficerBrowserFilters::default(), &game, &labels());
    let sorted_names = rows.windows(2).all(|pair| {
        (&pair[0].faction_name, &pair[0].city_name, &pair[0].name, &pair[0].id)
            <= (&pair[1].faction_name, &pair[1].city_name, &pair[1].name, &pair[1].id)
    });

    assert_eq!(rows.len(), game.officers.len());
    assert!(sorted_names);
}

#[test]
fn officer_browser_rows_reflect_updated_officer_profile_fields() {
    let mut game = test_game();
    {
        let officer = officer_mut(&mut game, "guan_yu");
        officer.name = "关羽改".to_string();
        officer.gender = OfficerGender::Female;
        officer.stats.leadership = 91;
        officer.stats.strength = 92;
    }
    let filters = OfficerBrowserFilters { search: "guan_yu".to_string(), ..OfficerBrowserFilters::default() };

    let rows = filtered_officer_rows(&filters, &game, &labels());

    assert_eq!(rows.len(), 1);
    assert_eq!(rows[0].id, "guan_yu");
    assert_eq!(rows[0].name, "关羽改");
    assert_eq!(rows[0].gender, OfficerGender::Female);
    assert_eq!(rows[0].stats.leadership, 91);
    assert_eq!(rows[0].stats.strength, 92);
}

#[test]
fn officer_browser_rows_include_office() {
    let mut game = test_game();
    officer_mut(&mut game, "guan_yu").office_id = Some("taifu".to_string());
    let filters = OfficerBrowserFilters { search: "万石".to_string(), ..OfficerBrowserFilters::default() };

    let rows = filtered_officer_rows(&filters, &game, &labels());

    assert!(rows.iter().any(|row| row.id == "guan_yu" && row.office_name == "太傅"));
    assert!(rows.iter().all(|row| row.id == "guan_yu"));
}

#[test]
fn retainer_rows_only_return_player_active_officers() {
    let mut game = test_game();
    let filters = OfficerBrowserFilters {
        faction_id: Some("cao_cao".to_string()),
        status: OfficerStatusFilter::Dead,
        ..OfficerBrowserFilters::default()
    };
    officer_mut(&mut game, "jian_yong").status = OfficerStatus::Unavailable;

    let player = game.player_faction_id.clone();
    let rows = retainer_officer_rows(&filters, &game, &player, &labels());

    assert!(!rows.is_empty());
    assert!(rows.iter().all(|row| row.faction_id == game.player_faction_id && row.status == OfficerStatus::Active));
    assert!(rows.iter().all(|row| row.id != "cao_cao"));
    assert!(rows.iter().all(|row| row.id != "jian_yong"));
}

#[test]
fn tag_texts_and_groups_follow_the_catalog() {
    let game = test_game();
    assert_eq!(officer_tag_display_text(&game, "role:general", UiLanguage::SimplifiedChinese), "武将");
    assert_eq!(officer_tag_display_text(&game, "role:general", UiLanguage::English), "General");
    assert_eq!(officer_tag_display_text(&game, "role:unknown", UiLanguage::English), "role:unknown");

    let mut filters = OfficerBrowserFilters::default();
    assert!(matches!(selected_tag_filter_text(&game, &filters, UiLanguage::English), TagFilterSummary::AllTags));
    filters.tag_ids.insert("affiliation:shu_han".to_string());
    assert!(matches!(
        selected_tag_filter_text(&game, &filters, UiLanguage::SimplifiedChinese),
        TagFilterSummary::One(ref t) if t == "蜀汉"
    ));
    filters.tag_ids.insert("role:ruler".to_string());
    assert!(matches!(selected_tag_filter_text(&game, &filters, UiLanguage::English), TagFilterSummary::Count(2)));

    let groups = officer_tag_definitions_by_category(&game);
    assert_eq!(groups.len(), 2);
    assert_eq!(groups[0].0, OfficerTagCategory::Role);
    assert_eq!(groups[0].1, vec![0, 1, 2]);
    assert_eq!(groups[1].0, OfficerTagCategory::Affiliation);
    assert_eq!(groups[1].1, vec![3]);
}

#[test]
fn dynamic_relationship_lines_include_current_game_relationships() {
    let mut game = test_game();
    faction_mut(&mut game, "liu_bei").heir_id = Some("guan_yu".to_string());
    city_mut(&mut game, "pingyuan").governor_id = Some("liu_bei".to_string());
    game.marriages.push(Marriage {
        husband_id: "liu_bei".to_string(),
        wife_id: "zhang_fei".to_string(),
        year: 200,
        month: 1,
    });
    game.family_relationships.push(FamilyRelationship {
        parent_id: "liu_bei".to_string(),
        child_id: "zhao_yun".to_string(),
    });
    game.family_relationships.push(FamilyRelationship {
        parent_id: "guan_yu".to_string(),
        child_id: "zhao_yun".to_string(),
    });

    let liu_bei_graph = officer_relationship_graph(&game, officer_ref(&game, "liu_bei"));
    assert!(liu_bei_graph
        .edges
        .iter()
        .any(|edge| edge.kind == RelationshipGraphKind::Ruler && edge.target_name == "刘备军"));
    assert!(liu_bei_graph
        .edges
        .iter()
        .any(|edge| edge.kind == RelationshipGraphKind::Governor && edge.target_name == "平原"));
    assert!(liu_bei_graph
        .edges
        .iter()
        .any(|edge| edge.kind == RelationshipGraphKind::Spouse && edge.target_name == "张飞"));
    assert!(liu_bei_graph
        .edges
        .iter()
        .any(|edge| edge.kind == RelationshipGraphKind::Child && edge.target_name == "赵云"));

    let guan_yu_graph = officer_relationship_graph(&game, officer_ref(&game, "guan_yu"));
    assert!(guan_yu_graph
        .edges
        .iter()
        .any(|edge| edge.kind == RelationshipGraphKind::Heir && edge.target_name == "刘备军"));

    let zhao_yun_graph = officer_relationship_graph(&game, officer_ref(&game, "zhao_yun"));
    let parents = zhao_yun_graph
        .edges
        .iter()
        .filter(|edge| edge.kind == RelationshipGraphKind::Parent)
        .map(|edge| edge.target_name.as_str())
        .collect::<Vec<_>>();
    assert!(parents.contains(&"刘备"));
    assert!(parents.contains(&"关羽"));
}

#[test]
fn relationship_graph_keys_roles_and_starts_with_profile_ties() {
    let mut game = test_game();
    city_mut(&mut game, "xiapi").governor_id = Some("liu_bei".to_string());
    officer_mut(&mut game, "liu_bei").profile.as_mut().unwrap().relationships.push(shogun::game::OfficerRelationship {
        target_id: "guan_yu".to_string(),
        target_name: "关羽".to_string(),
        kind: shogun::game::OfficerRelationshipKind::SwornSibling,
        confidence: SourceConfidence::High,
        source: String::new(),
        notes: String::new(),
    });
    let graph = officer_relationship_graph(&game, officer_ref(&game, "liu_bei"));
    assert_eq!(graph.center_name, "刘备");
    assert_eq!(graph.edges.len(), 3);
    assert_eq!(graph.edges[0].kind, RelationshipGraphKind::SwornSibling);
    assert_eq!(graph.edges[1].target_id, "faction:ruler:liu_bei");
    assert_eq!(graph.edges[2].target_id, "city:governor:xiapi");
    assert_eq!(graph.edges[2].target_name, "下邳");
}

#[test]
fn officer_detail_texts() {
    let mut game = test_game();
    assert_eq!(compact_node_label("诸葛亮"), "诸葛亮");
    assert_eq!(compact_node_label("司马懿仲达公"), "司马懿仲");
    let liu = officer_ref(&game, "liu_bei").clone();
    assert_eq!(officer_life_span(&liu), (Some(161), Some(223)));
    let mut plain = liu.clone();
    plain.profile = None;
    assert_eq!(officer_life_span(&plain), (Some(161), None));
    plain.birth_year = 0;
    assert_eq!(officer_life_span(&plain), (None, None));
    assert_eq!(officer_city_detail_name(&game, &liu).as_deref(), Some("平原"));
    assert_eq!(officer_office_detail_name(&game, &liu), None);
    officer_mut(&mut game, "liu_bei").office_id = Some("taifu".to_string());
    let liu = officer_ref(&game, "liu_bei").clone();
    assert_eq!(officer_office_detail_name(&game, &liu), Some(("太傅".to_string(), "万石".to_string())));
}

#[test]
fn city_list_rows_are_sorted_by_name_with_owner() {
    let mut game = test_game();
    city_mut(&mut game, "xuchang").faction_id = "nobody".to_string();
    let rows = city_list_rows(&game);
    let mut expected = game.cities.iter().map(|c| c.name.clone()).collect::<Vec<_>>();
    expected.sort();
    assert_eq!(rows.iter().map(|r| r.city_name.clone()).collect::<Vec<_>>(), expected);
    let pingyuan = rows.iter().find(|r| r.city_id == "pingyuan").unwrap();
    assert_eq!(pingyuan.faction_name.as_deref(), Some("刘备军"));
    assert!(pingyuan.player_owned);
    assert_eq!(pingyuan.troops, 5_000);
    let xuchang = rows.iter().find(|r| r.city_id == "xuchang").unwrap();
    assert_eq!(xuchang.faction_name, None);
    assert!(!xuchang.player_owned);
}

#[test]
fn diplomacy_lists_and_bundles() {
    let mut game = test_game();
    city_mut(&mut game, "jianye").faction_id = "cao_cao".to_string();
    let targets = diplomacy_targets(&game);
    assert_eq!(targets, vec![0]);
    let mine = player_cities(&game);
    let names = mine.iter().map(|&k| game.cities[k].name.as_str()).collect::<Vec<_>>();
    let mut sorted = names.clone();
    sorted.sort();
    assert_eq!(names, sorted);
    assert_eq!(mine.len(), 2);

    city_mut(&mut game, "pingyuan").gold = -5;
    let b = city_resource_bundle(&game.cities[1]);
    assert_eq!(b, ResourceBundle { gold: 0, food: 2_000, materials: 500 });
    let total = faction_resource_bundle(&game, "liu_bei");
    assert_eq!(total, ResourceBundle { gold: 1_000, food: 4_000, materials: 1_000 });
    assert_eq!(faction_resource_bundle(&game, "nobody"), ResourceBundle::default());
}

#[test]
fn diplomacy_defaults_pick_first_open_choices_and_clear_terms() {
    let game = test_game();
    let mut draft = DiplomacyDraft {
        target: Some("liu_bei".to_string()),
        action: DiplomacyActionKind::DeclareWar,
        source_city: Some("pingyuan".to_string()),
        receive_city: None,
        offer: ResourceBundle { gold: 5, food: 5, materials: 5 },
        request: ResourceBundle { gold: 1, food: 1, materials: 1 },
    };
    ensure_diplomacy_defaults(&mut draft, &game);
    let first_target = &game.factions[diplomacy_targets(&game)[0]].id;
    assert_eq!(draft.target.as_deref(), Some(first_target.as_str()));
    assert_eq!(draft.source_city.as_deref(), Some("pingyuan"));
    let first_city = &game.cities[player_cities(&game)[0]].id;
    assert_eq!(draft.receive_city.as_deref(), Some(first_city.as_str()));
    assert_eq!(draft.offer, ResourceBundle::default());
    assert_eq!(draft.request, ResourceBundle::default());

    draft.action = DiplomacyActionKind::ImproveRelations;
    draft.offer = ResourceBundle { gold: 7, food: 0, materials: 0 };
    draft.request = ResourceBundle { gold: 3, food: 0, materials: 0 };
    normalize_diplomacy_terms(&mut draft);
    assert_eq!(draft.offer.gold, 7);
    assert_eq!(draft.request, ResourceBundle::default());

    let order = candidate_order(&draft, &game).unwrap();
    assert_eq!(order.issuer_faction_id, "liu_bei");
    assert_eq!(order.kind, DiplomacyActionKind::ImproveRelations);
    assert_eq!(order.submitted_turn, 1);
    draft.target = None;
    assert!(candidate_order(&draft, &game).is_none());
}

fn relation(target_id: &str, target_name: &str, kind: OfficerRelationshipKind) -> shogun::game::OfficerRelationship {
    shogun::game::OfficerRelationship {
        target_id: target_id.to_string(),
        target_name: target_name.to_string(),
        kind,
        confidence: SourceConfidence::High,
        source: "test".to_string(),
        notes: "test".to_string(),
    }
}

fn add_static_spouse_and_child(game: &mut GameState) {
    let liu = officer_ref(game, "liu_bei").clone();
    let mut spouse = liu.clone();
    spouse.id = "lady_static".to_string();
    spouse.name = "静夫人".to_string();
    spouse.birth_year = game.year - 30;
    spouse.gender = OfficerGender::Female;
    let mut p = profile("lady_static", "静夫人", &[]);
    p.birth_year = Some(spouse.birth_year);
    p.gender = OfficerGender::Female;
    p.relationships = vec![relation("liu_bei", "刘备", OfficerRelationshipKind::Spouse)];
    spouse.profile = Some(p);

    let mut child = liu.clone();
    child.id = "liu_static_child".to_string();
    child.name = "刘承".to_string();
    child.birth_year = game.year - 10;
    child.status = OfficerStatus::Minor;
    let mut c = profile("liu_static_child", "刘承", &[]);
    c.birth_year = Some(child.birth_year);
    c.relationships = vec![relation("liu_bei", "刘备", OfficerRelationshipKind::ParentChild)];
    child.profile = Some(c);

    let liu_profile = officer_mut(game, "liu_bei").profile.as_mut().unwrap();
    liu_profile.relationships.push(relation("lady_static", "静夫人", OfficerRelationshipKind::Spouse));
    liu_profile.relationships.push(relation("liu_static_child", "刘承", OfficerRelationshipKind::ParentChild));

    game.officers.push(spouse);
    game.officers.push(child);
}

#[test]
fn shrine_kinship_graph_merges_historical_and_dynamic_family_links() {
    let mut game = test_game();
    add_static_spouse_and_child(&mut game);
    game.marriages.push(Marriage { husband_id: "liu_bei".to_string(), wife_id: "zhang_fei".to_string(), year: 200, month: 1 });
    game.family_relationships.push(FamilyRelationship { parent_id: "liu_bei".to_string(), child_id: "zhao_yun".to_string() });
    let faction = game.factions[1].clone();
    let graph = shrine_kinship_graph(&game, &faction).unwrap();

    assert!(graph.nodes.iter().any(|node| node.id == "lady_static"));
    assert!(graph.nodes.iter().any(|node| node.id == "liu_static_child"));
    assert!(graph.edges.iter().any(|edge| edge.kind == ShrineKinshipEdgeKind::Spouse
        && edge.source == ShrineRelationshipSource::Historical
        && edge.from_id == "lady_static"
        && edge.to_id == "liu_bei"));
    assert!(graph.edges.iter().any(|edge| edge.kind == ShrineKinshipEdgeKind::Spouse
        && edge.source == ShrineRelationshipSource::Dynamic
        && edge.from_id == "liu_bei"
        && edge.to_id == "zhang_fei"));
    assert!(graph
        .edges
        .iter()
        .any(|edge| edge.kind == ShrineKinshipEdgeKind::ParentChild && edge.from_id == "liu_bei" && edge.to_id == "liu_static_child"));
    assert!(graph.edges.iter().any(|edge| edge.kind == ShrineKinshipEdgeKind::ParentChild
        && edge.source == ShrineRelationshipSource::Dynamic
        && edge.from_id == "liu_bei"
        && edge.to_id == "zhao_yun"));
}

#[test]
fn shrine_kinship_graph_deduplicates_bidirectional_historical_relationships() {
    let mut game = test_game();
    add_static_spouse_and_child(&mut game);
    let faction = game.factions[1].clone();
    let graph = shrine_kinship_graph(&game, &faction).unwrap();

    let spouse_edges = graph
        .edges
        .iter()
        .filter(|edge| edge.kind == ShrineKinshipEdgeKind::Spouse && edge.from_id == "lady_static" && edge.to_id == "liu_bei")
        .count();
    let parent_child_edges = graph
        .edges
        .iter()
        .filter(|edge| edge.kind == ShrineKinshipEdgeKind::ParentChild && edge.from_id == "liu_bei" && edge.to_id == "liu_static_child")
        .count();

    assert_eq!(spouse_edges, 1);
    assert_eq!(parent_child_edges, 1);
}

#[test]
fn kinship_graph_nodes_carry_roles_and_generations() {
    let mut game = test_game();
    add_static_spouse_and_child(&mut game);
    faction_mut(&mut game, "liu_bei").heir_id = Some("liu_static_child".to_string());
    let faction = game.factions[1].clone();
    let graph = shrine_kinship_graph(&game, &faction).unwrap();
    assert_eq!(graph.omitted_count, 0);
    let ids = graph.nodes.iter().map(|n| n.id.as_str()).collect::<Vec<_>>();
    assert_eq!(ids, vec!["lady_static", "liu_bei", "liu_static_child"]);
    assert_eq!(graph.nodes[0].generation, 0);
    assert_eq!(graph.nodes[1].role, ShrineKinshipNodeRole::Ruler);
    assert_eq!(graph.nodes[2].role, ShrineKinshipNodeRole::Heir);
    assert_eq!(graph.nodes[2].generation, 1);
    let mut no_ruler = faction.clone();
    no_ruler.ruler_id = "nobody".to_string();
    assert!(shrine_kinship_graph(&game, &no_ruler).is_none());
}

fn edge(from: &str, to: &str, kind: ShrineKinshipEdgeKind) -> ShrineKinshipEdge {
    ShrineKinshipEdge { from_id: from.to_string(), to_id: to.to_string(), kind, source: ShrineRelationshipSource::Dynamic }
}

#[test]
fn kinship_order_is_breadth_first_with_sorted_neighbours() {
    let edges = vec![
        edge("a", "d", ShrineKinshipEdgeKind::Spouse),
        edge("a", "c", ShrineKinshipEdgeKind::ParentChild),
        edge("c", "e", ShrineKinshipEdgeKind::ParentChild),
        edge("b", "d", ShrineKinshipEdgeKind::WeakParentChild),
        edge("x", "y", ShrineKinshipEdgeKind::Spouse),
    ];
    let order = shrine_connected_kinship_order("a", &edges);
    assert_eq!(order, vec!["a", "c", "d", "e", "b"]);
    assert_eq!(shrine_connected_kinship_order("z", &edges), vec!["z"]);
}

#[test]
fn kinship_generations_follow_marriage_and_descent() {
    let edges = vec![
        edge("child", "grandchild", ShrineKinshipEdgeKind::ParentChild),
        edge("ruler", "child", ShrineKinshipEdgeKind::ParentChild),
        edge("father", "ruler", ShrineKinshipEdgeKind::ParentChild),
        edge("ruler", "wife", ShrineKinshipEdgeKind::Spouse),
        edge("ruler", "cousin", ShrineKinshipEdgeKind::WeakParentChild),
    ];
    let mut selected = TagSet::new();
    for id in ["child", "cousin", "father", "grandchild", "ruler", "wife", "loner"] {
        selected.insert(id.to_string());
    }
    let gens = shrine_kinship_generations("ruler", &selected, &edges);
    let gen = |id: &str| gens.iter().find(|(k, _)| k == id).map(|(_, g)| *g);
    assert_eq!(gen("ruler"), Some(0));
    assert_eq!(gen("child"), Some(1));
    assert_eq!(gen("grandchild"), Some(2));
    assert_eq!(gen("father"), Some(-1));
    assert_eq!(gen("wife"), Some(0));
    assert_eq!(gen("cousin"), Some(0));
    assert_eq!(gen("loner"), Some(0));
    assert_eq!(gens.len(), 7);
}

#[test]
fn kinship_generations_differ_by_one_across_each_consistent_parent_child_tie() {
    let edges = vec![
        edge("b", "c", ShrineKinshipEdgeKind::ParentChild),
        edge("c", "d", ShrineKinshipEdgeKind::Spouse),
        edge("d", "e", ShrineKinshipEdgeKind::ParentChild),
        edge("r", "b", ShrineKinshipEdgeKind::Spouse),
        edge("a", "r", ShrineKinshipEdgeKind::ParentChild),
    ];
    let mut selected = TagSet::new();
    for id in ["a", "b", "c", "d", "e", "r"] {
        selected.insert(id.to_string());
    }
    let gens = shrine_kinship_generations("r", &selected, &edges);
    let gen = |id: &str| gens.iter().find(|(k, _)| k == id).map(|(_, g)| *g).unwrap();
    for e in &edges {
        match e.kind {
            ShrineKinshipEdgeKind::ParentChild => assert_eq!(gen(&e.to_id), gen(&e.from_id) + 1),
            ShrineKinshipEdgeKind::Spouse => assert_eq!(gen(&e.to_id), gen(&e.from_id)),
            ShrineKinshipEdgeKind::WeakParentChild => {}
        }
    }
    assert_eq!(gen("e"), 2);
}

#[test]
fn kinship_order_lists_exactly_the_reachable_officers_by_distance() {
    let edges = vec![
        edge("d", "e", ShrineKinshipEdgeKind::Spouse),
        edge("r", "b", ShrineKinshipEdgeKind::ParentChild),
        edge("b", "d", ShrineKinshipEdgeKind::ParentChild),
        edge("r", "c", ShrineKinshipEdgeKind::WeakParentChild),
        edge("x", "y", ShrineKinshipEdgeKind::Spouse),
    ];
    let order = shrine_connected_kinship_order("r", &edges);
    assert_eq!(order, vec!["r", "b", "c", "d", "e"]);
    assert!(!order.iter().any(|id| id == "x" || id == "y"));
}

fn square_cell(id: &str, parent: &str, x: i64) -> TerritoryCell {
    TerritoryCell {
        boundary_id: id.to_string(),
        name: id.to_string(),
        parent_id: Some(parent.to_string()),
        city_ids: Vec::new(),
        points: vec![(x, 0), (x + 10, 0), (x + 10, 10), (x, 10)],
    }
}

#[test]
fn province_borders_skip_edges_shared_within_a_province() {
    let same = vec![square_cell("a", "p", 0), square_cell("b", "p", 10)];
    assert_eq!(
        province_border_segments(&same),
        vec![
            ((0, 10), (0, 0)),
            ((0, 0), (10, 0)),
            ((10, 10), (0, 10)),
            ((10, 0), (20, 0)),
            ((20, 10), (10, 10)),
            ((20, 0), (20, 10)),
        ]
    );
    let different = vec![square_cell("a", "p", 0), square_cell("b", "q", 10)];
    let borders = province_border_segments(&different);
    assert_eq!(borders.len(), 7);
    assert_eq!(borders[3], ((10, 0), (10, 10)));
    assert!(province_border_segments(&Vec::new()).is_empty());
}

#[test]
fn abdication_form_keeps_valid_successor_and_confirms() {
    let candidates = vec!["guan_yu".to_string(), "zhang_fei".to_string()];
    let mut form = AbdicationForm { successor: Some("zhang_fei".to_string()), confirm: true };
    form.sync_candidates(&candidates);
    assert_eq!(form.successor.as_deref(), Some("zhang_fei"));
    assert!(form.confirm);
    form.successor = Some("lu_bu".to_string());
    form.sync_candidates(&candidates);
    assert_eq!(form.successor.as_deref(), Some("guan_yu"));
    assert!(!form.confirm);
    assert_eq!(form.confirmed_successor(), None);
    form.ask_confirmation(true);
    assert_eq!(form.confirmed_successor().as_deref(), Some("guan_yu"));
    form.cancel();
    assert_eq!(form.confirmed_successor(), None);
    form.select_successor("zhang_fei");
    assert_eq!(form.successor.as_deref(), Some("zhang_fei"));
    form.sync_candidates(&Vec::new());
    assert_eq!(form.successor, None);
    form.ask_confirmation(false);
    assert!(!form.confirm);
    assert_eq!(marriage_request(&Some("a".to_string()), &None), None);
    assert_eq!(marriage_request(&Some("a".to_string()), &Some("b".to_string())), Some(("a".to_string(), "b".to_string())));
}

#[test]
fn office_menu_shows_holders_and_table_actions() {
    let mut game = test_game();
    officer_mut(&mut game, "guan_yu").office_id = Some("taifu".to_string());
    officer_mut(&mut game, "cao_cao").office_id = Some("taifu".to_string());
    assert_eq!(post_occupancy(&game, "liu_bei", "guan_yu"), vec![PostOccupancy::Current]);
    assert_eq!(post_occupancy(&game, "liu_bei", "zhang_fei"), vec![PostOccupancy::OccupiedBy("关羽".to_string())]);
    assert_eq!(post_occupancy(&game, "sun_quan", "sun_quan"), vec![PostOccupancy::Empty]);

    let mut selected = None;
    let mut detail = Some("x".to_string());
    let response = OfficerTableResponse { selected_officer_id: Some("guan_yu".to_string()), ..OfficerTableResponse::default() };
    apply_table_selection(&response, &mut selected, &mut detail);
    assert_eq!(selected.as_deref(), Some("guan_yu"));
    assert_eq!(detail.as_deref(), Some("x"));
    assert_eq!(retainer_office_action(&response), None);
    let appoint = OfficerTableResponse {
        appoint_officer_id: Some("guan_yu".to_string()),
        appoint_office_id: Some("taifu".to_string()),
        dismiss_officer_id: Some("zhang_fei".to_string()),
        ..OfficerTableResponse::default()
    };
    assert_eq!(
        retainer_office_action(&appoint),
        Some(RetainerOfficeAction::Appoint { officer_id: "guan_yu".to_string(), office_id: "taifu".to_string() })
    );
    let dismiss = OfficerTableResponse { dismiss_officer_id: Some("zhang_fei".to_string()), ..OfficerTableResponse::default() };
    assert_eq!(retainer_office_action(&dismiss), Some(RetainerOfficeAction::Dismiss { officer_id: "zhang_fei".to_string() }));
}

#[test]
fn diplomacy_target_rows_sum_cities_and_show_standing() {
    let game = test_game();
    let liu = game.factions.iter().find(|f| f.id == "liu_bei").unwrap();
    let relation = FactionRelation { score: 42, truce_until_turn: Some(9), passage_rights: Vec::new() };
    let row = diplomacy_target_row(&game, liu, Some(&relation), false, true, false);
    assert_eq!(row.name, liu.name);
    assert_eq!(row.cities, 2);
    assert_eq!(row.troops, 10_000);
    assert_eq!(row.score, 42);
    assert_eq!(row.status, DiplomacyStatus::Truce);
    assert!(row.friendly);
    let row = diplomacy_target_row(&game, liu, None, true, true, true);
    assert_eq!(row.score, 0);
    assert_eq!(row.status, DiplomacyStatus::Hostile);
    assert!(row.friendly);
}

#[test]
fn relation_summary_shows_only_running_terms() {
    let relation = FactionRelation {
        score: -12,
        truce_until_turn: Some(5),
        passage_rights: vec![("cao_cao".to_string(), 3), ("liu_bei".to_string(), 8)],
    };
    assert_eq!(
        relation_summary(Some(&relation), "liu_bei", 5),
        RelationSummary { score: -12, truce_until: Some(5), passage_until: Some(8) }
    );
    assert_eq!(
        relation_summary(Some(&relation), "liu_bei", 6),
        RelationSummary { score: -12, truce_until: None, passage_until: Some(8) }
    );
    assert_eq!(
        relation_summary(Some(&relation), "cao_cao", 4),
        RelationSummary { score: -12, truce_until: Some(5), passage_until: None }
    );
    assert_eq!(relation_summary(None, "liu_bei", 1), RelationSummary { score: 0, truce_until: None, passage_until: None });
}

#[test]
fn diplomacy_statuses_tones_and_terms() {
    assert_eq!(diplomacy_status(true, true, true), DiplomacyStatus::Hostile);
    assert_eq!(diplomacy_status(false, true, true), DiplomacyStatus::TruceAndPassage);
    assert_eq!(diplomacy_status(false, false, true), DiplomacyStatus::Passage);
    assert_eq!(diplomacy_status(false, false, false), DiplomacyStatus::Open);
    assert_eq!(relation_tone(50), RelationTone::Warm);
    assert_eq!(relation_tone(49), RelationTone::Neutral);
    assert_eq!(relation_tone(0), RelationTone::Neutral);
    assert_eq!(relation_tone(-1), RelationTone::Strained);
    assert_eq!(relation_tone(-39), RelationTone::Strained);
    assert_eq!(relation_tone(-40), RelationTone::Hostile);
    assert!(acceptance_favourable(DiplomacyActionKind::DeclareWar, -100));
    assert!(acceptance_favourable(DiplomacyActionKind::Truce, -40));
    assert!(!acceptance_favourable(DiplomacyActionKind::Truce, -41));
    assert!(!acceptance_favourable(DiplomacyActionKind::PassageRight, 9));
    assert!(acceptance_favourable(DiplomacyActionKind::RequestPeace, -20));
    assert!(!acceptance_favourable(DiplomacyActionKind::ResourceExchange, -1));
    assert_eq!(term_permissions(DiplomacyActionKind::DeclareWar), (false, false));
    assert_eq!(term_permissions(DiplomacyActionKind::ImproveRelations), (true, false));
    assert_eq!(term_permissions(DiplomacyActionKind::Truce), (true, true));
}

#[test]
fn submitting_and_withdrawing_proposals() {
    let game = test_game();
    let mut draft = DiplomacyDraft {
        target: Some("cao_cao".to_string()),
        action: DiplomacyActionKind::ResourceExchange,
        source_city: Some("pingyuan".to_string()),
        receive_city: Some("xiapi".to_string()),
        offer: ResourceBundle { gold: 100, food: 0, materials: 0 },
        request: ResourceBundle { gold: 0, food: 50, materials: 0 },
    };
    let order = candidate_order(&draft, &game).unwrap();
    match apply_submission_result(&mut draft, Err("目标势力已灭亡".to_string())) {
        SubmissionOutcome::Refused(m) => assert_eq!(m, "目标势力已灭亡"),
        other => panic!("unexpected {other:?}"),
    }
    assert_eq!(draft.offer.gold, 100);
    assert!(matches!(apply_submission_result(&mut draft, Ok(())), SubmissionOutcome::Submitted));
    assert_eq!(draft.offer, ResourceBundle::default());
    assert_eq!(draft.request, ResourceBundle::default());
    assert_eq!(draft.target.as_deref(), Some("cao_cao"));
    let mut pending = vec![order.clone(), order];
    assert!(!withdraw_pending_order(&mut pending, 2));
    assert_eq!(pending.len(), 2);
    assert!(withdraw_pending_order(&mut pending, 0));
    assert_eq!(pending.len(), 1);
}

#[test]
fn new_game_offers_only_selectable_factions() {
    let mut game = test_game();
    game.factions[0].selectable = false;
    let offered = selectable_factions(&game.factions);
    assert!(offered.iter().all(|&k| game.factions[k].selectable));
    assert_eq!(offered.len(), game.factions.iter().filter(|f| f.selectable).count());
    assert!(offered.windows(2).all(|w| w[0] < w[1]));
    let hidden = game.factions[0].id.clone();
    assert_eq!(selected_faction(&game.factions, &hidden), None);
    let shown = game.factions[1].id.clone();
    assert_eq!(selected_faction(&game.factions, &shown), if game.factions[1].selectable { Some(1) } else { None });
    assert_eq!(selected_faction(&game.factions, "nobody"), None);
    assert!(can_start_new_game("190_dong_zhuo", "liu_bei"));
    assert!(!can_start_new_game("", "liu_bei"));
    assert!(!can_start_new_game("190_dong_zhuo", ""));
}

#[test]
fn chosen_faction_falls_back_to_the_first_selectable() {
    let mut game = test_game();
    game.factions[0].selectable = false;
    let first_selectable = game.factions.iter().find(|f| f.selectable).unwrap().id.clone();
    let hidden = game.factions[0].id.clone();

    let mut chosen = hidden.clone();
    ensure_selected_faction(&game.factions, &mut chosen);
    assert_eq!(chosen, first_selectable);
    let again = chosen.clone();
    ensure_selected_faction(&game.factions, &mut chosen);
    assert_eq!(chosen, again);

    let last_selectable = game.factions.iter().rev().find(|f| f.selectable).unwrap().id.clone();
    let mut chosen = last_selectable.clone();
    ensure_selected_faction(&game.factions, &mut chosen);
    assert_eq!(chosen, last_selectable);

    for faction in game.factions.iter_mut() {
        faction.selectable = false;
    }
    let mut chosen = "liu_bei".to_string();
    ensure_selected_faction(&game.factions, &mut chosen);
    assert_eq!(chosen, "");
}

#[test]
fn detail_resources_agree_with_the_overview_row() {
    let mut game = test_game();
    let faction_id = game.player_faction_id.clone();
    officer_mut(&mut game, "zhao_yun").status = OfficerStatus::Unavailable;
    configure_city_resources(&mut game, "pingyuan", 10);
    configure_city_resources(&mut game, "xiapi", 100);
    let rows = faction_overview_rows(&game, FactionOverviewSort::default());
    let row = rows.iter().find(|r| r.faction_id == faction_id).unwrap();
    let detail = faction_detail_resources(&game, &faction_id);
    assert_eq!(detail.city_count, row.city_count);
    assert_eq!(detail.active_officer_count, row.active_officer_count);
    assert!(detail.active_officer_count < detail.total_officer_count);
    assert_eq!((detail.gold, detail.food, detail.materials), (row.gold, row.food, row.materials));
    assert_eq!(detail.population, row.population);
    assert_eq!(detail.wounded, row.wounded);
    assert_eq!(detail.troops.infantry + detail.troops.cavalry + detail.troops.archers, row.troops);
    assert_eq!(row.troops, 440 + 550 + 660);
    let mut ids: Vec<&str> = rows.iter().map(|r| r.faction_id.as_str()).collect();
    ids.sort();
    ids.dedup();
    assert_eq!(ids.len(), rows.len());
}

#[test]
fn history_menu_opens_on_the_preferred_scenario_when_listed() {
    let ids = vec!["s190".to_string(), "s200".to_string()];
    assert_eq!(choose_history_scenario(Some("s200"), &ids), "s200");
    assert_eq!(choose_history_scenario(Some("s999"), &ids), "s190");
    assert_eq!(choose_history_scenario(None, &ids), "s190");
    assert_eq!(choose_history_scenario(Some("s200"), &Vec::new()), "");
}

#[test]
fn boundary_cache_keeps_one_year_until_another_is_stored() {
    let mut cache = MapBoundaryViewCache::new();
    assert!(!cache.holds_year(190));
    let cells = vec![square_cell("a", "p", 0), square_cell("b", "q", 10)];
    let expected = province_border_segments(&cells);
    cache.store_year(190, cells);
    assert!(cache.holds_year(190));
    assert!(!cache.holds_year(200));
    assert_eq!(cache.cells.len(), 2);
    assert_eq!(cache.province_segments, expected);
    cache.store_year(200, Vec::new());
    assert!(cache.holds_year(200));
    assert!(cache.province_segments.is_empty());
}

#[test]
fn city_filter_lists_cities_by_name_and_names_the_picked_one() {
    let game = test_game();
    let order = cities_by_name(&game);
    assert_eq!(order.len(), game.cities.len());
    let names: Vec<&str> = order.iter().map(|&k| game.cities[k].name.as_str()).collect();
    let mut sorted = names.clone();
    sorted.sort();
    assert_eq!(names, sorted);

    let mut filters = OfficerBrowserFilters::default();
    assert_eq!(selected_city_filter_name(&game, &filters), None);
    filters.city_id = Some(game.cities[0].id.clone());
    assert_eq!(selected_city_filter_name(&game, &filters), Some(game.cities[0].name.clone()));
    filters.city_id = Some("nowhere".to_string());
    assert_eq!(selected_city_filter_name(&game, &filters), None);
}

#[test]
fn tag_filter_ticks_and_unticks_one_tag() {
    let mut filters = OfficerBrowserFilters::default();
    set_tag_filter(&mut filters, "brave", true);
    set_tag_filter(&mut filters, "wise", true);
    set_tag_filter(&mut filters, "brave", true);
    assert_eq!(filters.tag_ids.to_vec(), vec!["brave".to_string(), "wise".to_string()]);
    set_tag_filter(&mut filters, "brave", false);
    assert_eq!(filters.tag_ids.to_vec(), vec!["wise".to_string()]);
    assert!(filters.city_id.is_none());
}
