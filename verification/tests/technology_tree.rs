use shogun::tags::TagSet;
use shogun::technology::{
    FactionTechnologyState, PrerequisiteDisplay, TechnologyAction, TechnologyBranch, TechnologyCatalog,
    TechnologyNodeStatus, TechnologySpec, contains_id, faction_technology_summary, prerequisite_names,
    technology_depth, technology_detail_view, technology_node_status, technology_progress,
    technology_selection_after_switch, technology_selection_for_branch,
};

fn spec(id: &str, name: &str, branch: TechnologyBranch, prerequisites: &[&str], gold_cost: i64) -> TechnologySpec {
    TechnologySpec {
        id: id.to_string(),
        name: name.to_string(),
        branch,
        prerequisites: prerequisites.iter().map(|p| p.to_string()).collect(),
        turns: 3,
        gold_cost,
        effect: format!("{name} effect"),
        icon_id: "gear".to_string(),
    }
}

fn catalog() -> TechnologyCatalog {
    TechnologyCatalog {
        specs: vec![
            spec("household_registers", "户籍清丈", TechnologyBranch::Domestic, &[], 300),
            spec("militia_drill", "乡勇操练", TechnologyBranch::Military, &[], 200),
            spec("spear_formation", "长枪阵", TechnologyBranch::Military, &["militia_drill"], 400),
            spec("cavalry_charge", "骑兵冲锋", TechnologyBranch::Military, &["spear_formation", "militia_drill"], 600),
            spec("cycle_a", "甲", TechnologyBranch::Domestic, &["cycle_b"], 100),
            spec("cycle_b", "乙", TechnologyBranch::Domestic, &["cycle_a"], 100),
            spec("self_loop", "自", TechnologyBranch::Domestic, &["self_loop"], 100),
            spec("lost_link", "失", TechnologyBranch::Domestic, &["not_in_catalog"], 100),
        ],
    }
}

fn tag_set(ids: &[&str]) -> TagSet {
    TagSet::from_tags(&ids.iter().map(|s| s.to_string()).collect())
}

fn research_state() -> FactionTechnologyState {
    FactionTechnologyState {
        active: Some("militia_drill".to_string()),
        progress: vec![("militia_drill".to_string(), 1)],
        funded: tag_set(&["militia_drill"]),
        completed: tag_set(&["household_registers"]),
    }
}

#[test]
fn depth_counts_the_longest_prerequisite_chain() {
    let c = catalog();
    assert_eq!(technology_depth(&c.specs[1], &c), 0);
    assert_eq!(technology_depth(&c.specs[2], &c), 1);
    assert_eq!(technology_depth(&c.specs[3], &c), 2);
}

#[test]
fn depth_stops_at_cycles_and_unknown_prerequisites() {
    let c = catalog();
    assert_eq!(technology_depth(&c.specs[4], &c), 2);
    assert_eq!(technology_depth(&c.specs[5], &c), 2);
    assert_eq!(technology_depth(&c.specs[6], &c), 1);
    assert_eq!(technology_depth(&c.specs[7], &c), 0);
}

#[test]
fn prerequisite_names_fall_back_to_identifiers() {
    let c = catalog();
    assert_eq!(prerequisite_names(&c.specs[3], &c), vec!["长枪阵", "乡勇操练"]);
    assert_eq!(prerequisite_names(&c.specs[7], &c), vec!["not_in_catalog"]);
    assert!(prerequisite_names(&c.specs[0], &c).is_empty());
}

#[test]
fn catalog_lookups_follow_catalog_order() {
    let c = catalog();
    assert_eq!(c.find("spear_formation"), Some(2));
    assert_eq!(c.find("missing"), None);
    assert_eq!(c.first_id_for_branch(TechnologyBranch::Military), Some("militia_drill".to_string()));
    assert_eq!(c.specs_for_branch(TechnologyBranch::Military), vec![1, 2, 3]);
    assert_eq!(c.specs_for_branch(TechnologyBranch::Domestic), vec![0, 4, 5, 6, 7]);
    let empty = TechnologyCatalog { specs: Vec::new() };
    assert_eq!(empty.first_id_for_branch(TechnologyBranch::Domestic), None);
    assert!(contains_id(&vec!["a".to_string(), "b".to_string()], "b"));
    assert!(!contains_id(&vec!["a".to_string()], "c"));
}

#[test]
fn node_status_prefers_progress_then_prerequisites_then_gold() {
    let c = catalog();
    let state = research_state();
    let none: Vec<String> = Vec::new();
    let missing = vec!["长枪阵".to_string()];
    assert_eq!(technology_node_status(Some(&state), &c.specs[0], Some(&none), Some(300), 0), TechnologyNodeStatus::Completed);
    assert_eq!(technology_node_status(Some(&state), &c.specs[1], Some(&none), Some(200), 0), TechnologyNodeStatus::Active);
    let funded_only = FactionTechnologyState {
        active: None,
        progress: Vec::new(),
        funded: tag_set(&["militia_drill"]),
        completed: TagSet::new(),
    };
    assert_eq!(technology_node_status(Some(&funded_only), &c.specs[1], Some(&missing), None, 0), TechnologyNodeStatus::Funded);
    assert_eq!(technology_node_status(Some(&state), &c.specs[3], Some(&missing), Some(600), 10_000), TechnologyNodeStatus::Locked);
    assert_eq!(technology_node_status(None, &c.specs[2], Some(&none), Some(400), 400), TechnologyNodeStatus::Available);
    assert_eq!(technology_node_status(None, &c.specs[2], Some(&none), Some(400), 399), TechnologyNodeStatus::Unaffordable);
    assert_eq!(technology_node_status(None, &c.specs[2], None, None, 10_000), TechnologyNodeStatus::Unaffordable);
}

#[test]
fn detail_view_offers_the_next_research_step() {
    let c = catalog();
    let state = research_state();
    let none: Vec<String> = Vec::new();
    let missing = vec!["长枪阵".to_string()];

    assert!(technology_detail_view(&c, "unknown", Some(&state), None, None, 0).is_none());

    let done = technology_detail_view(&c, "household_registers", Some(&state), None, Some(&none), 0).unwrap();
    assert_eq!(done.action, TechnologyAction::Completed);
    assert!(matches!(done.prerequisites, PrerequisiteDisplay::NoneRequired));

    let active = technology_detail_view(&c, "militia_drill", Some(&state), Some(150), Some(&none), 100).unwrap();
    assert_eq!(active.action, TechnologyAction::Researching);
    assert_eq!(active.progress, 1);
    assert_eq!(active.cost, 150);
    assert_eq!(active.catalog_cost, Some(200));
    assert_eq!(active.name, "乡勇操练");

    let locked = technology_detail_view(&c, "cavalry_charge", Some(&state), None, Some(&missing), 10_000).unwrap();
    assert_eq!(locked.action, TechnologyAction::PrerequisitesLocked);
    match locked.prerequisites {
        PrerequisiteDisplay::Missing(names) => assert_eq!(names, vec!["长枪阵"]),
        other => panic!("unexpected {other:?}"),
    }

    let short = technology_detail_view(&c, "spear_formation", None, Some(400), Some(&none), 250).unwrap();
    assert_eq!(short.action, TechnologyAction::GoldShortfall { shortfall: 150 });
    assert_eq!(short.catalog_cost, None);
    assert_eq!(short.progress, 0);
    match short.prerequisites {
        PrerequisiteDisplay::Met(names) => assert_eq!(names, vec!["乡勇操练"]),
        other => panic!("unexpected {other:?}"),
    }

    let start = technology_detail_view(&c, "spear_formation", None, None, None, 400).unwrap();
    assert_eq!(start.action, TechnologyAction::StartResearch);
    assert_eq!(start.cost, 400);

    let funded_only = FactionTechnologyState {
        active: None,
        progress: vec![("spear_formation".to_string(), 2)],
        funded: tag_set(&["spear_formation"]),
        completed: TagSet::new(),
    };
    let resume = technology_detail_view(&c, "spear_formation", Some(&funded_only), None, Some(&none), 0).unwrap();
    assert_eq!(resume.action, TechnologyAction::ContinueResearch);
    assert_eq!(resume.progress, 2);
    assert_eq!(technology_progress(&funded_only, "spear_formation"), 2);
    assert_eq!(technology_progress(&funded_only, "militia_drill"), 0);
}

#[test]
fn selection_follows_the_branch() {
    let c = catalog();
    assert_eq!(technology_selection_for_branch(&c, TechnologyBranch::Military, "spear_formation"), "spear_formation");
    assert_eq!(technology_selection_for_branch(&c, TechnologyBranch::Domestic, "spear_formation"), "household_registers");
    assert_eq!(technology_selection_for_branch(&c, TechnologyBranch::Military, "nothing"), "militia_drill");
    let empty = TechnologyCatalog { specs: Vec::new() };
    assert_eq!(technology_selection_for_branch(&empty, TechnologyBranch::Military, "x"), "");
    assert_eq!(technology_selection_after_switch(&c, TechnologyBranch::Domestic, "spear_formation"), "household_registers");
    assert_eq!(technology_selection_after_switch(&empty, TechnologyBranch::Domestic, "x"), "x");
}

#[test]
fn faction_technology_summary_lists_research_and_completed_names() {
    let c = catalog();
    let state = research_state();
    let summary = faction_technology_summary(&c, Some(&state));
    assert_eq!(summary.active_name.as_deref(), Some("乡勇操练"));
    assert_eq!(summary.progress, Some((1, 3)));
    assert_eq!(summary.funded_count, 1);
    assert_eq!(summary.completed_count, 1);
    assert_eq!(summary.completed_names, vec!["户籍清丈"]);

    let many = FactionTechnologyState {
        active: Some("gone".to_string()),
        progress: Vec::new(),
        funded: TagSet::new(),
        completed: tag_set(&["spear_formation", "militia_drill", "gone", "household_registers"]),
    };
    let summary = faction_technology_summary(&c, Some(&many));
    assert_eq!(summary.active_name, None);
    assert_eq!(summary.progress, None);
    assert_eq!(summary.completed_count, 4);
    assert_eq!(summary.completed_names, vec!["乡勇操练", "户籍清丈", "长枪阵"]);

    let nothing = faction_technology_summary(&c, None);
    assert_eq!(nothing.active_name, None);
    assert_eq!(nothing.completed_count, 0);
    assert!(nothing.completed_names.is_empty());
}

#[test]
fn branch_selection_is_stable_when_redrawn() {
    let c = catalog();
    for branch in [TechnologyBranch::Military, TechnologyBranch::Domestic] {
        for start in ["spear_formation", "household_registers", "nothing", ""] {
            let once = technology_selection_for_branch(&c, branch, start);
            assert_eq!(technology_selection_for_branch(&c, branch, &once), once);
        }
    }
}
