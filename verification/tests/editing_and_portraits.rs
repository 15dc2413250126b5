use shogun::technology::TechnologyCatalog;
use shogun::game::{
    Controller, Faction, GameState, Officer, OfficerGender, OfficerProfile, OfficerStats, OfficerStatus,
    SourceConfidence,
};
use shogun::image::{alpha_crop_bounds, color_distance, estimate_edge_background_color, remove_flat_logo_background, rgba16_to_rgba8};
use shogun::officer_edit::{
    OfficerEditDraft, OfficerEditErrorText, classify_officer_edit_error, draft_to_update, extend_game_with_catalog_officers, join_tags, officer_from_profile,
    optional_text, optional_year, sync_updated_officer_profile,
};
use shogun::panels::{EditorOpening, PanelLayer, PanelState, close_layer, open_officer_profile_editor};
use shogun::portraits::{
    ImageChoice, ImageContent, ImageTaskOutput, ImageTaskResponse, build_officer_portrait_prompt,
    first_output_image_url, image_task_error, normalized_model_name, officer_portrait_path_in_data_dir,
    portrait_rgba16_to_rgba8, truncate_prompt_text, validate_officer_portrait_id,
};
use shogun::portrait_tasks::{ImageTaskFollowUp, OfficerPortraitStore, OfficerPortraitTaskEvent, OfficerPortraitTaskState, image_task_follow_up, is_png};
use shogun::settings::{GameSettings, GameSettingsLoadMessage, LoadedGameSettings, has_settings_section};
use shogun::tags::TagSet;
use shogun::text::{parse_i32_str, replace_all, trim};

fn test_officer() -> Officer {
    Officer {
        id: "test_officer".to_string(),
        name: "测试武将".to_string(),
        faction_id: "test_faction".to_string(),
        city_id: None,
        office_id: None,
        stats: OfficerStats { leadership: 71, strength: 82, intelligence: 63, politics: 54, charm: 75 },
        loyalty: 80,
        birth_year: 180,
        gender: OfficerGender::Female,
        status: OfficerStatus::Active,
        profile: None,
    }
}

fn test_profile(name: &str) -> OfficerProfile {
    OfficerProfile {
        id: "liu_bei".to_string(),
        name: name.to_string(),
        courtesy_name: Some("玄德".to_string()),
        native_place: Some("涿郡涿县".to_string()),
        birth_year: Some(161),
        death_year: Some(223),
        gender: OfficerGender::Male,
        stats: OfficerStats { leadership: 76, strength: 72, intelligence: 78, politics: 80, charm: 99 },
        tags: vec!["role:ruler".to_string()],
        confidence: SourceConfidence::High,
        biography: "刘备生平".to_string(),
        relationships: Vec::new(),
        notes: "测试".to_string(),
    }
}

fn settings_game() -> GameState {
    let profile = test_profile("刘备");
    GameState {
        year: 200,
        turn: 1,
        player_faction_id: "catalog".to_string(),
        factions: vec![Faction {
            id: "catalog".to_string(),
            name: "武将库".to_string(),
            ruler_id: "liu_bei".to_string(),
            heir_id: None,
            selectable: false,
            controlled_by: Controller::RuleAi,
        }],
        officers: vec![officer_from_profile(profile, "catalog")],
        cities: Vec::new(),
        marriages: Vec::new(),
        family_relationships: Vec::new(),
        officer_tag_definitions: Vec::new(),
        officer_tag_aliases: Vec::new(),
        official_posts: Vec::new(),
        relations: Vec::new(),
        technology_catalog: TechnologyCatalog { specs: Vec::new() },
        technologies: Vec::new(),
        pending_commands: Vec::new(),
        army_movements: Vec::new(),
        officer_recruitments: Vec::new(),
    }
}

fn test_draft() -> OfficerEditDraft {
    OfficerEditDraft {
        id: "liu_bei".to_string(),
        name: "刘备".to_string(),
        courtesy_name: "玄德".to_string(),
        native_place: "涿郡涿县".to_string(),
        birth_year: "161".to_string(),
        death_year: "223".to_string(),
        gender: OfficerGender::Male,
        leadership: 76,
        strength: 72,
        intelligence: 78,
        politics: 80,
        charm: 99,
        tags: "ruler,shu_han".to_string(),
        tag_ids: TagSet::new(),
        confidence: SourceConfidence::High,
        biography: "汉昭烈帝，蜀汉开国君主。".to_string(),
        notes: String::new(),
    }
}

#[test]
fn officer_edit_draft_can_be_built_from_current_officer_fields() {
    let officer = test_officer();

    let draft = OfficerEditDraft::from_officer(&officer);

    assert_eq!(draft.id, "test_officer");
    assert_eq!(draft.name, "测试武将");
    assert_eq!(draft.birth_year, "180");
    assert_eq!(draft.gender, OfficerGender::Female);
    assert_eq!(draft.leadership, 71);
    assert_eq!(draft.strength, 82);
    assert_eq!(draft.confidence, SourceConfidence::Medium);
    assert!(draft.biography.is_empty());
}

#[test]
fn officer_edit_draft_prefers_embedded_profile_for_portrait_context() {
    let mut officer = test_officer();
    officer.profile = Some(OfficerProfile {
        id: "test_officer".to_string(),
        name: "史料名".to_string(),
        courtesy_name: Some("文远".to_string()),
        native_place: Some("雁门".to_string()),
        birth_year: Some(169),
        death_year: Some(222),
        gender: OfficerGender::Male,
        stats: OfficerStats { leadership: 90, strength: 91, intelligence: 78, politics: 62, charm: 76 },
        tags: vec!["famous_general".to_string()],
        confidence: SourceConfidence::High,
        biography: "以勇略闻名。".to_string(),
        relationships: Vec::new(),
        notes: "profile note".to_string(),
    });

    let draft = OfficerEditDraft::from_officer(&officer);

    assert_eq!(draft.name, "史料名");
    assert_eq!(draft.courtesy_name, "文远");
    assert_eq!(draft.birth_year, "169");
    assert_eq!(draft.death_year, "222");
    assert_eq!(draft.gender, OfficerGender::Male);
    assert_eq!(draft.leadership, 90);
    assert_eq!(draft.tags, "famous_general");
    assert_eq!(draft.confidence, SourceConfidence::High);
    assert_eq!(draft.biography, "以勇略闻名。");
}

#[test]
fn draft_to_update_normalizes_blank_optional_fields_and_keeps_tags() {
    let mut draft = OfficerEditDraft::from_profile(&test_profile("刘备"));
    draft.courtesy_name = " ".to_string();
    draft.native_place = " 涿郡 ".to_string();
    draft.birth_year.clear();
    draft.death_year = "223".to_string();
    draft.tag_ids.insert("source:manual_curated".to_string());

    let update = draft_to_update(&draft).unwrap();

    assert_eq!(update.courtesy_name, None);
    assert_eq!(update.native_place.as_deref(), Some("涿郡"));
    assert_eq!(update.birth_year, None);
    assert_eq!(update.death_year, Some(223));
    assert_eq!(update.tags, ["role:ruler", "source:manual_curated"]);
}

#[test]
fn draft_to_update_rejects_invalid_year_without_mutating_state() {
    let game = settings_game();
    let mut draft = OfficerEditDraft::from_profile(&test_profile("刘备"));
    draft.birth_year = "abc".to_string();

    let result = draft_to_update(&draft);

    assert!(result.is_err());
    let officer = game.officers.iter().find(|o| o.id == "liu_bei").unwrap();
    assert_eq!(officer.name, "刘备");
}

#[test]
fn draft_to_update_rejects_a_blank_name() {
    let mut draft = OfficerEditDraft::from_profile(&test_profile("刘备"));
    draft.name = "  ".to_string();
    assert!(draft_to_update(&draft).is_err());
}

#[test]
fn sync_updated_officer_profile_refreshes_visible_officer_fields() {
    let mut game = settings_game();
    let mut profile = test_profile("刘备改");
    profile.gender = OfficerGender::Female;
    profile.stats.leadership = 90;

    sync_updated_officer_profile(&mut game, profile);

    let officer = game.officers.iter().find(|o| o.id == "liu_bei").unwrap();
    assert_eq!(officer.name, "刘备改");
    assert_eq!(officer.gender, OfficerGender::Female);
    assert_eq!(officer.stats.leadership, 90);
    assert_eq!(officer.profile.as_ref().unwrap().name, "刘备改");
}

#[test]
fn sync_of_an_unknown_profile_changes_nothing() {
    let mut game = settings_game();
    let mut profile = test_profile("曹操");
    profile.id = "cao_cao".to_string();
    sync_updated_officer_profile(&mut game, profile);
    assert_eq!(game.officers.len(), 1);
    assert_eq!(game.officers[0].name, "刘备");
}

#[test]
fn catalog_officers_are_added_once() {
    let mut game = settings_game();
    game.factions.clear();
    let mut cao = test_profile("曹操");
    cao.id = "cao_cao".to_string();
    extend_game_with_catalog_officers(&mut game, vec![test_profile("刘备"), cao.clone()]);
    assert_eq!(game.factions.len(), 1);
    assert_eq!(game.factions[0].id, "catalog");
    assert_eq!(game.officers.len(), 2);
    assert_eq!(game.officers[1].id, "cao_cao");
    assert_eq!(game.officers[1].faction_id, "catalog");
    extend_game_with_catalog_officers(&mut game, vec![cao]);
    assert_eq!(game.officers.len(), 2);
    assert_eq!(game.factions.len(), 1);
}

#[test]
fn optional_fields_and_tags_text() {
    assert_eq!(optional_text("  "), None);
    assert_eq!(optional_text(" 涿郡 ").as_deref(), Some("涿郡"));
    assert_eq!(optional_year(" 223 ", "卒年"), Ok(Some(223)));
    assert_eq!(optional_year("", "卒年"), Ok(None));
    assert!(optional_year("22x", "卒年").is_err());
    assert_eq!(optional_year("-5", "生年"), Ok(Some(-5)));
    assert_eq!(join_tags(&vec!["a".to_string(), "b".to_string()]), "a,b");
    assert_eq!(parse_i32_str("2147483647"), Some(i32::MAX));
    assert_eq!(parse_i32_str("2147483648"), None);
    assert_eq!(trim("\t 玄德 \n"), "玄德");
}

#[test]
fn portrait_path_uses_stable_officer_id_under_data_dir() {
    let path = officer_portrait_path_in_data_dir("/tmp/shogun-data", "liu_bei").unwrap();

    assert_eq!(path, "/tmp/shogun-data/portraits/officers/liu_bei.png");
}

#[test]
fn portrait_path_rejects_path_separators() {
    assert!(officer_portrait_path_in_data_dir("/tmp/shogun-data", "../liu").is_err());
    assert!(officer_portrait_path_in_data_dir("/tmp/shogun-data", "liu/bei").is_err());
    assert!(validate_officer_portrait_id("").is_err());
    assert!(validate_officer_portrait_id("zhao_yun-2").is_ok());
}

#[test]
fn portrait_prompt_replaces_name_and_identity_description() {
    let prompt = build_officer_portrait_prompt(&test_draft());

    assert!(prompt.contains("A portrait of 刘备"));
    assert!(prompt.contains("male officer of the late Han and Three Kingdoms era"));
    assert!(prompt.contains("courtesy name: 玄德"));
    assert!(prompt.contains("Three Kingdoms historical strategy game character illustration style"));
    assert!(prompt.contains("Abilities: leadership 76"));
    assert!(!prompt.contains("[人名]"));
    assert!(!prompt.contains("[身份描述]"));
}

#[test]
fn prompt_text_is_truncated_with_a_mark() {
    assert_eq!(truncate_prompt_text("一二三四五", 3), "一二三...");
    assert_eq!(truncate_prompt_text("一二三", 3), "一二三");
    assert_eq!(normalized_model_name("  "), "wan2.7-image-pro");
    assert_eq!(normalized_model_name(" my-model "), "my-model");
}

fn response(images: &[Option<&str>]) -> ImageTaskResponse {
    ImageTaskResponse {
        code: None,
        message: None,
        output: Some(ImageTaskOutput {
            task_id: Some("task".to_string()),
            task_status: Some("SUCCEEDED".to_string()),
            choices: vec![ImageChoice {
                content: images.iter().map(|i| ImageContent { image: i.map(|s| s.to_string()) }).collect(),
            }],
        }),
    }
}

#[test]
fn image_task_replies_give_the_first_image_or_an_error() {
    assert_eq!(
        first_output_image_url(&response(&[None, Some("https://img/1.png"), Some("https://img/2.png")])).as_deref(),
        Some("https://img/1.png")
    );
    assert_eq!(first_output_image_url(&response(&[None])), None);
    let mut failed = response(&[]);
    assert_eq!(image_task_error(&failed, "失败"), "SUCCEEDED");
    failed.code = Some("InvalidParameter".to_string());
    assert_eq!(image_task_error(&failed, "失败"), "InvalidParameter");
    failed.message = Some("bad size".to_string());
    assert_eq!(image_task_error(&failed, "失败"), "bad size");
    failed.output = None;
    failed.message = None;
    failed.code = None;
    assert_eq!(image_task_error(&failed, "失败"), "失败");
}

#[test]
fn sixteen_bit_pixels_are_narrowed() {
    let bytes = vec![0xff, 0xff, 0x00, 0x00, 0x01, 0x01, 0x00, 0x80];
    let out = portrait_rgba16_to_rgba8(&bytes).unwrap();
    assert_eq!(out, vec![255, 0, 1, 127]);
    assert_eq!(rgba16_to_rgba8(&bytes).unwrap(), out);
    let err = portrait_rgba16_to_rgba8(&vec![0; 6]).unwrap_err();
    assert!(err.ends_with("6"));
    assert_eq!(color_distance([10, 20, 30], [13, 10, 31]), 10);
}

#[test]
fn asset_dir_candidates_cover_packaged_layouts() {
    let candidates = shogun::assets::asset_dir_candidates_from(
        Some("/opt/Shogun.app/Contents/MacOS"),
        Some("/opt/shogun/share/shogun"),
        Some("/repo/Shogun"),
    );

    assert!(candidates.contains(&"/opt/Shogun.app/Contents/MacOS/../Resources/assets".to_string()));
    assert!(candidates.contains(&"/opt/Shogun.app/Contents/MacOS/assets".to_string()));
    assert!(candidates.contains(&"/opt/Shogun.app/Contents/MacOS/../../share/shogun/assets".to_string()));
    assert!(candidates.contains(&"/opt/shogun/share/shogun/assets".to_string()));
    assert!(candidates.contains(&"/repo/Shogun/assets".to_string()));
    assert_eq!(shogun::assets::asset_dir_candidates_from(None, Some("/x"), None), vec!["/x/assets".to_string()]);
}

#[test]
fn portrait_tasks_follow_requests_and_reports() {
    let mut store = OfficerPortraitStore::new();
    assert_eq!(store.task_state("liu_bei"), OfficerPortraitTaskState::Idle);

    assert_eq!(store.start_generation("liu_bei", "  ", "/tmp/d", "缺少密钥"), None);
    assert_eq!(store.task_state("liu_bei"), OfficerPortraitTaskState::Failed("缺少密钥".to_string()));

    assert_eq!(store.start_generation("../x", "key", "/tmp/d", "缺少密钥"), None);
    assert!(matches!(store.task_state("../x"), OfficerPortraitTaskState::Failed(_)));

    let path = store.start_generation("liu_bei", "key", "/tmp/d", "缺少密钥").unwrap();
    assert_eq!(path, "/tmp/d/portraits/officers/liu_bei.png");
    assert_eq!(store.task_state("liu_bei"), OfficerPortraitTaskState::Generating);
    assert_eq!(store.start_generation("liu_bei", "key", "/tmp/d", "缺少密钥"), None);
    assert_eq!(store.task_state("liu_bei"), OfficerPortraitTaskState::Generating);

    store.apply_event(OfficerPortraitTaskEvent::Succeeded { officer_id: "liu_bei".to_string(), path: path.clone() });
    assert_eq!(store.task_state("liu_bei"), OfficerPortraitTaskState::Succeeded { path });
    store.apply_event(OfficerPortraitTaskEvent::Failed { officer_id: "guan_yu".to_string(), error: "超时".to_string() });
    assert_eq!(store.task_state("guan_yu"), OfficerPortraitTaskState::Failed("超时".to_string()));
    assert!(matches!(store.task_state("liu_bei"), OfficerPortraitTaskState::Succeeded { .. }));

    assert!(is_png(&vec![0x89, b'P', b'N', b'G', b'\r', b'\n', 0x1a, b'\n', 0]));
    assert!(!is_png(&vec![0x89, b'P', b'N', b'G']));
    assert!(!is_png(&b"GIF89a..".to_vec()));
}

#[test]
fn settings_loads_fall_back_with_a_reason() {
    let ok = LoadedGameSettings::from_parsed(Ok(GameSettings::default()));
    assert!(ok.message.is_none());
    let mut bad = GameSettings::default();
    bad.display.resolution = shogun::settings::DisplayResolution::new(10, 10);
    let refused = LoadedGameSettings::from_parsed(Ok(bad));
    assert_eq!(refused.message, Some(GameSettingsLoadMessage::Invalid { error: "不支持的分辨率 10x10".to_string() }));
    assert_eq!(refused.settings.display, shogun::settings::DisplaySettings::default());
    let broken = LoadedGameSettings::from_parsed(Err("设置 JSON 失败".to_string()));
    assert_eq!(broken.message, Some(GameSettingsLoadMessage::Invalid { error: "设置 JSON 失败".to_string() }));
    assert_eq!(LoadedGameSettings::missing().message, Some(GameSettingsLoadMessage::Missing));
    assert_eq!(
        LoadedGameSettings::read_failed("denied".to_string()).message,
        Some(GameSettingsLoadMessage::ReadFailed { error: "denied".to_string() })
    );
    assert!(has_settings_section(&vec!["resolution".to_string(), "gameplay".to_string()]));
    assert!(!has_settings_section(&vec!["resolution".to_string(), "vsync".to_string()]));
}

#[test]
fn officer_edit_errors_are_classified_by_code() {
    assert_eq!(classify_officer_edit_error("officer-edit-name-required"), OfficerEditErrorText::NameRequired);
    assert_eq!(
        classify_officer_edit_error("officer-edit-year-invalid:officer-edit-birth-year"),
        OfficerEditErrorText::YearInvalid { label_key: "officer-edit-birth-year".to_string() }
    );
    assert_eq!(
        classify_officer_edit_error("officer-edit-year-invalid:"),
        OfficerEditErrorText::YearInvalid { label_key: String::new() }
    );
    assert_eq!(
        classify_officer_edit_error("officer-edit-year-invalid"),
        OfficerEditErrorText::Raw("officer-edit-year-invalid".to_string())
    );
    assert_eq!(classify_officer_edit_error("disk full"), OfficerEditErrorText::Raw("disk full".to_string()));
    let mut bad = OfficerEditDraft::from_profile(&test_profile("刘备"));
    bad.birth_year = "abc".to_string();
    let err = draft_to_update(&bad).unwrap_err();
    assert!(matches!(classify_officer_edit_error(&err), OfficerEditErrorText::YearInvalid { .. }));
}

#[test]
fn officer_editor_opens_only_on_editable_profiles() {
    let game = settings_game();
    let mut state = PanelState::nothing_open();
    assert_eq!(open_officer_profile_editor(&mut state, false, Some(&game), "liu_bei"), EditorOpening::ReadOnly);
    assert!(!state.officer_edit_open);
    assert_eq!(open_officer_profile_editor(&mut state, true, Some(&game), "nobody"), EditorOpening::ProfileMissing);
    assert_eq!(open_officer_profile_editor(&mut state, true, None, "liu_bei"), EditorOpening::ProfileMissing);
    assert!(!state.officer_edit_open);
    state.officer_edit_error = Some("旧错误".to_string());
    assert_eq!(open_officer_profile_editor(&mut state, true, Some(&game), "liu_bei"), EditorOpening::Opened);
    assert!(state.officer_edit_open);
    assert!(state.officer_edit_error.is_none());
    assert_eq!(state.officer_settings_selected_id.as_deref(), Some("liu_bei"));
    let draft = state.officer_edit_draft.as_ref().unwrap();
    assert_eq!(draft.name, "刘备");
    assert_eq!(draft.birth_year, "161");
    close_layer(&mut state, PanelLayer::OfficerEdit);
    assert!(!state.officer_edit_open);
    assert!(state.officer_edit_draft.is_none());
    assert_eq!(state.officer_settings_selected_id.as_deref(), Some("liu_bei"));
}

#[test]
fn image_functions_accept_longer_buffers() {
    // A 2x2 image followed by one more whole pixel and three spare bytes.
    let mut rgba = vec![
        10, 10, 10, 255, 10, 10, 10, 255, //
        10, 10, 10, 255, 12, 10, 10, 255, //
        10, 10, 10, 200, 5, 6, 7,
    ];
    assert_eq!(estimate_edge_background_color(&rgba, 2, 2), [10, 10, 10]);
    assert_eq!(estimate_edge_background_color(&rgba, 0, 2), [0, 0, 0]);
    assert_eq!(alpha_crop_bounds(&rgba, 2, 2), Some((0, 0, 1, 1)));
    assert_eq!(alpha_crop_bounds(&Vec::new(), 0, 5), None);
    let before = rgba.clone();
    remove_flat_logo_background(&mut rgba, 0, 3);
    assert_eq!(rgba, before);
    remove_flat_logo_background(&mut rgba, 2, 2);
    assert_eq!(
        rgba,
        vec![10, 10, 10, 0, 10, 10, 10, 0, 10, 10, 10, 0, 12, 10, 10, 12, 10, 10, 10, 0, 5, 6, 7]
    );
}

#[test]
fn catalog_extension_and_profile_sync_leave_other_tables_alone() {
    let mut game = settings_game();
    game.marriages.push(shogun::game::Marriage {
        husband_id: "liu_bei".to_string(),
        wife_id: "lady_gan".to_string(),
        year: 190,
        month: 1,
    });
    game.pending_commands.push(shogun::orders::Command {
        issuer_faction_id: "catalog".to_string(),
        city_id: "xiapi".to_string(),
        officer_id: None,
        kind: shogun::orders::CommandKind::Train,
    });
    extend_game_with_catalog_officers(&mut game, vec![test_profile("刘备")]);
    assert_eq!(game.marriages.len(), 1);
    assert_eq!(game.pending_commands.len(), 1);
    sync_updated_officer_profile(&mut game, test_profile("刘玄德"));
    assert_eq!(game.marriages.len(), 1);
    assert_eq!(game.pending_commands.len(), 1);
    assert_eq!(game.officers[0].name, "刘玄德");
}

#[test]
fn replace_all_matches_str_replace_on_empty_and_nonempty_patterns() {
    assert_eq!(replace_all("abc", "", "X"), "abc".replace("", "X"));
    assert_eq!(replace_all("abc", "", "X"), "XaXbXcX");
    assert_eq!(replace_all("", "", "X"), "X");
    assert_eq!(replace_all("aaa", "aa", "b"), "ba");
    assert_eq!(replace_all("[人名]は[人名]", "[人名]", "信長"), "信長は信長");
}

#[test]
fn image_task_follow_up_waits_only_for_unfinished_tasks_with_an_id() {
    assert_eq!(image_task_follow_up(true, Some("t-1")), ImageTaskFollowUp::Finished);
    assert_eq!(image_task_follow_up(true, None), ImageTaskFollowUp::Finished);
    assert_eq!(image_task_follow_up(false, Some("t-1")), ImageTaskFollowUp::WaitFor("t-1".to_string()));
    assert_eq!(image_task_follow_up(false, None), ImageTaskFollowUp::MissingTaskId);
}
