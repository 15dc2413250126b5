use shogun::keys::{KeyCode, key_code_from_name, key_code_name};
use shogun::panels::{
    CaptureError, CaptureOutcome, KeyInput, PanelFlag, PanelLayer, PanelState, Screen, ShortcutEffect,
    binding_from_input, close_layer, close_top_panel, dispatch_shortcut_action, handle_shortcut_capture,
    handle_shortcut_input, shortcut_allowed, toggle_flag, top_panel_layer,
};
use shogun::settings::{
    AiSettings, AudioDeviceSettings, DisplayMode, DisplayResolution, DisplaySettings, GameSettings,
    GameSettingsStore, OpenAiApiType, PresentModeChoice, ReasoningAiSettings, UiLanguage, WindowModeChoice,
    combined_menu_message, normalize_output_device_name,
};
use shogun::shortcuts::{ShortcutAction, ShortcutBinding, ShortcutSettings};

#[test]
fn default_language_is_simplified_chinese() {
    assert_eq!(UiLanguage::default(), UiLanguage::SimplifiedChinese);
    assert_eq!(UiLanguage::available(), &[UiLanguage::SimplifiedChinese, UiLanguage::English]);
    assert_eq!(UiLanguage::SimplifiedChinese.label(), "简体中文");
    assert_eq!(UiLanguage::English.label(), "English");
}

#[test]
fn default_settings_are_windowed_1280_by_820_with_vsync() {
    let settings = DisplaySettings::default();

    assert_eq!(settings.resolution, DisplayResolution::new(1280, 820));
    assert_eq!(settings.display_mode, DisplayMode::Windowed);
    assert!(settings.vsync);
}

#[test]
fn default_gameplay_settings_disable_autosave() {
    assert!(!GameSettings::default().gameplay.autosave_enabled);
}

#[test]
fn default_settings_restore_default_shortcuts() {
    let settings = GameSettings {
        shortcuts: ShortcutSettings { toggle_city_list: ShortcutBinding::new("KeyL"), ..ShortcutSettings::default() },
        ..GameSettings::default()
    };

    assert_ne!(settings.shortcuts, ShortcutSettings::default());
    assert_eq!(GameSettings::default().shortcuts, ShortcutSettings::default());
}

#[test]
fn audio_settings_normalize_empty_device_name() {
    let settings = AudioDeviceSettings { output_device_name: Some("  ".to_string()) }.normalized();
    assert_eq!(settings.output_device_name, None);

    let settings = AudioDeviceSettings { output_device_name: Some("  External DAC  ".to_string()) }.normalized();
    assert_eq!(settings.output_device_name, Some("External DAC".to_string()));
    assert_eq!(normalize_output_device_name(None), None);
}

#[test]
fn default_settings_validate_unchanged() {
    let settings = GameSettings::default().validated().unwrap();
    assert_eq!(settings.display, DisplaySettings::default());
    assert_eq!(settings.shortcuts, ShortcutSettings::default());
    assert_eq!(settings.ai.reasoning.api_url, "https://api.openai.com/v1/responses");
    assert_eq!(settings.ai.multimodal.model_name, "wan2.7-image-pro");
}

#[test]
fn unsupported_resolution_is_refused_with_its_size() {
    let settings = GameSettings {
        display: DisplaySettings { resolution: DisplayResolution::new(1000, 700), ..DisplaySettings::default() },
        ..GameSettings::default()
    };
    assert_eq!(settings.validated().unwrap_err(), "不支持的分辨率 1000x700");
    assert!(DisplayResolution::new(1600, 900).is_preset());
    assert!(!DisplayResolution::new(1000, 700).is_preset());
    assert_eq!(DisplayResolution::new(1366, 768).to_text(), "1366x768");
}

#[test]
fn display_modes_map_to_window_and_present_modes() {
    let mut display = DisplaySettings::default();
    assert_eq!(display.window_mode(), WindowModeChoice::Windowed);
    assert_eq!(display.present_mode(), PresentModeChoice::AutoVsync);
    display.display_mode = DisplayMode::BorderlessFullscreen;
    display.vsync = false;
    assert_eq!(display.window_mode(), WindowModeChoice::BorderlessFullscreenOnPrimary);
    assert_eq!(display.present_mode(), PresentModeChoice::AutoNoVsync);
}

#[test]
fn ai_settings_trim_values_and_check_the_endpoint() {
    let mut settings = GameSettings::default();
    settings.ai = AiSettings {
        reasoning: ReasoningAiSettings {
            api_type: OpenAiApiType::ChatCompletions,
            api_url: " https://proxy.example/v1/chat/completions ".to_string(),
            token: " token-value ".to_string(),
            model_name: " reasoning-model ".to_string(),
        },
        ..AiSettings::default()
    };
    settings.ai.multimodal.api_key = " bailian-key ".to_string();
    let ok = settings.validated().unwrap();
    assert_eq!(ok.ai.reasoning.api_type, OpenAiApiType::ChatCompletions);
    assert_eq!(ok.ai.reasoning.api_url, "https://proxy.example/v1/chat/completions");
    assert_eq!(ok.ai.reasoning.token, "token-value");
    assert_eq!(ok.ai.reasoning.model_name, "reasoning-model");
    assert_eq!(ok.ai.multimodal.api_key, "bailian-key");

    let mut bad = GameSettings::default();
    bad.ai.reasoning.api_url = "proxy.example/v1".to_string();
    assert_eq!(bad.validated().unwrap_err(), "OpenAI API URL 必须是完整 URL");
    let mut ftp = GameSettings::default();
    ftp.ai.reasoning.api_url = "ftp://proxy.example/v1".to_string();
    assert_eq!(ftp.validated().unwrap_err(), "OpenAI API URL 必须使用 http 或 https");
    let mut blank = GameSettings::default();
    blank.ai.reasoning.api_url = "   ".to_string();
    assert_eq!(blank.validated().unwrap().ai.reasoning.api_url, "");
}

#[test]
fn duplicate_shortcuts_are_refused() {
    let settings = GameSettings {
        shortcuts: ShortcutSettings {
            toggle_city_list: ShortcutBinding::new("KeyC"),
            toggle_events: ShortcutBinding::new("KeyC"),
            ..ShortcutSettings::default()
        },
        ..GameSettings::default()
    };
    assert!(settings.validated().is_err());
    let unknown = ShortcutSettings { toggle_shrine: ShortcutBinding::new("NoSuchKey"), ..ShortcutSettings::default() };
    assert!(unknown.validated().is_err());
}

#[test]
fn menu_messages_are_joined() {
    assert_eq!(combined_menu_message(None, None), "");
    assert_eq!(combined_menu_message(Some("a"), None), "a");
    assert_eq!(combined_menu_message(Some("a"), Some("b")), "a\nb");
}

#[test]
fn settings_store_keeps_its_path() {
    let store = GameSettingsStore::new("/tmp/settings.json".to_string());
    assert_eq!(store.path(), "/tmp/settings.json");
}

#[test]
fn default_bindings_have_no_conflicts() {
    assert!(ShortcutSettings::default().validated().is_ok());
}

fn pressed(key: KeyCode, ctrl: bool, shift: bool) -> KeyInput {
    KeyInput { just_pressed: vec![key], ctrl, shift, alt: false, super_key: false }
}

#[test]
fn modifier_matching_is_exact() {
    let settings = ShortcutSettings::default();

    assert_eq!(settings.action_for_input(&pressed(KeyCode::KeyS, false, false)), None);
    assert_eq!(settings.action_for_input(&pressed(KeyCode::KeyS, true, false)), Some(ShortcutAction::ToggleSavePanel));
    assert_eq!(settings.action_for_input(&pressed(KeyCode::KeyS, true, true)), None);
}

#[test]
fn unbound_actions_do_not_trigger() {
    let settings = ShortcutSettings::default();

    assert_eq!(settings.action_for_input(&pressed(KeyCode::KeyM, false, false)), None);
}

#[test]
fn rebinding_and_reset_restore_the_default() {
    let mut settings = ShortcutSettings::default();
    *settings.binding_mut(ShortcutAction::ToggleCityList) = ShortcutBinding::new("KeyL").with_ctrl();
    assert_eq!(settings.action_for_input(&pressed(KeyCode::KeyL, true, false)), Some(ShortcutAction::ToggleCityList));
    settings.reset_binding(ShortcutAction::ToggleCityList);
    assert_eq!(settings, ShortcutSettings::default());
}

#[test]
fn key_names_round_trip() {
    assert_eq!(key_code_from_name("KeyL"), Some(KeyCode::KeyL));
    assert_eq!(key_code_name(KeyCode::F12), Some("F12"));
    assert_eq!(key_code_from_name("NoSuchKey"), None);
}

fn in_game() -> PanelState {
    let mut state = PanelState::nothing_open();
    state.screen = Screen::InGame;
    state
}

#[test]
fn close_top_panel_prefers_foreground_layers() {
    let mut state = in_game();
    state.settings_open = true;
    state.officer_edit_open = true;
    state.officer_detail_id = Some("liu_bei".to_string());

    assert!(close_top_panel(&mut state));
    assert!(!state.settings_open);
    assert!(state.officer_edit_open);
    assert!(state.officer_detail_id.is_some());

    assert!(close_top_panel(&mut state));
    assert!(!state.officer_edit_open);
    assert!(state.officer_detail_id.is_some());

    assert!(close_top_panel(&mut state));
    assert!(state.officer_detail_id.is_none());
    assert!(!close_top_panel(&mut state));
}

#[test]
fn closing_editor_discards_draft_without_changing_officer() {
    let mut state = in_game();
    state.officer_edit_open = true;
    state.officer_edit_error = Some("未保存".to_string());
    state.officer_detail_id = Some("liu_bei".to_string());

    close_layer(&mut state, PanelLayer::OfficerEdit);

    assert!(!state.officer_edit_open);
    assert!(state.officer_edit_draft.is_none());
    assert!(state.officer_edit_error.is_none());
    assert_eq!(state.officer_detail_id.as_deref(), Some("liu_bei"));
}

#[test]
fn toggling_a_flag_twice_restores_it() {
    let mut state = in_game();
    toggle_flag(&mut state, PanelFlag::CityList);
    assert!(state.city_list_open);
    assert_eq!(top_panel_layer(&state), Some(PanelLayer::CityList));
    toggle_flag(&mut state, PanelFlag::CityList);
    assert!(!state.city_list_open);
    assert_eq!(top_panel_layer(&state), None);
}

#[test]
fn shortcuts_dispatch_to_panels_and_effects() {
    let mut state = in_game();
    assert!(dispatch_shortcut_action(ShortcutAction::ToggleReports, &mut state).is_none());
    assert!(state.reports_open);
    assert!(matches!(dispatch_shortcut_action(ShortcutAction::ZoomMapIn, &mut state), Some(ShortcutEffect::ZoomIn)));
    assert!(matches!(dispatch_shortcut_action(ShortcutAction::EndMonth, &mut state), Some(ShortcutEffect::FinishTurn)));
    assert!(shortcut_allowed(true, ShortcutAction::ClosePanel));
    assert!(!shortcut_allowed(true, ShortcutAction::EndMonth));
    assert!(shortcut_allowed(false, ShortcutAction::EndMonth));
}

#[test]
fn captured_keys_become_bindings_with_held_modifiers() {
    let nothing = KeyInput { just_pressed: Vec::new(), ctrl: false, shift: false, alt: false, super_key: false };
    assert_eq!(binding_from_input(&nothing), Ok(None));
    let only_ctrl = KeyInput { just_pressed: vec![KeyCode::ControlLeft], ctrl: true, shift: false, alt: false, super_key: false };
    assert_eq!(binding_from_input(&only_ctrl), Err(CaptureError::ModifierOnly));
    let ctrl_s = KeyInput {
        just_pressed: vec![KeyCode::ControlLeft, KeyCode::KeyS],
        ctrl: true,
        shift: false,
        alt: false,
        super_key: false,
    };
    assert_eq!(
        binding_from_input(&ctrl_s),
        Ok(Some(ShortcutBinding { key: Some("KeyS".to_string()), ctrl: true, shift: false, alt: false, super_key: false }))
    );
}

#[test]
fn shortcut_capture_takes_the_next_plain_key() {
    let mut state = in_game();
    let mut pending = ShortcutSettings::default();
    let before = pending.clone();
    let ctrl_s = KeyInput {
        just_pressed: vec![KeyCode::ControlLeft, KeyCode::KeyS],
        ctrl: true,
        shift: false,
        alt: false,
        super_key: false,
    };
    assert_eq!(handle_shortcut_capture(&mut state, &mut pending, &ctrl_s), CaptureOutcome::NotCapturing);
    assert_eq!(pending, before);

    state.shortcut_capture_action = Some(ShortcutAction::ToggleCityList);
    let only_shift = KeyInput { just_pressed: vec![KeyCode::ShiftLeft], ctrl: false, shift: true, alt: false, super_key: false };
    assert_eq!(handle_shortcut_capture(&mut state, &mut pending, &only_shift), CaptureOutcome::ModifierOnly);
    assert_eq!(state.shortcut_capture_action, Some(ShortcutAction::ToggleCityList));
    assert_eq!(pending, before);

    assert_eq!(
        handle_shortcut_capture(&mut state, &mut pending, &ctrl_s),
        CaptureOutcome::Captured(ShortcutAction::ToggleCityList)
    );
    assert_eq!(state.shortcut_capture_action, None);
    assert_eq!(pending.binding(ShortcutAction::ToggleCityList).key.as_deref(), Some("KeyS"));
    assert!(pending.binding(ShortcutAction::ToggleCityList).ctrl);
}

#[test]
fn shortcut_input_respects_capture_text_fields_and_settings() {
    let applied = ShortcutSettings::default();
    let mut pending = applied.clone();
    let city_list = applied.binding(ShortcutAction::ToggleCityList).clone();
    let key = key_code_from_name(city_list.key.as_deref().unwrap()).unwrap();
    let input = KeyInput {
        just_pressed: vec![key],
        ctrl: city_list.ctrl,
        shift: city_list.shift,
        alt: city_list.alt,
        super_key: city_list.super_key,
    };

    let mut state = in_game();
    assert!(handle_shortcut_input(&mut state, &mut pending, &applied, &input, true).is_none());
    assert!(!state.city_list_open);

    handle_shortcut_input(&mut state, &mut pending, &applied, &input, false);
    assert!(state.city_list_open);

    let mut state = in_game();
    state.settings_open = true;
    handle_shortcut_input(&mut state, &mut pending, &applied, &input, false);
    assert!(!state.city_list_open);

    let mut state = in_game();
    state.shortcut_capture_action = Some(ShortcutAction::ToggleReports);
    assert!(handle_shortcut_input(&mut state, &mut pending, &applied, &input, false).is_none());
    assert!(!state.city_list_open);
    assert_eq!(state.shortcut_capture_action, None);
    assert_eq!(pending.binding(ShortcutAction::ToggleReports).key, city_list.key);
}
