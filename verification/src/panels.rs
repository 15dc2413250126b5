//! Which interface panels are open, how the close key peels them off one
//! layer at a time, and what each shortcut does to them.

use vstd::prelude::*;
use crate::keys::{KeyCode, is_modifier, is_modifier_key, key_code_name, key_name};
use crate::game::{GameState, OfficerProfile, officer_index};
use crate::officer_edit::{OfficerEditDraft, draft_of_profile};
use crate::shortcuts::{ShortcutAction, ShortcutBinding, ShortcutSettings, action_at, action_index, BindingView, SHORTCUT_ACTION_COUNT};

verus! {

/// The two top-level screens.
#[derive(Clone, Copy, Debug, PartialEq, Eq, Structural)]
pub enum Screen {
    MainMenu,
    InGame,
}

/// The open/closed state of the interface's panels and overlays.
#[derive(Debug)]
pub struct PanelState {
    pub screen: Screen,
    pub shortcut_capture_action: Option<ShortcutAction>,
    pub settings_open: bool,
    pub officer_edit_open: bool,
    pub officer_edit_draft: Option<OfficerEditDraft>,
    pub officer_edit_error: Option<String>,
    /// The officer chosen in the officer settings window.
    pub officer_settings_selected_id: Option<String>,
    pub officer_detail_id: Option<String>,
    pub main_menu_new_game_open: bool,
    pub main_menu_load_game_open: bool,
    pub officer_settings_open: bool,
    pub events_open: bool,
    pub technology_open: bool,
    pub shrine_open: bool,
    pub retainers_open: bool,
    pub officer_browser_open: bool,
    pub city_drawer_open: bool,
    pub city_list_open: bool,
    pub save_panel_open: bool,
    pub reports_open: bool,
    pub map_boundaries_enabled: bool,
    pub map_boundaries_loaded: bool,
    pub selected_city_id: Option<String>,
}

/// The layers that the close key can close, from the front.
#[derive(Clone, Copy, Debug, PartialEq, Eq, Structural)]
pub enum PanelLayer {
    ShortcutCapture,
    Settings,
    OfficerEdit,
    OfficerDetail,
    NewGame,
    LoadGame,
    OfficerSettings,
    Events,
    Technology,
    Shrine,
    Retainers,
    OfficerBrowser,
    CityDrawer,
    CityList,
    SavePanel,
    Reports,
}

/// The front-most open layer: overlays first, then, in game, the panels.
pub open spec fn top_layer(s: PanelState) -> Option<PanelLayer> {
    if s.shortcut_capture_action is Some {
        Some(PanelLayer::ShortcutCapture)
    } else if s.settings_open {
        Some(PanelLayer::Settings)
    } else if s.officer_edit_open {
        Some(PanelLayer::OfficerEdit)
    } else if s.officer_detail_id is Some {
        Some(PanelLayer::OfficerDetail)
    } else if s.main_menu_new_game_open {
        Some(PanelLayer::NewGame)
    } else if s.main_menu_load_game_open {
        Some(PanelLayer::LoadGame)
    } else if s.officer_settings_open {
        Some(PanelLayer::OfficerSettings)
    } else if s.screen != Screen::InGame {
        None
    } else if s.events_open {
        Some(PanelLayer::Events)
    } else if s.technology_open {
        Some(PanelLayer::Technology)
    } else if s.shrine_open {
        Some(PanelLayer::Shrine)
    } else if s.retainers_open {
        Some(PanelLayer::Retainers)
    } else if s.officer_browser_open {
        Some(PanelLayer::OfficerBrowser)
    } else if s.city_drawer_open {
        Some(PanelLayer::CityDrawer)
    } else if s.city_list_open {
        Some(PanelLayer::CityList)
    } else if s.save_panel_open {
        Some(PanelLayer::SavePanel)
    } else if s.reports_open {
        Some(PanelLayer::Reports)
    } else {
        None
    }
}

/// `s` with layer `l` closed; closing the officer editor also drops its
/// draft and error.
pub open spec fn without_layer(s: PanelState, l: PanelLayer) -> PanelState {
    PanelState {
        screen: s.screen,
        shortcut_capture_action: if l == PanelLayer::ShortcutCapture { None } else { s.shortcut_capture_action },
        settings_open: s.settings_open && l != PanelLayer::Settings,
        officer_edit_open: s.officer_edit_open && l != PanelLayer::OfficerEdit,
        officer_edit_draft: if l == PanelLayer::OfficerEdit { None } else { s.officer_edit_draft },
        officer_edit_error: if l == PanelLayer::OfficerEdit { None } else { s.officer_edit_error },
        officer_settings_selected_id: s.officer_settings_selected_id,
        officer_detail_id: if l == PanelLayer::OfficerDetail { None } else { s.officer_detail_id },
        main_menu_new_game_open: s.main_menu_new_game_open && l != PanelLayer::NewGame,
        main_menu_load_game_open: s.main_menu_load_game_open && l != PanelLayer::LoadGame,
        officer_settings_open: s.officer_settings_open && l != PanelLayer::OfficerSettings,
        events_open: s.events_open && l != PanelLayer::Events,
        technology_open: s.technology_open && l != PanelLayer::Technology,
        shrine_open: s.shrine_open && l != PanelLayer::Shrine,
        retainers_open: s.retainers_open && l != PanelLayer::Retainers,
        officer_browser_open: s.officer_browser_open && l != PanelLayer::OfficerBrowser,
        city_drawer_open: s.city_drawer_open && l != PanelLayer::CityDrawer,
        city_list_open: s.city_list_open && l != PanelLayer::CityList,
        save_panel_open: s.save_panel_open && l != PanelLayer::SavePanel,
        reports_open: s.reports_open && l != PanelLayer::Reports,
        map_boundaries_enabled: s.map_boundaries_enabled,
        map_boundaries_loaded: s.map_boundaries_loaded,
        selected_city_id: s.selected_city_id,
    }
}

/// The front-most open layer.
pub fn top_panel_layer(state: &PanelState) -> (l: Option<PanelLayer>)
    ensures
        l == top_layer(*state),
{
    if state.shortcut_capture_action.is_some() {
        Some(PanelLayer::ShortcutCapture)
    } else if state.settings_open {
        Some(PanelLayer::Settings)
    } else if state.officer_edit_open {
        Some(PanelLayer::OfficerEdit)
    } else if state.officer_detail_id.is_some() {
        Some(PanelLayer::OfficerDetail)
    } else if state.main_menu_new_game_open {
        Some(PanelLayer::NewGame)
    } else if state.main_menu_load_game_open {
        Some(PanelLayer::LoadGame)
    } else if state.officer_settings_open {
        Some(PanelLayer::OfficerSettings)
    } else if state.screen != Screen::InGame {
        None
    } else if state.events_open {
        Some(PanelLayer::Events)
    } else if state.technology_open {
        Some(PanelLayer::Technology)
    } else if state.shrine_open {
        Some(PanelLayer::Shrine)
    } else if state.retainers_open {
        Some(PanelLayer::Retainers)
    } else if state.officer_browser_open {
        Some(PanelLayer::OfficerBrowser)
    } else if state.city_drawer_open {
        Some(PanelLayer::CityDrawer)
    } else if state.city_list_open {
        Some(PanelLayer::CityList)
    } else if state.save_panel_open {
        Some(PanelLayer::SavePanel)
    } else if state.reports_open {
        Some(PanelLayer::Reports)
    } else {
        None
    }
}

/// Closes layer `layer`: its flag goes off (closing the officer editor also
/// drops its draft and error); nothing else changes.
pub fn close_layer(state: &mut PanelState, layer: PanelLayer)
    ensures
        *final(state) == without_layer(*old(state), layer),
{
    let mut cur = PanelState::nothing_open();
    std::mem::swap(&mut cur, state);
    let s = cur;
    *state = PanelState {
        screen: s.screen,
        shortcut_capture_action: if layer == PanelLayer::ShortcutCapture { None } else { s.shortcut_capture_action },
        settings_open: s.settings_open && layer != PanelLayer::Settings,
        officer_edit_open: s.officer_edit_open && layer != PanelLayer::OfficerEdit,
        officer_edit_draft: if layer == PanelLayer::OfficerEdit { None } else { s.officer_edit_draft },
        officer_edit_error: if layer == PanelLayer::OfficerEdit { None } else { s.officer_edit_error },
        officer_settings_selected_id: s.officer_settings_selected_id,
        officer_detail_id: if layer == PanelLayer::OfficerDetail { None } else { s.officer_detail_id },
        main_menu_new_game_open: s.main_menu_new_game_open && layer != PanelLayer::NewGame,
        main_menu_load_game_open: s.main_menu_load_game_open && layer != PanelLayer::LoadGame,
        officer_settings_open: s.officer_settings_open && layer != PanelLayer::OfficerSettings,
        events_open: s.events_open && layer != PanelLayer::Events,
        technology_open: s.technology_open && layer != PanelLayer::Technology,
        shrine_open: s.shrine_open && layer != PanelLayer::Shrine,
        retainers_open: s.retainers_open && layer != PanelLayer::Retainers,
        officer_browser_open: s.officer_browser_open && layer != PanelLayer::OfficerBrowser,
        city_drawer_open: s.city_drawer_open && layer != PanelLayer::CityDrawer,
        city_list_open: s.city_list_open && layer != PanelLayer::CityList,
        save_panel_open: s.save_panel_open && layer != PanelLayer::SavePanel,
        reports_open: s.reports_open && layer != PanelLayer::Reports,
        map_boundaries_enabled: s.map_boundaries_enabled,
        map_boundaries_loaded: s.map_boundaries_loaded,
        selected_city_id: s.selected_city_id,
    };
}

impl PanelState {
    /// The main menu with nothing open.
    pub fn nothing_open() -> (s: Self)
        ensures
            s.screen == Screen::MainMenu,
            top_layer(s) is None,
    {
        PanelState {
            screen: Screen::MainMenu,
            shortcut_capture_action: None,
            settings_open: false,
            officer_edit_open: false,
            officer_edit_draft: None,
            officer_edit_error: None,
            officer_settings_selected_id: None,
            officer_detail_id: None,
            main_menu_new_game_open: false,
            main_menu_load_game_open: false,
            officer_settings_open: false,
            events_open: false,
            technology_open: false,
            shrine_open: false,
            retainers_open: false,
            officer_browser_open: false,
            city_drawer_open: false,
            city_list_open: false,
            save_panel_open: false,
            reports_open: false,
            map_boundaries_enabled: true,
            map_boundaries_loaded: false,
            selected_city_id: None,
        }
    }
}

/// Closes the front-most open layer; returns whether there was one.
pub fn close_top_panel(state: &mut PanelState) -> (closed: bool)
    ensures
        closed == top_layer(*old(state)) is Some,
        match top_layer(*old(state)) {
            Some(l) => *final(state) == without_layer(*old(state), l),
            None => *final(state) == *old(state),
        },
{
    match top_panel_layer(state) {
        Some(l) => {
            close_layer(state, l);
            true
        },
        None => false,
    }
}

/// `s` with every in-game panel closed, as when leaving for the main menu.
pub open spec fn without_game_panels(s: PanelState) -> PanelState {
    PanelState {
        shortcut_capture_action: None,
        city_drawer_open: false,
        city_list_open: false,
        officer_browser_open: false,
        officer_detail_id: None,
        retainers_open: false,
        shrine_open: false,
        technology_open: false,
        events_open: false,
        save_panel_open: false,
        ..s
    }
}

/// Closes every in-game panel.
pub fn close_in_game_panels(state: &mut PanelState)
    ensures
        *final(state) == without_game_panels(*old(state)),
{
    state.shortcut_capture_action = None;
    state.city_drawer_open = false;
    state.city_list_open = false;
    state.officer_browser_open = false;
    state.officer_detail_id = None;
    state.retainers_open = false;
    state.shrine_open = false;
    state.technology_open = false;
    state.events_open = false;
    state.save_panel_open = false;
}

/// What a shortcut leaves for the game loop to do.
#[derive(Debug)]
pub enum ShortcutEffect {
    OpenCity(String),
    ZoomIn,
    ZoomOut,
    ResetMapView,
    FinishTurn,
    ClearCommands,
}

/// The flags that shortcuts switch on and off.
#[derive(Clone, Copy, Debug, PartialEq, Eq, Structural)]
pub enum PanelFlag {
    Settings,
    SavePanel,
    CityList,
    OfficerBrowser,
    Retainers,
    Shrine,
    Technology,
    Events,
    Reports,
    MapBoundaries,
}

/// `s` with flag `f` switched.
pub open spec fn toggled(s: PanelState, f: PanelFlag) -> PanelState {
    PanelState {
        settings_open: if f == PanelFlag::Settings { !s.settings_open } else { s.settings_open },
        save_panel_open: if f == PanelFlag::SavePanel { !s.save_panel_open } else { s.save_panel_open },
        city_list_open: if f == PanelFlag::CityList { !s.city_list_open } else { s.city_list_open },
        officer_browser_open: if f == PanelFlag::OfficerBrowser { !s.officer_browser_open } else { s.officer_browser_open },
        retainers_open: if f == PanelFlag::Retainers { !s.retainers_open } else { s.retainers_open },
        shrine_open: if f == PanelFlag::Shrine { !s.shrine_open } else { s.shrine_open },
        technology_open: if f == PanelFlag::Technology { !s.technology_open } else { s.technology_open },
        events_open: if f == PanelFlag::Events { !s.events_open } else { s.events_open },
        reports_open: if f == PanelFlag::Reports { !s.reports_open } else { s.reports_open },
        map_boundaries_enabled: if f == PanelFlag::MapBoundaries { !s.map_boundaries_enabled } else { s.map_boundaries_enabled },
        ..s
    }
}

/// Switches flag `flag`.
pub fn toggle_flag(state: &mut PanelState, flag: PanelFlag)
    ensures
        *final(state) == toggled(*old(state), flag),
{
    let mut cur = PanelState::nothing_open();
    std::mem::swap(&mut cur, state);
    let s = cur;
    *state = PanelState {
        screen: s.screen,
        shortcut_capture_action: s.shortcut_capture_action,
        settings_open: if flag == PanelFlag::Settings { !s.settings_open } else { s.settings_open },
        officer_edit_open: s.officer_edit_open,
        officer_edit_draft: s.officer_edit_draft,
        officer_edit_error: s.officer_edit_error,
        officer_settings_selected_id: s.officer_settings_selected_id,
        officer_detail_id: s.officer_detail_id,
        main_menu_new_game_open: s.main_menu_new_game_open,
        main_menu_load_game_open: s.main_menu_load_game_open,
        officer_settings_open: s.officer_settings_open,
        events_open: if flag == PanelFlag::Events { !s.events_open } else { s.events_open },
        technology_open: if flag == PanelFlag::Technology { !s.technology_open } else { s.technology_open },
        shrine_open: if flag == PanelFlag::Shrine { !s.shrine_open } else { s.shrine_open },
        retainers_open: if flag == PanelFlag::Retainers { !s.retainers_open } else { s.retainers_open },
        officer_browser_open: if flag == PanelFlag::OfficerBrowser { !s.officer_browser_open } else { s.officer_browser_open },
        city_drawer_open: s.city_drawer_open,
        city_list_open: if flag == PanelFlag::CityList { !s.city_list_open } else { s.city_list_open },
        save_panel_open: if flag == PanelFlag::SavePanel { !s.save_panel_open } else { s.save_panel_open },
        reports_open: if flag == PanelFlag::Reports { !s.reports_open } else { s.reports_open },
        map_boundaries_enabled: if flag == PanelFlag::MapBoundaries { !s.map_boundaries_enabled } else { s.map_boundaries_enabled },
        map_boundaries_loaded: s.map_boundaries_loaded,
        selected_city_id: s.selected_city_id,
    };
}

/// The outcome of a shortcut: the panel state it leaves, and what the game
/// loop must still do.
pub open spec fn dispatch_outcome(s: PanelState, action: ShortcutAction) -> (PanelState, Option<ShortcutEffect>) {
    let in_game = s.screen == Screen::InGame;
    let in_game_toggle = |f: PanelFlag| if in_game { toggled(s, f) } else { s };
    match action {
        ShortcutAction::ClosePanel => (
            match top_layer(s) {
                Some(l) => without_layer(s, l),
                None => s,
            },
            None,
        ),
        ShortcutAction::ToggleSettings => (
            if s.settings_open {
                PanelState { shortcut_capture_action: None, ..toggled(s, PanelFlag::Settings) }
            } else {
                toggled(s, PanelFlag::Settings)
            },
            None,
        ),
        ShortcutAction::ToggleSavePanel => (in_game_toggle(PanelFlag::SavePanel), None),
        ShortcutAction::ToggleCityList => (in_game_toggle(PanelFlag::CityList), None),
        ShortcutAction::ToggleOfficerBrowser => (in_game_toggle(PanelFlag::OfficerBrowser), None),
        ShortcutAction::ToggleRetainers => (in_game_toggle(PanelFlag::Retainers), None),
        ShortcutAction::ToggleShrine => (in_game_toggle(PanelFlag::Shrine), None),
        ShortcutAction::ToggleTechnology => (in_game_toggle(PanelFlag::Technology), None),
        ShortcutAction::ToggleEvents => (in_game_toggle(PanelFlag::Events), None),
        ShortcutAction::ToggleReports => (in_game_toggle(PanelFlag::Reports), None),
        ShortcutAction::OpenCouncilHall => (
            s,
            if in_game && s.selected_city_id is Some {
                Some(ShortcutEffect::OpenCity(s.selected_city_id->Some_0))
            } else {
                None
            },
        ),
        ShortcutAction::ZoomMapIn => (s, if in_game { Some(ShortcutEffect::ZoomIn) } else { None }),
        ShortcutAction::ZoomMapOut => (s, if in_game { Some(ShortcutEffect::ZoomOut) } else { None }),
        ShortcutAction::ResetMapView => (s, if in_game { Some(ShortcutEffect::ResetMapView) } else { None }),
        ShortcutAction::ToggleMapBoundaries => (
            if in_game && s.map_boundaries_loaded { toggled(s, PanelFlag::MapBoundaries) } else { s },
            None,
        ),
        ShortcutAction::EndMonth => (s, if in_game { Some(ShortcutEffect::FinishTurn) } else { None }),
        ShortcutAction::ClearCommands => (s, if in_game { Some(ShortcutEffect::ClearCommands) } else { None }),
        ShortcutAction::ReturnMainMenu => (
            if in_game { PanelState { screen: Screen::MainMenu, ..without_game_panels(s) } } else { s },
            None,
        ),
    }
}

/// Applies a shortcut action to the panels and hands back the work it leaves
/// for the game loop (opening a city, zooming, ending the month, ...).
#[verifier::spinoff_prover]
#[verifier::rlimit(100)]
pub fn dispatch_shortcut_action(action: ShortcutAction, state: &mut PanelState) -> (effect: Option<ShortcutEffect>)
    ensures
        (*final(state), effect) == dispatch_outcome(*old(state), action),
{
    let in_game = state.screen == Screen::InGame;
    match action {
        ShortcutAction::ClosePanel => {
            close_top_panel(state);
            None
        },
        ShortcutAction::ToggleSettings => {
            toggle_flag(state, PanelFlag::Settings);
            if !state.settings_open {
                state.shortcut_capture_action = None;
            }
            None
        },
        ShortcutAction::ToggleSavePanel => {
            if in_game {
                toggle_flag(state, PanelFlag::SavePanel);
            }
            None
        },
        ShortcutAction::ToggleCityList => {
            if in_game {
                toggle_flag(state, PanelFlag::CityList);
            }
            None
        },
        ShortcutAction::ToggleOfficerBrowser => {
            if in_game {
                toggle_flag(state, PanelFlag::OfficerBrowser);
            }
            None
        },
        ShortcutAction::ToggleRetainers => {
            if in_game {
                toggle_flag(state, PanelFlag::Retainers);
            }
            None
        },
        ShortcutAction::ToggleShrine => {
            if in_game {
                toggle_flag(state, PanelFlag::Shrine);
            }
            None
        },
        ShortcutAction::ToggleTechnology => {
            if in_game {
                toggle_flag(state, PanelFlag::Technology);
            }
            None
        },
        ShortcutAction::ToggleEvents => {
            if in_game {
                toggle_flag(state, PanelFlag::Events);
            }
            None
        },
        ShortcutAction::ToggleReports => {
            if in_game {
                toggle_flag(state, PanelFlag::Reports);
            }
            None
        },
        ShortcutAction::OpenCouncilHall => {
            if in_game {
                match &state.selected_city_id {
                    Some(id) => Some(ShortcutEffect::OpenCity(id.clone())),
                    None => None,
                }
            } else {
                None
            }
        },
        ShortcutAction::ZoomMapIn => if in_game { Some(ShortcutEffect::ZoomIn) } else { None },
        ShortcutAction::ZoomMapOut => if in_game { Some(ShortcutEffect::ZoomOut) } else { None },
        ShortcutAction::ResetMapView => if in_game { Some(ShortcutEffect::ResetMapView) } else { None },
        ShortcutAction::ToggleMapBoundaries => {
            if in_game && state.map_boundaries_loaded {
                toggle_flag(state, PanelFlag::MapBoundaries);
            }
            None
        },
        ShortcutAction::EndMonth => if in_game { Some(ShortcutEffect::FinishTurn) } else { None },
        ShortcutAction::ClearCommands => if in_game { Some(ShortcutEffect::ClearCommands) } else { None },
        ShortcutAction::ReturnMainMenu => {
            if in_game {
                close_in_game_panels(state);
                state.screen = Screen::MainMenu;
            }
            None
        },
    }
}

/// Whether a triggered shortcut may run: while the settings are open only
/// the close and settings keys do.
pub fn shortcut_allowed(settings_open: bool, action: ShortcutAction) -> (b: bool)
    ensures
        b == (!settings_open || action == ShortcutAction::ClosePanel || action == ShortcutAction::ToggleSettings),
{
    !settings_open || action == ShortcutAction::ClosePanel || action == ShortcutAction::ToggleSettings
}

/// The keyboard this frame: the keys pressed this frame, and which modifier
/// keys (either side) are held.
#[derive(Clone, Debug)]
pub struct KeyInput {
    pub just_pressed: Vec<KeyCode>,
    pub ctrl: bool,
    pub shift: bool,
    pub alt: bool,
    pub super_key: bool,
}

/// Whether binding `b` fires on input `input`: its key was pressed this frame
/// and exactly its modifiers are held.
pub open spec fn fires(b: BindingView, input: KeyInput) -> bool {
    &&& crate::shortcuts::binding_code(b) is Some
    &&& input.just_pressed@.contains(crate::shortcuts::binding_code(b)->Some_0)
    &&& b.ctrl == input.ctrl
    &&& b.shift == input.shift
    &&& b.alt == input.alt
    &&& b.super_key == input.super_key
}

/// A binding fires only while each of the four modifiers (ctrl, shift, alt,
/// super) is held exactly when the binding asks for it, and only on a frame
/// in which its key was pressed; a binding without a key never fires.
pub proof fn lemma_binding_needs_its_exact_modifiers(b: BindingView, input: KeyInput)
    ensures
        fires(b, input) ==> b.ctrl == input.ctrl && b.shift == input.shift && b.alt == input.alt
            && b.super_key == input.super_key,
        fires(b, input) ==> crate::shortcuts::binding_code(b) is Some
            && input.just_pressed@.contains(crate::shortcuts::binding_code(b)->Some_0),
        !b.alt && input.alt ==> !fires(b, input),
        !b.ctrl && input.ctrl ==> !fires(b, input),
        !b.shift && input.shift ==> !fires(b, input),
        !b.super_key && input.super_key ==> !fires(b, input),
        b.alt && !input.alt ==> !fires(b, input),
{
}

fn key_in(keys: &Vec<KeyCode>, key: KeyCode) -> (b: bool)
    ensures
        b == keys@.contains(key),
{
    let mut i: usize = 0;
    while i < keys.len()
        invariant
            i <= keys.len(),
            forall|k: int| 0 <= k < i ==> keys@[k] != key,
        decreases keys.len() - i,
    {
        if keys[i] == key {
            return true;
        }
        i = i + 1;
    }
    false
}

impl ShortcutBinding {
    /// Whether this binding fires on `input`.
    pub fn is_triggered(&self, input: &KeyInput) -> (b: bool)
        ensures
            b == fires(self@, *input),
    {
        match self.key_code() {
            None => false,
            Some(key) => key_in(&input.just_pressed, key) && self.ctrl == input.ctrl && self.shift == input.shift
                && self.alt == input.alt && self.super_key == input.super_key,
        }
    }
}

impl ShortcutSettings {
    /// The first action, in the canonical order, whose binding fires.
    pub fn action_for_input(&self, input: &KeyInput) -> (r: Option<ShortcutAction>)
        ensures
            match r {
                Some(a) => fires(self@[action_index(a)], *input) && forall|k: int| 0 <= k < action_index(a) ==> !fires(
                    #[trigger] self@[k],
                    *input,
                ),
                None => forall|k: int| 0 <= k < SHORTCUT_ACTION_COUNT ==> !fires(#[trigger] self@[k], *input),
            },
    {
        let actions = ShortcutAction::all();
        let mut i: usize = 0;
        while i < actions.len()
            invariant
                actions.len() == SHORTCUT_ACTION_COUNT,
                forall|k: int| 0 <= k < SHORTCUT_ACTION_COUNT ==> actions@[k] == action_at(k),
                i <= SHORTCUT_ACTION_COUNT,
                self@.len() == SHORTCUT_ACTION_COUNT,
                forall|k: int| 0 <= k < i ==> !fires(#[trigger] self@[k], *input),
            decreases SHORTCUT_ACTION_COUNT - i,
        {
            let action = actions[i];
            proof {
                crate::shortcuts::lemma_action_at(i as int);
            }
            if self.binding(action).is_triggered(input) {
                return Some(action);
            }
            i = i + 1;
        }
        None
    }
}

/// Switching a flag twice leaves the panels as they were.
pub proof fn lemma_toggle_twice(s: PanelState, f: PanelFlag)
    ensures
        toggled(toggled(s, f), f) == s,
{
}

/// Whether layer `l` is open in `s`.
pub open spec fn layer_open(s: PanelState, l: PanelLayer) -> bool {
    match l {
        PanelLayer::ShortcutCapture => s.shortcut_capture_action is Some,
        PanelLayer::Settings => s.settings_open,
        PanelLayer::OfficerEdit => s.officer_edit_open,
        PanelLayer::OfficerDetail => s.officer_detail_id is Some,
        PanelLayer::NewGame => s.main_menu_new_game_open,
        PanelLayer::LoadGame => s.main_menu_load_game_open,
        PanelLayer::OfficerSettings => s.officer_settings_open,
        PanelLayer::Events => s.events_open,
        PanelLayer::Technology => s.technology_open,
        PanelLayer::Shrine => s.shrine_open,
        PanelLayer::Retainers => s.retainers_open,
        PanelLayer::OfficerBrowser => s.officer_browser_open,
        PanelLayer::CityDrawer => s.city_drawer_open,
        PanelLayer::CityList => s.city_list_open,
        PanelLayer::SavePanel => s.save_panel_open,
        PanelLayer::Reports => s.reports_open,
    }
}

/// The layer that the close key closes is an open one.
pub proof fn lemma_top_layer_is_open(s: PanelState)
    ensures
        top_layer(s) matches Some(l) ==> layer_open(s, l),
{
}

/// Closing the top layer leaves the other layers as they were: a layer other
/// than the closed one is open after the close exactly when it was before.
#[verifier::spinoff_prover]
#[verifier::rlimit(60)]
pub proof fn lemma_close_keeps_other_layers(s: PanelState, l: PanelLayer, m: PanelLayer)
    requires
        l != m,
    ensures
        layer_open(without_layer(s, l), m) == layer_open(s, m),
        !layer_open(without_layer(s, l), l),
{
    let w = without_layer(s, l);
    match m {
        PanelLayer::ShortcutCapture => {},
        PanelLayer::Settings => {},
        PanelLayer::OfficerEdit => {},
        PanelLayer::OfficerDetail => {},
        PanelLayer::NewGame => {},
        PanelLayer::LoadGame => {},
        PanelLayer::OfficerSettings => {},
        PanelLayer::Events => {},
        PanelLayer::Technology => {},
        PanelLayer::Shrine => {},
        PanelLayer::Retainers => {},
        PanelLayer::OfficerBrowser => {},
        PanelLayer::CityDrawer => {},
        PanelLayer::CityList => {},
        PanelLayer::SavePanel => {},
        PanelLayer::Reports => {},
    }
    match l {
        PanelLayer::ShortcutCapture => {},
        PanelLayer::Settings => {},
        PanelLayer::OfficerEdit => {},
        PanelLayer::OfficerDetail => {},
        PanelLayer::NewGame => {},
        PanelLayer::LoadGame => {},
        PanelLayer::OfficerSettings => {},
        PanelLayer::Events => {},
        PanelLayer::Technology => {},
        PanelLayer::Shrine => {},
        PanelLayer::Retainers => {},
        PanelLayer::OfficerBrowser => {},
        PanelLayer::CityDrawer => {},
        PanelLayer::CityList => {},
        PanelLayer::SavePanel => {},
        PanelLayer::Reports => {},
    }
}

/// What opening the officer editor came to.
#[derive(Clone, Copy, Debug, PartialEq, Eq, Structural)]
pub enum EditorOpening {
    /// Profiles cannot be edited here; nothing changes, and the caller says so.
    ReadOnly,
    /// The officer has no profile to edit; nothing changes, and the caller
    /// shows that in the editor's error line.
    ProfileMissing,
    /// The editor is open on the officer's profile.
    Opened,
}

/// The profile that the editor opens for officer `id` of `game`.
pub open spec fn editable_profile(game: Option<&GameState>, id: Seq<char>) -> Option<OfficerProfile> {
    match game {
        Some(g) => match officer_index(g.officers@, id) {
            Some(i) => g.officers@[i].profile,
            None => None,
        },
        None => None,
    }
}

/// Opens the officer editor on officer `officer_id` of `game`, when profiles
/// are `editable` and the officer has one: the officer becomes the selected
/// one, the draft is made from the profile and any old error is cleared.
pub fn open_officer_profile_editor(
    state: &mut PanelState,
    editable: bool,
    game: Option<&GameState>,
    officer_id: &str,
) -> (r: EditorOpening)
    ensures
        !editable ==> r == EditorOpening::ReadOnly && *final(state) == *old(state),
        editable && editable_profile(game, officer_id@) is None ==> r == EditorOpening::ProfileMissing && *final(state)
            == *old(state),
        editable ==> (editable_profile(game, officer_id@) matches Some(p) ==> {
            &&& r == EditorOpening::Opened
            &&& final(state).officer_settings_selected_id matches Some(sel) && sel@ == officer_id@
            &&& final(state).officer_edit_draft matches Some(d) && draft_of_profile(d, p)
            &&& *final(state) == PanelState {
                officer_edit_open: true,
                officer_edit_error: None,
                officer_settings_selected_id: final(state).officer_settings_selected_id,
                officer_edit_draft: final(state).officer_edit_draft,
                ..*old(state)
            }
        }),
{
    if !editable {
        return EditorOpening::ReadOnly;
    }
    let g = match game {
        Some(g) => g,
        None => return EditorOpening::ProfileMissing,
    };
    let i = match g.find_officer(officer_id) {
        Some(i) => i,
        None => return EditorOpening::ProfileMissing,
    };
    match &g.officers[i].profile {
        Some(p) => {
            state.officer_settings_selected_id = Some(crate::text::owned(officer_id));
            state.officer_edit_draft = Some(OfficerEditDraft::from_profile(p));
            state.officer_edit_error = None;
            state.officer_edit_open = true;
            EditorOpening::Opened
        },
        None => EditorOpening::ProfileMissing,
    }
}

/// Why the keys of a frame could not become a binding.
#[derive(Clone, Copy, Debug, PartialEq, Eq, Structural)]
pub enum CaptureError {
    /// Only modifier keys were pressed.
    ModifierOnly,
}

/// `b` binds key `k` of `input` with exactly the modifiers held.
pub open spec fn captured_binding(b: BindingView, input: KeyInput, k: KeyCode) -> bool {
    b == BindingView {
        key: Some(key_name(k)),
        ctrl: input.ctrl,
        shift: input.shift,
        alt: input.alt,
        super_key: input.super_key,
    }
}

/// Some key pressed in `input` is not a modifier.
pub open spec fn has_plain_key(input: KeyInput) -> bool {
    exists|k: int| 0 <= k < input.just_pressed@.len() && !is_modifier(#[trigger] input.just_pressed@[k])
}

/// `r` is what this frame's keys make for a shortcut being captured: nothing
/// while no key was pressed, an error while only modifiers were, else a key
/// pressed this frame that is not a modifier, with the modifiers held.
pub open spec fn capture_result_of(r: Result<Option<ShortcutBinding>, CaptureError>, input: KeyInput) -> bool {
    if input.just_pressed@.len() == 0 {
        r matches Ok(None)
    } else if !has_plain_key(input) {
        r matches Err(CaptureError::ModifierOnly)
    } else {
        r matches Ok(Some(b)) && exists|k: int|
            0 <= k < input.just_pressed@.len() && !is_modifier(#[trigger] input.just_pressed@[k]) && captured_binding(
                b@,
                input,
                input.just_pressed@[k],
            )
    }
}

/// The binding that this frame's keys make for a shortcut being captured.
pub fn binding_from_input(input: &KeyInput) -> (r: Result<Option<ShortcutBinding>, CaptureError>)
    ensures
        capture_result_of(r, *input),
{
    if input.just_pressed.len() == 0 {
        return Ok(None);
    }
    let mut i: usize = 0;
    while i < input.just_pressed.len()
        invariant
            i <= input.just_pressed@.len(),
            forall|k: int| 0 <= k < i ==> is_modifier(#[trigger] input.just_pressed@[k]),
        decreases input.just_pressed@.len() - i,
    {
        let key = input.just_pressed[i];
        if !is_modifier_key(key) {
            match key_code_name(key) {
                Some(name) => {
                    let b = ShortcutBinding {
                        key: Some(crate::text::owned(name)),
                        ctrl: input.ctrl,
                        shift: input.shift,
                        alt: input.alt,
                        super_key: input.super_key,
                    };
                    assert(captured_binding(b@, *input, input.just_pressed@[i as int]));
                    return Ok(Some(b));
                },
                None => {},
            }
        }
        i = i + 1;
    }
    Err(CaptureError::ModifierOnly)
}

/// What a frame did to a shortcut being captured.
#[derive(Clone, Copy, Debug, PartialEq, Eq, Structural)]
pub enum CaptureOutcome {
    /// No shortcut is being captured; the keys go to the shortcuts.
    NotCapturing,
    /// Still waiting for a key.
    Waiting,
    /// Only modifiers were pressed; still waiting.
    ModifierOnly,
    /// The shortcut of this action has its new binding.
    Captured(ShortcutAction),
}

/// One frame of capture: `s1`, `p1` and `o` are what the keys of `input`
/// leave of panel state `s0` and pending shortcuts `p0`.
pub open spec fn capture_step(
    s0: PanelState,
    p0: ShortcutSettings,
    input: KeyInput,
    s1: PanelState,
    p1: ShortcutSettings,
    o: CaptureOutcome,
) -> bool {
    match s0.shortcut_capture_action {
        None => o == CaptureOutcome::NotCapturing && s1 == s0 && p1 == p0,
        Some(a) => if input.just_pressed@.len() == 0 {
            o == CaptureOutcome::Waiting && s1 == s0 && p1 == p0
        } else if !has_plain_key(input) {
            o == CaptureOutcome::ModifierOnly && s1 == s0 && p1 == p0
        } else {
            &&& o == CaptureOutcome::Captured(a)
            &&& s1 == PanelState { shortcut_capture_action: None, ..s0 }
            &&& exists|k: int|
                0 <= k < input.just_pressed@.len() && !is_modifier(#[trigger] input.just_pressed@[k])
                    && captured_binding(p1.binding_of(a)@, input, input.just_pressed@[k])
            &&& p1 == p0.with_binding(a, p1.binding_of(a))
        },
    }
}

/// Feeds this frame's keys to the shortcut being captured, if any: a key that
/// is not a modifier becomes the action's pending binding and ends the
/// capture.
pub fn handle_shortcut_capture(state: &mut PanelState, pending: &mut ShortcutSettings, input: &KeyInput) -> (o: CaptureOutcome)
    ensures
        capture_step(*old(state), *old(pending), *input, *final(state), *final(pending), o),
{
    let action = match state.shortcut_capture_action {
        Some(a) => a,
        None => return CaptureOutcome::NotCapturing,
    };
    match binding_from_input(input) {
        Ok(Some(b)) => {
            let slot = pending.binding_mut(action);
            *slot = b;
            state.shortcut_capture_action = None;
            CaptureOutcome::Captured(action)
        },
        Ok(None) => CaptureOutcome::Waiting,
        Err(CaptureError::ModifierOnly) => CaptureOutcome::ModifierOnly,
    }
}

/// Action `a` is the first whose binding in `s` fires on `input`.
pub open spec fn first_fired(s: ShortcutSettings, input: KeyInput, a: ShortcutAction) -> bool {
    &&& fires(s@[action_index(a)], input)
    &&& forall|k: int| 0 <= k < action_index(a) ==> !fires(#[trigger] s@[k], input)
}

/// Handles this frame's keys: a shortcut being captured takes them; else,
/// unless a text field holds the keyboard (`keyboard_taken`), the first
/// applied shortcut they fire runs, if the settings window lets it.
pub fn handle_shortcut_input(
    state: &mut PanelState,
    pending: &mut ShortcutSettings,
    applied: &ShortcutSettings,
    input: &KeyInput,
    keyboard_taken: bool,
) -> (effect: Option<ShortcutEffect>)
    ensures
        old(state).shortcut_capture_action is Some ==> effect is None && exists|o: CaptureOutcome|
            capture_step(*old(state), *old(pending), *input, *final(state), *final(pending), o),
        old(state).shortcut_capture_action is None ==> {
            &&& *final(pending) == *old(pending)
            &&& keyboard_taken ==> effect is None && *final(state) == *old(state)
            &&& !keyboard_taken && (forall|a: ShortcutAction| !first_fired(*applied, *input, a)) ==> effect is None && *final(state)
                == *old(state)
            &&& forall|a: ShortcutAction| !keyboard_taken && #[trigger] first_fired(*applied, *input, a) ==> if !old(state).settings_open
                || a == ShortcutAction::ClosePanel || a == ShortcutAction::ToggleSettings {
                (*final(state), effect) == dispatch_outcome(*old(state), a)
            } else {
                effect is None && *final(state) == *old(state)
            }
        },
{
    if handle_shortcut_capture(state, pending, input) != CaptureOutcome::NotCapturing {
        return None;
    }
    if keyboard_taken {
        return None;
    }
    match applied.action_for_input(input) {
        Some(action) => {
            proof {
                assert(first_fired(*applied, *input, action));
                assert forall|b: ShortcutAction| first_fired(*applied, *input, b) implies b == action by {
                    crate::shortcuts::lemma_action_index(b);
                    crate::shortcuts::lemma_action_index(action);
                    if action_index(b) < action_index(action) {
                        assert(!fires(applied@[action_index(b)], *input));
                    } else if action_index(action) < action_index(b) {
                        assert(!fires(applied@[action_index(action)], *input));
                    }
                }
            }
            if shortcut_allowed(state.settings_open, action) {
                dispatch_shortcut_action(action, state)
            } else {
                None
            }
        },
        None => {
            proof {
                assert forall|b: ShortcutAction| !first_fired(*applied, *input, b) by {
                    crate::shortcuts::lemma_action_index(b);
                }
            }
            None
        },
    }
}

} // verus!
