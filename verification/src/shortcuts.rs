//! Keyboard shortcuts: the actions they trigger, their bindings, the
//! persisted shortcut table and its validation.

use vstd::prelude::*;
use crate::keys::{
    KeyCode, is_modifier, key_code_from_name, key_display_label, key_label, key_name,
    lemma_lookup_key, lookup_key,
};
use crate::text::{lemma_trimmed_idempotent, owned, push_str, trim, trimmed};

verus! {

/// An interface command that a keyboard shortcut can trigger.
#[derive(Clone, Copy, Debug, PartialEq, Eq, Hash, Structural)]
pub enum ShortcutAction {
    ClosePanel,
    ToggleSettings,
    ToggleSavePanel,
    ToggleCityList,
    ToggleOfficerBrowser,
    ToggleRetainers,
    ToggleShrine,
    ToggleTechnology,
    ToggleEvents,
    ToggleReports,
    OpenCouncilHall,
    ZoomMapIn,
    ZoomMapOut,
    ResetMapView,
    ToggleMapBoundaries,
    EndMonth,
    ClearCommands,
    ReturnMainMenu,
}

/// The number of shortcut actions.
pub const SHORTCUT_ACTION_COUNT: usize = 18;

/// The action at position `i` of the canonical order of actions.
pub open spec fn action_at(i: int) -> ShortcutAction {
    if i == 0 {
        ShortcutAction::ClosePanel
    } else if i == 1 {
        ShortcutAction::ToggleSettings
    } else if i == 2 {
        ShortcutAction::ToggleSavePanel
    } else if i == 3 {
        ShortcutAction::ToggleCityList
    } else if i == 4 {
        ShortcutAction::ToggleOfficerBrowser
    } else if i == 5 {
        ShortcutAction::ToggleRetainers
    } else if i == 6 {
        ShortcutAction::ToggleShrine
    } else if i == 7 {
        ShortcutAction::ToggleTechnology
    } else if i == 8 {
        ShortcutAction::ToggleEvents
    } else if i == 9 {
        ShortcutAction::ToggleReports
    } else if i == 10 {
        ShortcutAction::OpenCouncilHall
    } else if i == 11 {
        ShortcutAction::ZoomMapIn
    } else if i == 12 {
        ShortcutAction::ZoomMapOut
    } else if i == 13 {
        ShortcutAction::ResetMapView
    } else if i == 14 {
        ShortcutAction::ToggleMapBoundaries
    } else if i == 15 {
        ShortcutAction::EndMonth
    } else if i == 16 {
        ShortcutAction::ClearCommands
    } else {
        ShortcutAction::ReturnMainMenu
    }
}

/// The position of an action in the canonical order of actions.
pub open spec fn action_index(action: ShortcutAction) -> int {
    match action {
        ShortcutAction::ClosePanel => 0,
        ShortcutAction::ToggleSettings => 1,
        ShortcutAction::ToggleSavePanel => 2,
        ShortcutAction::ToggleCityList => 3,
        ShortcutAction::ToggleOfficerBrowser => 4,
        ShortcutAction::ToggleRetainers => 5,
        ShortcutAction::ToggleShrine => 6,
        ShortcutAction::ToggleTechnology => 7,
        ShortcutAction::ToggleEvents => 8,
        ShortcutAction::ToggleReports => 9,
        ShortcutAction::OpenCouncilHall => 10,
        ShortcutAction::ZoomMapIn => 11,
        ShortcutAction::ZoomMapOut => 12,
        ShortcutAction::ResetMapView => 13,
        ShortcutAction::ToggleMapBoundaries => 14,
        ShortcutAction::EndMonth => 15,
        ShortcutAction::ClearCommands => 16,
        ShortcutAction::ReturnMainMenu => 17,
    }
}

/// The canonical order lists every action once.
pub proof fn lemma_action_index(action: ShortcutAction)
    ensures
        0 <= action_index(action) < SHORTCUT_ACTION_COUNT,
        action_at(action_index(action)) == action,
{
}

/// Every position of the canonical order holds the action with that index.
pub proof fn lemma_action_at(i: int)
    requires
        0 <= i < SHORTCUT_ACTION_COUNT,
    ensures
        action_index(action_at(i)) == i,
{
}

/// The stable identifier of an action, used in conflict messages.
pub open spec fn action_id(action: ShortcutAction) -> Seq<char> {
    match action {
        ShortcutAction::ClosePanel => "close_panel"@,
        ShortcutAction::ToggleSettings => "toggle_settings"@,
        ShortcutAction::ToggleSavePanel => "toggle_save_panel"@,
        ShortcutAction::ToggleCityList => "toggle_city_list"@,
        ShortcutAction::ToggleOfficerBrowser => "toggle_officer_browser"@,
        ShortcutAction::ToggleRetainers => "toggle_retainers"@,
        ShortcutAction::ToggleShrine => "toggle_shrine"@,
        ShortcutAction::ToggleTechnology => "toggle_technology"@,
        ShortcutAction::ToggleEvents => "toggle_events"@,
        ShortcutAction::ToggleReports => "toggle_reports"@,
        ShortcutAction::OpenCouncilHall => "open_council_hall"@,
        ShortcutAction::ZoomMapIn => "zoom_map_in"@,
        ShortcutAction::ZoomMapOut => "zoom_map_out"@,
        ShortcutAction::ResetMapView => "reset_map_view"@,
        ShortcutAction::ToggleMapBoundaries => "toggle_map_boundaries"@,
        ShortcutAction::EndMonth => "end_month"@,
        ShortcutAction::ClearCommands => "clear_commands"@,
        ShortcutAction::ReturnMainMenu => "return_main_menu"@,
    }
}

/// The translation key of an action's label.
pub open spec fn action_label_key(action: ShortcutAction) -> Seq<char> {
    match action {
        ShortcutAction::ClosePanel => "shortcut-action-close-panel"@,
        ShortcutAction::ToggleSettings => "shortcut-action-toggle-settings"@,
        ShortcutAction::ToggleSavePanel => "shortcut-action-toggle-save-panel"@,
        ShortcutAction::ToggleCityList => "shortcut-action-toggle-city-list"@,
        ShortcutAction::ToggleOfficerBrowser => "shortcut-action-toggle-officer-browser"@,
        ShortcutAction::ToggleRetainers => "shortcut-action-toggle-retainers"@,
        ShortcutAction::ToggleShrine => "shortcut-action-toggle-shrine"@,
        ShortcutAction::ToggleTechnology => "shortcut-action-toggle-technology"@,
        ShortcutAction::ToggleEvents => "shortcut-action-toggle-events"@,
        ShortcutAction::ToggleReports => "shortcut-action-toggle-reports"@,
        ShortcutAction::OpenCouncilHall => "shortcut-action-open-council-hall"@,
        ShortcutAction::ZoomMapIn => "shortcut-action-zoom-map-in"@,
        ShortcutAction::ZoomMapOut => "shortcut-action-zoom-map-out"@,
        ShortcutAction::ResetMapView => "shortcut-action-reset-map-view"@,
        ShortcutAction::ToggleMapBoundaries => "shortcut-action-toggle-map-boundaries"@,
        ShortcutAction::EndMonth => "shortcut-action-end-month"@,
        ShortcutAction::ClearCommands => "shortcut-action-clear-commands"@,
        ShortcutAction::ReturnMainMenu => "shortcut-action-return-main-menu"@,
    }
}

/// The abstract content of a binding: the stored key name and the modifiers.
pub struct BindingView {
    pub key: Option<Seq<char>>,
    pub ctrl: bool,
    pub shift: bool,
    pub alt: bool,
    pub super_key: bool,
}

/// A key with the modifiers that must be held for a shortcut to fire.
#[derive(Clone, Debug, Default, PartialEq, Eq)]
pub struct ShortcutBinding {
    pub key: Option<String>,
    pub ctrl: bool,
    pub shift: bool,
    pub alt: bool,
    pub super_key: bool,
}

impl View for ShortcutBinding {
    type V = BindingView;

    open spec fn view(&self) -> BindingView {
        BindingView {
            key: match self.key {
                Some(k) => Some(k@),
                None => None,
            },
            ctrl: self.ctrl,
            shift: self.shift,
            alt: self.alt,
            super_key: self.super_key,
        }
    }
}

/// The binding to no key at all, without modifiers.
pub open spec fn unbound_view() -> BindingView {
    BindingView { key: None, ctrl: false, shift: false, alt: false, super_key: false }
}

/// The binding to `name` without modifiers.
pub open spec fn plain_view(name: Seq<char>) -> BindingView {
    BindingView { key: Some(name), ctrl: false, shift: false, alt: false, super_key: false }
}

/// Whether a binding names a key at all (not blank).
pub open spec fn bound(b: BindingView) -> bool {
    match b.key {
        Some(k) => trimmed(k).len() > 0,
        None => false,
    }
}

/// The key that a binding names, if its name is a supported key.
pub open spec fn binding_code(b: BindingView) -> Option<KeyCode> {
    match b.key {
        Some(k) => lookup_key(trimmed(k)),
        None => None,
    }
}

/// The modifier part of a binding's label, such as `Ctrl+Shift+`.
pub open spec fn modifier_prefix(b: BindingView) -> Seq<char> {
    (if b.ctrl {
        "Ctrl+"@
    } else {
        Seq::empty()
    }) + (if b.shift {
        "Shift+"@
    } else {
        Seq::empty()
    }) + (if b.alt {
        "Alt+"@
    } else {
        Seq::empty()
    }) + (if b.super_key {
        "Super+"@
    } else {
        Seq::empty()
    })
}

/// The label of a binding, such as `Ctrl+S`, when it names a supported key.
pub open spec fn display_view(b: BindingView) -> Option<Seq<char>> {
    match binding_code(b) {
        Some(k) => Some(modifier_prefix(b) + key_label(k)),
        None => None,
    }
}

/// A binding brought to canonical form: a blank key becomes no binding, an
/// unknown key name is an error, a known one is stored trimmed.
pub open spec fn normalize_view(b: BindingView) -> Result<BindingView, Seq<char>> {
    match b.key {
        None => Ok(unbound_view()),
        Some(k) => if trimmed(k).len() == 0 {
            Ok(unbound_view())
        } else {
            match lookup_key(trimmed(k)) {
                None => Err("不支持的快捷键: "@ + trimmed(k)),
                Some(code) => Ok(BindingView { key: Some(trimmed(k)), ..b }),
            }
        },
    }
}

/// The abstract content of a normalization result.
pub open spec fn normalize_result_view(r: Result<ShortcutBinding, String>) -> Result<BindingView, Seq<char>> {
    match r {
        Ok(b) => Ok(b@),
        Err(e) => Err(e@),
    }
}

impl ShortcutBinding {
    /// A copy of this binding.
    pub fn duplicate(&self) -> (b: Self)
        ensures
            b@ == self@,
    {
        let key = match &self.key {
            Some(k) => Some(k.clone()),
            None => None,
        };
        ShortcutBinding { key, ctrl: self.ctrl, shift: self.shift, alt: self.alt, super_key: self.super_key }
    }

    /// A binding to `key` without modifiers.
    pub fn new(key: &str) -> (b: Self)
        ensures
            b@ == plain_view(key@),
    {
        ShortcutBinding { key: Some(owned(key)), ctrl: false, shift: false, alt: false, super_key: false }
    }

    /// The binding to no key.
    pub fn unbound() -> (b: Self)
        ensures
            b@ == unbound_view(),
    {
        ShortcutBinding { key: None, ctrl: false, shift: false, alt: false, super_key: false }
    }

    /// The same binding with Ctrl required.
    pub fn with_ctrl(self) -> (b: Self)
        ensures
            b@ == (BindingView { ctrl: true, ..self@ }),
    {
        let mut b = self;
        b.ctrl = true;
        b
    }

    /// Whether this binding names a key (a non-blank name).
    pub fn is_bound(&self) -> (r: bool)
        ensures
            r == bound(self@),
    {
        match &self.key {
            Some(k) => {
                let t = trim(k.as_str());
                t.as_str().unicode_len() > 0
            },
            None => false,
        }
    }

    /// The key this binding names, if supported.
    pub fn key_code(&self) -> (code: Option<KeyCode>)
        ensures
            code == binding_code(self@),
    {
        match &self.key {
            Some(k) => key_code_from_name(k.as_str()),
            None => None,
        }
    }

    /// The label of this binding, such as `Ctrl+Shift+S`.
    pub fn display_name(&self) -> (r: Option<String>)
        ensures
            match r {
                Some(s) => display_view(self@) == Some(s@),
                None => display_view(self@) is None,
            },
    {
        let key = match self.key_code() {
            Some(k) => k,
            None => return None,
        };
        let mut s = String::new();
        if self.ctrl {
            push_str(&mut s, "Ctrl+");
        }
        let ghost a = s@;
        if self.shift {
            push_str(&mut s, "Shift+");
        }
        let ghost b = s@;
        if self.alt {
            push_str(&mut s, "Alt+");
        }
        let ghost c = s@;
        if self.super_key {
            push_str(&mut s, "Super+");
        }
        let ghost d = s@;
        assert(d =~= modifier_prefix(self@));
        push_str(&mut s, key_display_label(key));
        Some(s)
    }

    /// This binding in canonical form, or why it cannot be used.
    pub fn normalized(self) -> (r: Result<Self, String>)
        ensures
            normalize_result_view(r) == normalize_view(self@),
    {
        let t = match &self.key {
            Some(k) => trim(k.as_str()),
            None => return Ok(Self::unbound()),
        };
        if t.as_str().unicode_len() == 0 {
            return Ok(Self::unbound());
        }
        proof {
            lemma_trimmed_idempotent(self@.key.unwrap());
        }
        let code = match key_code_from_name(t.as_str()) {
            Some(c) => c,
            None => {
                let mut m = owned("不支持的快捷键: ");
                push_str(&mut m, t.as_str());
                return Err(m);
            },
        };
        proof {
            lemma_lookup_key(trimmed(t@), 0);
        }
        if is_modifier_code(code) {
            return Err(owned("快捷键不能只使用修饰键"));
        }
        let mut b = self;
        b.key = Some(t);
        Ok(b)
    }
}

fn is_modifier_code(code: KeyCode) -> (r: bool)
    ensures
        r == is_modifier(code),
{
    crate::keys::is_modifier_key(code)
}

/// The binding an action has until the player changes it.
pub open spec fn default_binding_view(action: ShortcutAction) -> BindingView {
    match action {
        ShortcutAction::ClosePanel => plain_view("Escape"@),
        ShortcutAction::ToggleSettings => plain_view("F10"@),
        ShortcutAction::ToggleSavePanel => BindingView { ctrl: true, ..plain_view("KeyS"@) },
        ShortcutAction::ToggleCityList => plain_view("KeyC"@),
        ShortcutAction::ToggleOfficerBrowser => plain_view("KeyO"@),
        ShortcutAction::ToggleRetainers => plain_view("KeyV"@),
        ShortcutAction::ToggleShrine => plain_view("KeyH"@),
        ShortcutAction::ToggleTechnology => plain_view("KeyT"@),
        ShortcutAction::ToggleEvents => plain_view("KeyE"@),
        ShortcutAction::ToggleReports => plain_view("KeyR"@),
        ShortcutAction::OpenCouncilHall => plain_view("Enter"@),
        ShortcutAction::ZoomMapIn => plain_view("Equal"@),
        ShortcutAction::ZoomMapOut => plain_view("Minus"@),
        ShortcutAction::ResetMapView => plain_view("Digit0"@),
        ShortcutAction::ToggleMapBoundaries => plain_view("KeyB"@),
        ShortcutAction::EndMonth => BindingView { ctrl: true, ..plain_view("Enter"@) },
        ShortcutAction::ClearCommands => BindingView { ctrl: true, ..plain_view("Backspace"@) },
        ShortcutAction::ReturnMainMenu => unbound_view(),
    }
}

impl ShortcutAction {
    /// Every action, in canonical order.
    pub fn all() -> (v: Vec<ShortcutAction>)
        ensures
            v.len() == SHORTCUT_ACTION_COUNT,
            forall|i: int| 0 <= i < SHORTCUT_ACTION_COUNT ==> v@[i] == action_at(i),
    {
        let v = vec![
            ShortcutAction::ClosePanel,
            ShortcutAction::ToggleSettings,
            ShortcutAction::ToggleSavePanel,
            ShortcutAction::ToggleCityList,
            ShortcutAction::ToggleOfficerBrowser,
            ShortcutAction::ToggleRetainers,
            ShortcutAction::ToggleShrine,
            ShortcutAction::ToggleTechnology,
            ShortcutAction::ToggleEvents,
            ShortcutAction::ToggleReports,
            ShortcutAction::OpenCouncilHall,
            ShortcutAction::ZoomMapIn,
            ShortcutAction::ZoomMapOut,
            ShortcutAction::ResetMapView,
            ShortcutAction::ToggleMapBoundaries,
            ShortcutAction::EndMonth,
            ShortcutAction::ClearCommands,
            ShortcutAction::ReturnMainMenu,
        ];
        v
    }

    /// The translation key of this action's label.
    pub fn label_key(self) -> (k: &'static str)
        ensures
            k@ == action_label_key(self),
    {
        match self {
            ShortcutAction::ClosePanel => "shortcut-action-close-panel",
            ShortcutAction::ToggleSettings => "shortcut-action-toggle-settings",
            ShortcutAction::ToggleSavePanel => "shortcut-action-toggle-save-panel",
            ShortcutAction::ToggleCityList => "shortcut-action-toggle-city-list",
            ShortcutAction::ToggleOfficerBrowser => "shortcut-action-toggle-officer-browser",
            ShortcutAction::ToggleRetainers => "shortcut-action-toggle-retainers",
            ShortcutAction::ToggleShrine => "shortcut-action-toggle-shrine",
            ShortcutAction::ToggleTechnology => "shortcut-action-toggle-technology",
            ShortcutAction::ToggleEvents => "shortcut-action-toggle-events",
            ShortcutAction::ToggleReports => "shortcut-action-toggle-reports",
            ShortcutAction::OpenCouncilHall => "shortcut-action-open-council-hall",
            ShortcutAction::ZoomMapIn => "shortcut-action-zoom-map-in",
            ShortcutAction::ZoomMapOut => "shortcut-action-zoom-map-out",
            ShortcutAction::ResetMapView => "shortcut-action-reset-map-view",
            ShortcutAction::ToggleMapBoundaries => "shortcut-action-toggle-map-boundaries",
            ShortcutAction::EndMonth => "shortcut-action-end-month",
            ShortcutAction::ClearCommands => "shortcut-action-clear-commands",
            ShortcutAction::ReturnMainMenu => "shortcut-action-return-main-menu",
        }
    }

    /// The stable identifier of this action.
    pub fn id(self) -> (k: &'static str)
        ensures
            k@ == action_id(self),
    {
        match self {
            ShortcutAction::ClosePanel => "close_panel",
            ShortcutAction::ToggleSettings => "toggle_settings",
            ShortcutAction::ToggleSavePanel => "toggle_save_panel",
            ShortcutAction::ToggleCityList => "toggle_city_list",
            ShortcutAction::ToggleOfficerBrowser => "toggle_officer_browser",
            ShortcutAction::ToggleRetainers => "toggle_retainers",
            ShortcutAction::ToggleShrine => "toggle_shrine",
            ShortcutAction::ToggleTechnology => "toggle_technology",
            ShortcutAction::ToggleEvents => "toggle_events",
            ShortcutAction::ToggleReports => "toggle_reports",
            ShortcutAction::OpenCouncilHall => "open_council_hall",
            ShortcutAction::ZoomMapIn => "zoom_map_in",
            ShortcutAction::ZoomMapOut => "zoom_map_out",
            ShortcutAction::ResetMapView => "reset_map_view",
            ShortcutAction::ToggleMapBoundaries => "toggle_map_boundaries",
            ShortcutAction::EndMonth => "end_month",
            ShortcutAction::ClearCommands => "clear_commands",
            ShortcutAction::ReturnMainMenu => "return_main_menu",
        }
    }

    /// The binding this action has until the player changes it.
    pub fn default_binding(self) -> (b: ShortcutBinding)
        ensures
            b@ == default_binding_view(self),
    {
        match self {
            ShortcutAction::ClosePanel => ShortcutBinding::new("Escape"),
            ShortcutAction::ToggleSettings => ShortcutBinding::new("F10"),
            ShortcutAction::ToggleSavePanel => ShortcutBinding::new("KeyS").with_ctrl(),
            ShortcutAction::ToggleCityList => ShortcutBinding::new("KeyC"),
            ShortcutAction::ToggleOfficerBrowser => ShortcutBinding::new("KeyO"),
            ShortcutAction::ToggleRetainers => ShortcutBinding::new("KeyV"),
            ShortcutAction::ToggleShrine => ShortcutBinding::new("KeyH"),
            ShortcutAction::ToggleTechnology => ShortcutBinding::new("KeyT"),
            ShortcutAction::ToggleEvents => ShortcutBinding::new("KeyE"),
            ShortcutAction::ToggleReports => ShortcutBinding::new("KeyR"),
            ShortcutAction::OpenCouncilHall => ShortcutBinding::new("Enter"),
            ShortcutAction::ZoomMapIn => ShortcutBinding::new("Equal"),
            ShortcutAction::ZoomMapOut => ShortcutBinding::new("Minus"),
            ShortcutAction::ResetMapView => ShortcutBinding::new("Digit0"),
            ShortcutAction::ToggleMapBoundaries => ShortcutBinding::new("KeyB"),
            ShortcutAction::EndMonth => ShortcutBinding::new("Enter").with_ctrl(),
            ShortcutAction::ClearCommands => ShortcutBinding::new("Backspace").with_ctrl(),
            ShortcutAction::ReturnMainMenu => ShortcutBinding::unbound(),
        }
    }
}

/// A titled group of actions, as the settings screen lists them.
pub struct ShortcutGroup {
    pub label_key: &'static str,
    pub actions: Vec<ShortcutAction>,
}

/// The groups of the settings screen: general, panels, map and turn.
pub fn shortcut_groups() -> (groups: Vec<ShortcutGroup>)
    ensures
        groups.len() == 4,
        groups@[0].label_key@ == "shortcut-group-general"@,
        groups@[0].actions@ == seq![
            ShortcutAction::ClosePanel,
            ShortcutAction::ToggleSettings,
            ShortcutAction::ToggleSavePanel,
            ShortcutAction::OpenCouncilHall,
            ShortcutAction::ReturnMainMenu,
        ],
        groups@[1].label_key@ == "shortcut-group-panels"@,
        groups@[1].actions@ == seq![
            ShortcutAction::ToggleCityList,
            ShortcutAction::ToggleOfficerBrowser,
            ShortcutAction::ToggleRetainers,
            ShortcutAction::ToggleShrine,
            ShortcutAction::ToggleTechnology,
            ShortcutAction::ToggleEvents,
            ShortcutAction::ToggleReports,
        ],
        groups@[2].label_key@ == "shortcut-group-map"@,
        groups@[2].actions@ == seq![
            ShortcutAction::ZoomMapIn,
            ShortcutAction::ZoomMapOut,
            ShortcutAction::ResetMapView,
            ShortcutAction::ToggleMapBoundaries,
        ],
        groups@[3].label_key@ == "shortcut-group-turn"@,
        groups@[3].actions@ == seq![ShortcutAction::EndMonth, ShortcutAction::ClearCommands],
{
    let general = vec![
        ShortcutAction::ClosePanel,
        ShortcutAction::ToggleSettings,
        ShortcutAction::ToggleSavePanel,
        ShortcutAction::OpenCouncilHall,
        ShortcutAction::ReturnMainMenu,
    ];
    let panels = vec![
        ShortcutAction::ToggleCityList,
        ShortcutAction::ToggleOfficerBrowser,
        ShortcutAction::ToggleRetainers,
        ShortcutAction::ToggleShrine,
        ShortcutAction::ToggleTechnology,
        ShortcutAction::ToggleEvents,
        ShortcutAction::ToggleReports,
    ];
    let map = vec![
        ShortcutAction::ZoomMapIn,
        ShortcutAction::ZoomMapOut,
        ShortcutAction::ResetMapView,
        ShortcutAction::ToggleMapBoundaries,
    ];
    let turn = vec![ShortcutAction::EndMonth, ShortcutAction::ClearCommands];
    vec![
        ShortcutGroup { label_key: "shortcut-group-general", actions: general },
        ShortcutGroup { label_key: "shortcut-group-panels", actions: panels },
        ShortcutGroup { label_key: "shortcut-group-map", actions: map },
        ShortcutGroup { label_key: "shortcut-group-turn", actions: turn },
    ]
}

/// The binding of every shortcut action.
#[derive(Clone, Debug, PartialEq, Eq)]
pub struct ShortcutSettings {
    pub close_panel: ShortcutBinding,
    pub toggle_settings: ShortcutBinding,
    pub toggle_save_panel: ShortcutBinding,
    pub toggle_city_list: ShortcutBinding,
    pub toggle_officer_browser: ShortcutBinding,
    pub toggle_retainers: ShortcutBinding,
    pub toggle_shrine: ShortcutBinding,
    pub toggle_technology: ShortcutBinding,
    pub toggle_events: ShortcutBinding,
    pub toggle_reports: ShortcutBinding,
    pub open_council_hall: ShortcutBinding,
    pub zoom_map_in: ShortcutBinding,
    pub zoom_map_out: ShortcutBinding,
    pub reset_map_view: ShortcutBinding,
    pub toggle_map_boundaries: ShortcutBinding,
    pub end_month: ShortcutBinding,
    pub clear_commands: ShortcutBinding,
    pub return_main_menu: ShortcutBinding,
}

impl View for ShortcutSettings {
    type V = Seq<BindingView>;

    /// The bindings in canonical action order.
    open spec fn view(&self) -> Seq<BindingView> {
        seq![
            self.close_panel@,
            self.toggle_settings@,
            self.toggle_save_panel@,
            self.toggle_city_list@,
            self.toggle_officer_browser@,
            self.toggle_retainers@,
            self.toggle_shrine@,
            self.toggle_technology@,
            self.toggle_events@,
            self.toggle_reports@,
            self.open_council_hall@,
            self.zoom_map_in@,
            self.zoom_map_out@,
            self.reset_map_view@,
            self.toggle_map_boundaries@,
            self.end_month@,
            self.clear_commands@,
            self.return_main_menu@,
        ]
    }
}

impl ShortcutSettings {
    /// The binding of `action`.
    pub open spec fn binding_of(self, action: ShortcutAction) -> ShortcutBinding {
        match action {
            ShortcutAction::ClosePanel => self.close_panel,
            ShortcutAction::ToggleSettings => self.toggle_settings,
            ShortcutAction::ToggleSavePanel => self.toggle_save_panel,
            ShortcutAction::ToggleCityList => self.toggle_city_list,
            ShortcutAction::ToggleOfficerBrowser => self.toggle_officer_browser,
            ShortcutAction::ToggleRetainers => self.toggle_retainers,
            ShortcutAction::ToggleShrine => self.toggle_shrine,
            ShortcutAction::ToggleTechnology => self.toggle_technology,
            ShortcutAction::ToggleEvents => self.toggle_events,
            ShortcutAction::ToggleReports => self.toggle_reports,
            ShortcutAction::OpenCouncilHall => self.open_council_hall,
            ShortcutAction::ZoomMapIn => self.zoom_map_in,
            ShortcutAction::ZoomMapOut => self.zoom_map_out,
            ShortcutAction::ResetMapView => self.reset_map_view,
            ShortcutAction::ToggleMapBoundaries => self.toggle_map_boundaries,
            ShortcutAction::EndMonth => self.end_month,
            ShortcutAction::ClearCommands => self.clear_commands,
            ShortcutAction::ReturnMainMenu => self.return_main_menu,
        }
    }

    /// These settings with `action` bound to `b`.
    pub open spec fn with_binding(self, action: ShortcutAction, b: ShortcutBinding) -> ShortcutSettings {
        match action {
            ShortcutAction::ClosePanel => ShortcutSettings { close_panel: b, ..self },
            ShortcutAction::ToggleSettings => ShortcutSettings { toggle_settings: b, ..self },
            ShortcutAction::ToggleSavePanel => ShortcutSettings { toggle_save_panel: b, ..self },
            ShortcutAction::ToggleCityList => ShortcutSettings { toggle_city_list: b, ..self },
            ShortcutAction::ToggleOfficerBrowser => ShortcutSettings { toggle_officer_browser: b, ..self },
            ShortcutAction::ToggleRetainers => ShortcutSettings { toggle_retainers: b, ..self },
            ShortcutAction::ToggleShrine => ShortcutSettings { toggle_shrine: b, ..self },
            ShortcutAction::ToggleTechnology => ShortcutSettings { toggle_technology: b, ..self },
            ShortcutAction::ToggleEvents => ShortcutSettings { toggle_events: b, ..self },
            ShortcutAction::ToggleReports => ShortcutSettings { toggle_reports: b, ..self },
            ShortcutAction::OpenCouncilHall => ShortcutSettings { open_council_hall: b, ..self },
            ShortcutAction::ZoomMapIn => ShortcutSettings { zoom_map_in: b, ..self },
            ShortcutAction::ZoomMapOut => ShortcutSettings { zoom_map_out: b, ..self },
            ShortcutAction::ResetMapView => ShortcutSettings { reset_map_view: b, ..self },
            ShortcutAction::ToggleMapBoundaries => ShortcutSettings { toggle_map_boundaries: b, ..self },
            ShortcutAction::EndMonth => ShortcutSettings { end_month: b, ..self },
            ShortcutAction::ClearCommands => ShortcutSettings { clear_commands: b, ..self },
            ShortcutAction::ReturnMainMenu => ShortcutSettings { return_main_menu: b, ..self },
        }
    }

    /// The binding of `action`.
    pub fn binding(&self, action: ShortcutAction) -> (b: &ShortcutBinding)
        ensures
            *b == self.binding_of(action),
            b@ == self@[action_index(action)],
    {
        match action {
            ShortcutAction::ClosePanel => &self.close_panel,
            ShortcutAction::ToggleSettings => &self.toggle_settings,
            ShortcutAction::ToggleSavePanel => &self.toggle_save_panel,
            ShortcutAction::ToggleCityList => &self.toggle_city_list,
            ShortcutAction::ToggleOfficerBrowser => &self.toggle_officer_browser,
            ShortcutAction::ToggleRetainers => &self.toggle_retainers,
            ShortcutAction::ToggleShrine => &self.toggle_shrine,
            ShortcutAction::ToggleTechnology => &self.toggle_technology,
            ShortcutAction::ToggleEvents => &self.toggle_events,
            ShortcutAction::ToggleReports => &self.toggle_reports,
            ShortcutAction::OpenCouncilHall => &self.open_council_hall,
            ShortcutAction::ZoomMapIn => &self.zoom_map_in,
            ShortcutAction::ZoomMapOut => &self.zoom_map_out,
            ShortcutAction::ResetMapView => &self.reset_map_view,
            ShortcutAction::ToggleMapBoundaries => &self.toggle_map_boundaries,
            ShortcutAction::EndMonth => &self.end_month,
            ShortcutAction::ClearCommands => &self.clear_commands,
            ShortcutAction::ReturnMainMenu => &self.return_main_menu,
        }
    }

    /// The binding of `action`, to change in place.
    pub fn binding_mut(&mut self, action: ShortcutAction) -> (b: &mut ShortcutBinding)
        ensures
            *b == old(self).binding_of(action),
            *final(self) == old(self).with_binding(action, *final(b)),
    {
        match action {
            ShortcutAction::ClosePanel => &mut self.close_panel,
            ShortcutAction::ToggleSettings => &mut self.toggle_settings,
            ShortcutAction::ToggleSavePanel => &mut self.toggle_save_panel,
            ShortcutAction::ToggleCityList => &mut self.toggle_city_list,
            ShortcutAction::ToggleOfficerBrowser => &mut self.toggle_officer_browser,
            ShortcutAction::ToggleRetainers => &mut self.toggle_retainers,
            ShortcutAction::ToggleShrine => &mut self.toggle_shrine,
            ShortcutAction::ToggleTechnology => &mut self.toggle_technology,
            ShortcutAction::ToggleEvents => &mut self.toggle_events,
            ShortcutAction::ToggleReports => &mut self.toggle_reports,
            ShortcutAction::OpenCouncilHall => &mut self.open_council_hall,
            ShortcutAction::ZoomMapIn => &mut self.zoom_map_in,
            ShortcutAction::ZoomMapOut => &mut self.zoom_map_out,
            ShortcutAction::ResetMapView => &mut self.reset_map_view,
            ShortcutAction::ToggleMapBoundaries => &mut self.toggle_map_boundaries,
            ShortcutAction::EndMonth => &mut self.end_month,
            ShortcutAction::ClearCommands => &mut self.clear_commands,
            ShortcutAction::ReturnMainMenu => &mut self.return_main_menu,
        }
    }

    /// Restores the default binding of `action`, leaving the others as they are.
    pub fn reset_binding(&mut self, action: ShortcutAction)
        ensures
            final(self)@ == old(self)@.update(action_index(action), default_binding_view(action)),
    {
        let b = action.default_binding();
        *self.binding_mut(action) = b;
        proof {
            lemma_action_index(action);
        }
        assert(final(self)@ =~= old(self)@.update(action_index(action), default_binding_view(action)));
    }
}

impl Default for ShortcutSettings {
    fn default() -> (s: Self)
        ensures
            forall|i: int| 0 <= i < SHORTCUT_ACTION_COUNT ==> s@[i] == default_binding_view(action_at(i)),
            s@.len() == SHORTCUT_ACTION_COUNT,
    {
        ShortcutSettings {
            close_panel: default_close_panel(),
            toggle_settings: default_toggle_settings(),
            toggle_save_panel: default_toggle_save_panel(),
            toggle_city_list: default_toggle_city_list(),
            toggle_officer_browser: default_toggle_officer_browser(),
            toggle_retainers: default_toggle_retainers(),
            toggle_shrine: default_toggle_shrine(),
            toggle_technology: default_toggle_technology(),
            toggle_events: default_toggle_events(),
            toggle_reports: default_toggle_reports(),
            open_council_hall: default_open_council_hall(),
            zoom_map_in: default_zoom_map_in(),
            zoom_map_out: default_zoom_map_out(),
            reset_map_view: default_reset_map_view(),
            toggle_map_boundaries: default_toggle_map_boundaries(),
            end_month: default_end_month(),
            clear_commands: default_clear_commands(),
            return_main_menu: default_return_main_menu(),
        }
    }
}

/// The default binding of the `close_panel` action.
pub fn default_close_panel() -> (b: ShortcutBinding)
    ensures
        b@ == default_binding_view(ShortcutAction::ClosePanel),
{
    ShortcutAction::ClosePanel.default_binding()
}

/// The default binding of the `toggle_settings` action.
pub fn default_toggle_settings() -> (b: ShortcutBinding)
    ensures
        b@ == default_binding_view(ShortcutAction::ToggleSettings),
{
    ShortcutAction::ToggleSettings.default_binding()
}

/// The default binding of the `toggle_save_panel` action.
pub fn default_toggle_save_panel() -> (b: ShortcutBinding)
    ensures
        b@ == default_binding_view(ShortcutAction::ToggleSavePanel),
{
    ShortcutAction::ToggleSavePanel.default_binding()
}

/// The default binding of the `toggle_city_list` action.
pub fn default_toggle_city_list() -> (b: ShortcutBinding)
    ensures
        b@ == default_binding_view(ShortcutAction::ToggleCityList),
{
    ShortcutAction::ToggleCityList.default_binding()
}

/// The default binding of the `toggle_officer_browser` action.
pub fn default_toggle_officer_browser() -> (b: ShortcutBinding)
    ensures
        b@ == default_binding_view(ShortcutAction::ToggleOfficerBrowser),
{
    ShortcutAction::ToggleOfficerBrowser.default_binding()
}

/// The default binding of the `toggle_retainers` action.
pub fn default_toggle_retainers() -> (b: ShortcutBinding)
    ensures
        b@ == default_binding_view(ShortcutAction::ToggleRetainers),
{
    ShortcutAction::ToggleRetainers.default_binding()
}

/// The default binding of the `toggle_shrine` action.
pub fn default_toggle_shrine() -> (b: ShortcutBinding)
    ensures
        b@ == default_binding_view(ShortcutAction::ToggleShrine),
{
    ShortcutAction::ToggleShrine.default_binding()
}

/// The default binding of the `toggle_technology` action.
pub fn default_toggle_technology() -> (b: ShortcutBinding)
    ensures
        b@ == default_binding_view(ShortcutAction::ToggleTechnology),
{
    ShortcutAction::ToggleTechnology.default_binding()
}

/// The default binding of the `toggle_events` action.
pub fn default_toggle_events() -> (b: ShortcutBinding)
    ensures
        b@ == default_binding_view(ShortcutAction::ToggleEvents),
{
    ShortcutAction::ToggleEvents.default_binding()
}

/// The default binding of the `toggle_reports` action.
pub fn default_toggle_reports() -> (b: ShortcutBinding)
    ensures
        b@ == default_binding_view(ShortcutAction::ToggleReports),
{
    ShortcutAction::ToggleReports.default_binding()
}

/// The default binding of the `open_council_hall` action.
pub fn default_open_council_hall() -> (b: ShortcutBinding)
    ensures
        b@ == default_binding_view(ShortcutAction::OpenCouncilHall),
{
    ShortcutAction::OpenCouncilHall.default_binding()
}

/// The default binding of the `zoom_map_in` action.
pub fn default_zoom_map_in() -> (b: ShortcutBinding)
    ensures
        b@ == default_binding_view(ShortcutAction::ZoomMapIn),
{
    ShortcutAction::ZoomMapIn.default_binding()
}

/// The default binding of the `zoom_map_out` action.
pub fn default_zoom_map_out() -> (b: ShortcutBinding)
    ensures
        b@ == default_binding_view(ShortcutAction::ZoomMapOut),
{
    ShortcutAction::ZoomMapOut.default_binding()
}

/// The default binding of the `reset_map_view` action.
pub fn default_reset_map_view() -> (b: ShortcutBinding)
    ensures
        b@ == default_binding_view(ShortcutAction::ResetMapView),
{
    ShortcutAction::ResetMapView.default_binding()
}

/// The default binding of the `toggle_map_boundaries` action.
pub fn default_toggle_map_boundaries() -> (b: ShortcutBinding)
    ensures
        b@ == default_binding_view(ShortcutAction::ToggleMapBoundaries),
{
    ShortcutAction::ToggleMapBoundaries.default_binding()
}

/// The default binding of the `end_month` action.
pub fn default_end_month() -> (b: ShortcutBinding)
    ensures
        b@ == default_binding_view(ShortcutAction::EndMonth),
{
    ShortcutAction::EndMonth.default_binding()
}

/// The default binding of the `clear_commands` action.
pub fn default_clear_commands() -> (b: ShortcutBinding)
    ensures
        b@ == default_binding_view(ShortcutAction::ClearCommands),
{
    ShortcutAction::ClearCommands.default_binding()
}

/// The default binding of the `return_main_menu` action.
pub fn default_return_main_menu() -> (b: ShortcutBinding)
    ensures
        b@ == default_binding_view(ShortcutAction::ReturnMainMenu),
{
    ShortcutAction::ReturnMainMenu.default_binding()
}

/// Whether the binding at position `i` can be brought to canonical form.
pub open spec fn normalizes(v: Seq<BindingView>, i: int) -> bool {
    normalize_view(v[i]) is Ok
}

/// Position `i` is the first whose binding cannot be brought to canonical form.
pub open spec fn first_bad_binding(v: Seq<BindingView>, i: int) -> bool {
    &&& 0 <= i < SHORTCUT_ACTION_COUNT
    &&& !normalizes(v, i)
    &&& forall|k: int| 0 <= k < i ==> normalizes(v, k)
}

/// The canonical form of every binding, once all of them have one.
pub open spec fn normalized_bindings(v: Seq<BindingView>) -> Seq<BindingView> {
    Seq::new(SHORTCUT_ACTION_COUNT as nat, |i: int| normalize_view(v[i])->Ok_0)
}

/// Actions `i < j` share the same key and modifiers.
pub open spec fn conflict(n: Seq<BindingView>, i: int, j: int) -> bool {
    &&& 0 <= i < j < n.len()
    &&& bound(n[i])
    &&& n[i] == n[j]
}

/// `(i, j)` is the conflict found first, scanning actions in order.
pub open spec fn first_conflict(n: Seq<BindingView>, i: int, j: int) -> bool {
    &&& conflict(n, i, j)
    &&& forall|i2: int, j2: int| #![trigger conflict(n, i2, j2)] conflict(n, i2, j2) ==> j <= j2
}

/// The label used in conflict messages.
pub open spec fn display_or_unbound(b: BindingView) -> Seq<char> {
    match display_view(b) {
        Some(d) => d,
        None => "unbound"@,
    }
}

/// The message that reports a conflict between actions `i` and `j`.
pub open spec fn conflict_message(i: int, j: int, b: BindingView) -> Seq<char> {
    "快捷键冲突: "@ + action_id(action_at(i)) + " 与 "@ + action_id(action_at(j)) + " 都绑定到 "@
        + display_or_unbound(b)
}

/// The outcome of validating a shortcut table: the canonical table, or the
/// first binding that cannot be normalized, or else the first conflict.
pub open spec fn shortcut_validation(v: Seq<BindingView>) -> Result<Seq<BindingView>, Seq<char>> {
    if exists|i: int| first_bad_binding(v, i) {
        let i = choose|i: int| first_bad_binding(v, i);
        Err(normalize_view(v[i])->Err_0)
    } else {
        let n = normalized_bindings(v);
        if exists|i: int, j: int| first_conflict(n, i, j) {
            let (i, j) = choose|i: int, j: int| first_conflict(n, i, j);
            Err(conflict_message(i, j, n[j]))
        } else {
            Ok(n)
        }
    }
}

/// A validation result with the table and the message taken by their views.
pub open spec fn settings_result_view(r: Result<ShortcutSettings, String>) -> Result<Seq<BindingView>, Seq<char>> {
    match r {
        Ok(s) => Ok(s@),
        Err(e) => Err(e@),
    }
}

/// Whether two bindings name the same key with the same modifiers.
pub fn same_binding(a: &ShortcutBinding, b: &ShortcutBinding) -> (r: bool)
    ensures
        r == (a@ == b@),
{
    let keys = match (&a.key, &b.key) {
        (Some(x), Some(y)) => *x == *y,
        (None, None) => true,
        _ => false,
    };
    keys && a.ctrl == b.ctrl && a.shift == b.shift && a.alt == b.alt && a.super_key == b.super_key
}

proof fn lemma_with_binding_view(s: ShortcutSettings, action: ShortcutAction, b: ShortcutBinding)
    ensures
        s.with_binding(action, b)@ == s@.update(action_index(action), b@),
        s.binding_of(action)@ == s@[action_index(action)],
{
    match action {
        ShortcutAction::ClosePanel => {
            assert(s.with_binding(action, b)@ =~= s@.update(action_index(action), b@));
        },
        ShortcutAction::ToggleSettings => {
            assert(s.with_binding(action, b)@ =~= s@.update(action_index(action), b@));
        },
        ShortcutAction::ToggleSavePanel => {
            assert(s.with_binding(action, b)@ =~= s@.update(action_index(action), b@));
        },
        ShortcutAction::ToggleCityList => {
            assert(s.with_binding(action, b)@ =~= s@.update(action_index(action), b@));
        },
        ShortcutAction::ToggleOfficerBrowser => {
            assert(s.with_binding(action, b)@ =~= s@.update(action_index(action), b@));
        },
        ShortcutAction::ToggleRetainers => {
            assert(s.with_binding(action, b)@ =~= s@.update(action_index(action), b@));
        },
        ShortcutAction::ToggleShrine => {
            assert(s.with_binding(action, b)@ =~= s@.update(action_index(action), b@));
        },
        ShortcutAction::ToggleTechnology => {
            assert(s.with_binding(action, b)@ =~= s@.update(action_index(action), b@));
        },
        ShortcutAction::ToggleEvents => {
            assert(s.with_binding(action, b)@ =~= s@.update(action_index(action), b@));
        },
        ShortcutAction::ToggleReports => {
            assert(s.with_binding(action, b)@ =~= s@.update(action_index(action), b@));
        },
        ShortcutAction::OpenCouncilHall => {
            assert(s.with_binding(action, b)@ =~= s@.update(action_index(action), b@));
        },
        ShortcutAction::ZoomMapIn => {
            assert(s.with_binding(action, b)@ =~= s@.update(action_index(action), b@));
        },
        ShortcutAction::ZoomMapOut => {
            assert(s.with_binding(action, b)@ =~= s@.update(action_index(action), b@));
        },
        ShortcutAction::ResetMapView => {
            assert(s.with_binding(action, b)@ =~= s@.update(action_index(action), b@));
        },
        ShortcutAction::ToggleMapBoundaries => {
            assert(s.with_binding(action, b)@ =~= s@.update(action_index(action), b@));
        },
        ShortcutAction::EndMonth => {
            assert(s.with_binding(action, b)@ =~= s@.update(action_index(action), b@));
        },
        ShortcutAction::ClearCommands => {
            assert(s.with_binding(action, b)@ =~= s@.update(action_index(action), b@));
        },
        ShortcutAction::ReturnMainMenu => {
            assert(s.with_binding(action, b)@ =~= s@.update(action_index(action), b@));
        },
    }
}

impl ShortcutSettings {
    /// Brings every binding to canonical form, in action order, stopping at
    /// the first one that cannot be.
    fn normalize_all(self) -> (r: Result<Self, String>)
        ensures
            match r {
                Ok(s) => (forall|k: int| 0 <= k < SHORTCUT_ACTION_COUNT ==> normalizes(self@, k))
                    && s@ == normalized_bindings(self@),
                Err(e) => exists|i: int| #[trigger] first_bad_binding(self@, i)
                    && normalize_view(self@[i]) == Err::<BindingView, Seq<char>>(e@),
            },
    {
        let ghost v = self@;
        let mut s = self;
        let actions = ShortcutAction::all();
        let mut idx: usize = 0;
        while idx < SHORTCUT_ACTION_COUNT
            invariant
                actions.len() == SHORTCUT_ACTION_COUNT,
                forall|i: int| 0 <= i < SHORTCUT_ACTION_COUNT ==> actions@[i] == action_at(i),
                v == self@,
                v.len() == SHORTCUT_ACTION_COUNT,
                s@.len() == SHORTCUT_ACTION_COUNT,
                idx <= SHORTCUT_ACTION_COUNT,
                forall|k: int| 0 <= k < idx ==> normalizes(v, k),
                forall|k: int| 0 <= k < idx ==> s@[k] == normalize_view(v[k])->Ok_0,
                forall|k: int| idx <= k < SHORTCUT_ACTION_COUNT ==> s@[k] == v[k],
            decreases SHORTCUT_ACTION_COUNT - idx,
        {
            let action = actions[idx];
            proof {
                lemma_action_at(idx as int);
            }
            let b = s.binding(action).duplicate();
            match b.normalized() {
                Ok(nb) => {
                    proof {
                        lemma_with_binding_view(s, action, nb);
                    }
                    let ghost before = s@;
                    *s.binding_mut(action) = nb;
                    assert(s@ == before.update(idx as int, nb@));
                },
                Err(e) => {
                    assert(b@ == v[idx as int]);
                    assert(normalize_view(v[idx as int]) == Err::<BindingView, Seq<char>>(e@));
                    assert(first_bad_binding(v, idx as int));
                    return Err(e);
                },
            }
            idx = idx + 1;
        }
        assert(s@ =~= normalized_bindings(v));
        Ok(s)
    }

    /// The first pair of actions, scanning in order, whose bindings coincide.
    fn find_conflict(&self) -> (r: Option<(usize, usize)>)
        ensures
            match r {
                Some((i, j)) => first_conflict(self@, i as int, j as int),
                None => forall|i: int, j: int| !conflict(self@, i, j),
            },
    {
        let ghost n = self@;
        let actions = ShortcutAction::all();
        let mut j: usize = 0;
        while j < SHORTCUT_ACTION_COUNT
            invariant
                actions.len() == SHORTCUT_ACTION_COUNT,
                forall|i: int| 0 <= i < SHORTCUT_ACTION_COUNT ==> actions@[i] == action_at(i),
                n == self@,
                n.len() == SHORTCUT_ACTION_COUNT,
                j <= SHORTCUT_ACTION_COUNT,
                forall|i2: int, j2: int| #![trigger conflict(n, i2, j2)] j2 < j ==> !conflict(n, i2, j2),
            decreases SHORTCUT_ACTION_COUNT - j,
        {
            let aj = actions[j];
            proof {
                lemma_action_at(j as int);
            }
            let bj = self.binding(aj);
            if bj.is_bound() {
                let mut i: usize = 0;
                while i < j
                    invariant
                        actions.len() == SHORTCUT_ACTION_COUNT,
                        forall|k: int| 0 <= k < SHORTCUT_ACTION_COUNT ==> actions@[k] == action_at(k),
                        n == self@,
                        n.len() == SHORTCUT_ACTION_COUNT,
                        i <= j < SHORTCUT_ACTION_COUNT,
                        bj@ == n[j as int],
                        bound(n[j as int]),
                        forall|i2: int| 0 <= i2 < i ==> n[i2] != n[j as int],
                        forall|i2: int, j2: int| #![trigger conflict(n, i2, j2)] j2 < j ==> !conflict(n, i2, j2),
                    decreases j - i,
                {
                    let ai = actions[i];
                    proof {
                        lemma_action_at(i as int);
                    }
                    if same_binding(self.binding(ai), bj) {
                        assert(conflict(n, i as int, j as int));
                        return Some((i, j));
                    }
                    i = i + 1;
                }
                assert forall|i2: int, j2: int| #![trigger conflict(n, i2, j2)] j2 < j + 1 implies !conflict(n, i2, j2) by {
                    if j2 == j && conflict(n, i2, j2) {
                        assert(n[i2] != n[j as int]);
                    }
                }
            } else {
                assert forall|i2: int, j2: int| #![trigger conflict(n, i2, j2)] j2 < j + 1 implies !conflict(n, i2, j2) by {
                    if j2 == j && conflict(n, i2, j2) {
                        assert(bound(n[j as int]));
                    }
                }
            }
            j = j + 1;
        }
        None
    }

    /// The table in canonical form, or an error: the first binding whose key
    /// is not supported, or else the first two actions that share a binding.
    pub fn validated(self) -> (r: Result<Self, String>)
        ensures
            settings_result_view(r) == shortcut_validation(self@),
    {
        let ghost v = self@;
        let s = match self.normalize_all() {
            Ok(s) => s,
            Err(e) => {
                proof {
                    let i = choose|i: int| #[trigger] first_bad_binding(v, i) && normalize_view(v[i]) == Err::<BindingView, Seq<char>>(e@);
                    assert forall|x: int| first_bad_binding(v, x) implies x == i by {
                        if x < i {
                            assert(normalizes(v, x));
                        } else if x > i {
                            assert(normalizes(v, i));
                        }
                    }
                }
                return Err(e);
            },
        };
        let ghost n = s@;
        assert(!exists|i: int| first_bad_binding(v, i));
        match s.find_conflict() {
            Some((i, j)) => {
                proof {
                    lemma_action_at(i as int);
                    lemma_action_at(j as int);
                    assert forall|x: int, y: int| first_conflict(n, x, y) implies x == i && y == j by {
                        assert(y <= j && j <= y);
                        if x < i {
                            assert(conflict(n, x, i as int));
                        } else if x > i {
                            assert(conflict(n, i as int, x));
                        }
                    }
                }
                let actions = ShortcutAction::all();
                let ai = actions[i];
                let aj = actions[j];
                let display = match s.binding(aj).display_name() {
                    Some(d) => d,
                    None => owned("unbound"),
                };
                let mut m = owned("快捷键冲突: ");
                push_str(&mut m, ai.id());
                push_str(&mut m, " 与 ");
                push_str(&mut m, aj.id());
                push_str(&mut m, " 都绑定到 ");
                push_str(&mut m, display.as_str());
                Err(m)
            },
            None => {
                assert(!exists|x: int, y: int| first_conflict(n, x, y));
                Ok(s)
            },
        }
    }
}

/// A binding in canonical form stays as it is when normalized again.
proof fn lemma_normalize_view_idempotent(b: BindingView)
    requires
        normalize_view(b) is Ok,
    ensures
        normalize_view(normalize_view(b)->Ok_0) == normalize_view(b),
{
    match b.key {
        None => {},
        Some(k) => {
            crate::text::lemma_trimmed_idempotent(k);
        },
    }
}

/// A shortcut table that passed validation passes it again unchanged: what
/// the settings file stores after a validation is read back as it was.
pub proof fn lemma_shortcut_validation_idempotent(v: Seq<BindingView>)
    requires
        v.len() == SHORTCUT_ACTION_COUNT,
        shortcut_validation(v) is Ok,
    ensures
        shortcut_validation(shortcut_validation(v)->Ok_0) == shortcut_validation(v),
{
    let n = normalized_bindings(v);
    assert(!exists|i: int| first_bad_binding(v, i));
    assert forall|i: int| 0 <= i < SHORTCUT_ACTION_COUNT implies normalizes(v, i) by {
        if !normalizes(v, i) {
            let j = choose|j: int| 0 <= j <= i && !normalizes(v, j) && forall|k: int| 0 <= k < j ==> normalizes(v, k);
            assert(first_bad_binding(v, j));
        }
    }
    assert(shortcut_validation(v) == Ok::<Seq<BindingView>, Seq<char>>(n));
    assert forall|i: int| 0 <= i < SHORTCUT_ACTION_COUNT implies #[trigger] normalize_view(n[i]) == Ok::<BindingView, Seq<char>>(n[i]) by {
        assert(normalizes(v, i));
        lemma_normalize_view_idempotent(v[i]);
    }
    assert(!exists|i: int| first_bad_binding(n, i));
    assert(normalized_bindings(n) =~= n);
}

} // verus!
