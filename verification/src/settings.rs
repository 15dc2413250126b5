//! Player settings: display, language, audio device, gameplay, shortcuts and
//! the AI services, with the checks that a stored settings file must pass.

use vstd::prelude::*;
use crate::shortcuts::{ShortcutSettings, settings_result_view, shortcut_validation};
use crate::text::{lemma_trimmed_idempotent, owned, push_char, push_str, trim, trimmed, u64_to_string, dec};

verus! {

/// The languages of the interface.
#[derive(Clone, Copy, Debug, PartialEq, Eq, Structural)]
pub enum UiLanguage {
    English,
    SimplifiedChinese,
}

impl Default for UiLanguage {
    fn default() -> (l: Self)
        ensures
            l == UiLanguage::SimplifiedChinese,
    {
        UiLanguage::SimplifiedChinese
    }
}

impl UiLanguage {
    /// The languages offered, Simplified Chinese first.
    pub fn available() -> (v: Vec<UiLanguage>)
        ensures
            v@ == seq![UiLanguage::SimplifiedChinese, UiLanguage::English],
    {
        let v = vec![UiLanguage::SimplifiedChinese, UiLanguage::English];
        assert(v@ =~= seq![UiLanguage::SimplifiedChinese, UiLanguage::English]);
        v
    }

    /// The language's own name for itself.
    pub fn label(self) -> (s: &'static str)
        ensures
            s@ == match self {
                UiLanguage::English => "English"@,
                UiLanguage::SimplifiedChinese => "简体中文"@,
            },
    {
        match self {
            UiLanguage::English => "English",
            UiLanguage::SimplifiedChinese => "简体中文",
        }
    }

    /// The language tag of the language.
    pub fn language_tag(self) -> (s: &'static str)
        ensures
            s@ == match self {
                UiLanguage::English => "en-US"@,
                UiLanguage::SimplifiedChinese => "zh-CN"@,
            },
    {
        match self {
            UiLanguage::English => "en-US",
            UiLanguage::SimplifiedChinese => "zh-CN",
        }
    }
}

/// Message arguments, by name, in the order given.
pub fn args<const N: usize>(pairs: [(&'static str, String); N]) -> (r: [(&'static str, String); N])
    ensures
        r == pairs,
{
    pairs
}

/// The start-up message: the settings message and the history message, each
/// when it is present and non-empty, one per line.
pub open spec fn menu_message(settings: Option<Seq<char>>, history: Option<Seq<char>>) -> Seq<char> {
    let s = match settings {
        Some(m) => if m.len() > 0 { Some(m) } else { None },
        None => None,
    };
    let h = match history {
        Some(m) => if m.len() > 0 { Some(m) } else { None },
        None => None,
    };
    match (s, h) {
        (Some(a), Some(b)) => a + seq!['\n'] + b,
        (Some(a), None) => a,
        (None, Some(b)) => b,
        (None, None) => Seq::empty(),
    }
}

/// The view of an optional string slice.
pub open spec fn opt_str_view(o: Option<&str>) -> Option<Seq<char>> {
    match o {
        Some(s) => Some(s@),
        None => None,
    }
}

/// Joins the settings and history messages of the main menu.
pub fn combined_menu_message(settings_message: Option<&str>, history_message: Option<&str>) -> (m: String)
    ensures
        m@ == menu_message(opt_str_view(settings_message), opt_str_view(history_message)),
{
    let s = match settings_message {
        Some(m) => if m.unicode_len() > 0 { Some(m) } else { None },
        None => None,
    };
    let h = match history_message {
        Some(m) => if m.unicode_len() > 0 { Some(m) } else { None },
        None => None,
    };
    match (s, h) {
        (Some(a), Some(b)) => {
            let mut out = owned(a);
            push_char(&mut out, '\n');
            push_str(&mut out, b);
            out
        },
        (Some(a), None) => owned(a),
        (None, Some(b)) => owned(b),
        (None, None) => String::new(),
    }
}

/// A window size in pixels.
#[derive(Clone, Copy, Debug, PartialEq, Eq, Structural)]
pub struct DisplayResolution {
    pub width: u32,
    pub height: u32,
}

/// The window sizes offered, smallest first.
pub open spec fn resolution_presets() -> Seq<DisplayResolution> {
    seq![
        DisplayResolution { width: 1024, height: 768 },
        DisplayResolution { width: 1280, height: 720 },
        DisplayResolution { width: 1280, height: 820 },
        DisplayResolution { width: 1366, height: 768 },
        DisplayResolution { width: 1600, height: 900 },
        DisplayResolution { width: 1920, height: 1080 },
        DisplayResolution { width: 2560, height: 1440 },
    ]
}

/// How a resolution is written: width, `x`, height.
pub open spec fn resolution_text(r: DisplayResolution) -> Seq<char> {
    dec(r.width as nat) + seq!['x'] + dec(r.height as nat)
}

impl DisplayResolution {
    /// The resolution `width` by `height`.
    pub fn new(width: u32, height: u32) -> (r: Self)
        ensures
            r == (DisplayResolution { width, height }),
    {
        DisplayResolution { width, height }
    }

    /// The window sizes offered.
    pub fn presets() -> (v: Vec<DisplayResolution>)
        ensures
            v@ == resolution_presets(),
    {
        let v = vec![
            DisplayResolution::new(1024, 768),
            DisplayResolution::new(1280, 720),
            DisplayResolution::new(1280, 820),
            DisplayResolution::new(1366, 768),
            DisplayResolution::new(1600, 900),
            DisplayResolution::new(1920, 1080),
            DisplayResolution::new(2560, 1440),
        ];
        assert(v@ =~= resolution_presets());
        v
    }

    /// Whether the resolution is one of those offered.
    pub fn is_preset(self) -> (b: bool)
        ensures
            b == resolution_presets().contains(self),
    {
        let presets = Self::presets();
        let mut i: usize = 0;
        while i < presets.len()
            invariant
                presets@ == resolution_presets(),
                i <= presets.len(),
                forall|k: int| 0 <= k < i ==> presets@[k] != self,
            decreases presets.len() - i,
        {
            if presets[i].width == self.width && presets[i].height == self.height {
                assert(presets@[i as int] == self);
                return true;
            }
            i = i + 1;
        }
        false
    }

    /// The resolution written as width `x` height.
    pub fn to_text(self) -> (s: String)
        ensures
            s@ == resolution_text(self),
    {
        let mut s = u64_to_string(self.width as u64);
        push_char(&mut s, 'x');
        let h = u64_to_string(self.height as u64);
        push_str(&mut s, h.as_str());
        s
    }
}

impl Default for DisplayResolution {
    fn default() -> (r: Self)
        ensures
            r == (DisplayResolution { width: 1280, height: 820 }),
    {
        DisplayResolution::new(1280, 820)
    }
}

/// How the game window is shown.
#[derive(Clone, Copy, Debug, PartialEq, Eq, Structural)]
pub enum DisplayMode {
    Windowed,
    BorderlessFullscreen,
    ExclusiveFullscreen,
}

impl Default for DisplayMode {
    fn default() -> (m: Self)
        ensures
            m == DisplayMode::Windowed,
    {
        DisplayMode::Windowed
    }
}

impl DisplayMode {
    /// The display modes offered.
    pub fn variants() -> (v: Vec<DisplayMode>)
        ensures
            v@ == seq![DisplayMode::Windowed, DisplayMode::BorderlessFullscreen, DisplayMode::ExclusiveFullscreen],
    {
        let v = vec![DisplayMode::Windowed, DisplayMode::BorderlessFullscreen, DisplayMode::ExclusiveFullscreen];
        assert(v@ =~= seq![DisplayMode::Windowed, DisplayMode::BorderlessFullscreen, DisplayMode::ExclusiveFullscreen]);
        v
    }
}

/// The window mode the engine is asked for.
#[derive(Clone, Copy, Debug, PartialEq, Eq, Structural)]
pub enum WindowModeChoice {
    Windowed,
    BorderlessFullscreenOnPrimary,
    FullscreenOnPrimaryAtCurrentVideoMode,
}

/// The presentation mode the engine is asked for.
#[derive(Clone, Copy, Debug, PartialEq, Eq, Structural)]
pub enum PresentModeChoice {
    AutoVsync,
    AutoNoVsync,
}

/// Window size, display mode and vertical sync.
#[derive(Clone, Copy, Debug, PartialEq, Eq, Structural)]
pub struct DisplaySettings {
    pub resolution: DisplayResolution,
    pub display_mode: DisplayMode,
    pub vsync: bool,
}

impl Default for DisplaySettings {
    fn default() -> (s: Self)
        ensures
            s == (DisplaySettings {
                resolution: DisplayResolution { width: 1280, height: 820 },
                display_mode: DisplayMode::Windowed,
                vsync: true,
            }),
    {
        DisplaySettings { resolution: DisplayResolution::new(1280, 820), display_mode: DisplayMode::Windowed, vsync: true }
    }
}

/// The message for a resolution that is not offered.
pub open spec fn unsupported_resolution_message(r: DisplayResolution) -> Seq<char> {
    "不支持的分辨率 "@ + resolution_text(r)
}

impl DisplaySettings {
    /// The window mode that the display mode asks for, on the primary monitor.
    pub fn window_mode(self) -> (m: WindowModeChoice)
        ensures
            m == match self.display_mode {
                DisplayMode::Windowed => WindowModeChoice::Windowed,
                DisplayMode::BorderlessFullscreen => WindowModeChoice::BorderlessFullscreenOnPrimary,
                DisplayMode::ExclusiveFullscreen => WindowModeChoice::FullscreenOnPrimaryAtCurrentVideoMode,
            },
    {
        match self.display_mode {
            DisplayMode::Windowed => WindowModeChoice::Windowed,
            DisplayMode::BorderlessFullscreen => WindowModeChoice::BorderlessFullscreenOnPrimary,
            DisplayMode::ExclusiveFullscreen => WindowModeChoice::FullscreenOnPrimaryAtCurrentVideoMode,
        }
    }

    /// Vertical sync on or off.
    pub fn present_mode(self) -> (m: PresentModeChoice)
        ensures
            m == if self.vsync { PresentModeChoice::AutoVsync } else { PresentModeChoice::AutoNoVsync },
    {
        if self.vsync {
            PresentModeChoice::AutoVsync
        } else {
            PresentModeChoice::AutoNoVsync
        }
    }

    /// The settings unchanged when the resolution is one offered, else the
    /// message that names the resolution.
    pub fn validate(self) -> (r: Result<Self, String>)
        ensures
            match r {
                Ok(s) => s == self && resolution_presets().contains(self.resolution),
                Err(e) => !resolution_presets().contains(self.resolution) && e@
                    == unsupported_resolution_message(self.resolution),
            },
    {
        if !self.resolution.is_preset() {
            let mut e = owned("不支持的分辨率 ");
            let t = self.resolution.to_text();
            push_str(&mut e, t.as_str());
            return Err(e);
        }
        Ok(self)
    }
}

/// A device name as stored: trimmed, and absent when blank.
pub open spec fn normalized_device_name(name: Option<Seq<char>>) -> Option<Seq<char>> {
    match name {
        Some(n) => if trimmed(n).len() > 0 { Some(trimmed(n)) } else { None },
        None => None,
    }
}

/// The view of an optional string.
pub open spec fn opt_string_view(o: Option<String>) -> Option<Seq<char>> {
    match o {
        Some(s) => Some(s@),
        None => None,
    }
}

/// The output device name trimmed, or `None` when it is blank or absent.
pub fn normalize_output_device_name(device_name: Option<String>) -> (r: Option<String>)
    ensures
        opt_string_view(r) == normalized_device_name(opt_string_view(device_name)),
{
    match device_name {
        Some(name) => {
            let t = trim(name.as_str());
            if t.as_str().unicode_len() > 0 {
                Some(t)
            } else {
                None
            }
        },
        None => None,
    }
}

/// The audio output device; `None` is the system default.
#[derive(Clone, Debug)]
pub struct AudioDeviceSettings {
    pub output_device_name: Option<String>,
}

impl AudioDeviceSettings {
    /// The settings with the device name normalized.
    pub fn normalized(self) -> (s: Self)
        ensures
            opt_string_view(s.output_device_name) == normalized_device_name(opt_string_view(self.output_device_name)),
    {
        AudioDeviceSettings { output_device_name: normalize_output_device_name(self.output_device_name) }
    }
}

/// Interface settings.
#[derive(Clone, Copy, Debug, PartialEq, Eq, Structural)]
pub struct GeneralSettings {
    pub ui_language: UiLanguage,
}

/// Gameplay settings; autosave is off by default.
#[derive(Clone, Copy, Debug, PartialEq, Eq, Structural)]
pub struct GameplaySettings {
    pub autosave_enabled: bool,
}

/// The kinds of OpenAI-style endpoints.
#[derive(Clone, Copy, Debug, PartialEq, Eq, Structural)]
pub enum OpenAiApiType {
    Responses,
    ChatCompletions,
}

/// The default reasoning endpoint.
pub const OPENAI_DEFAULT_API_URL: &'static str = "https://api.openai.com/v1/responses";

/// The default image model of the multimodal service.
pub const BAILIAN_DEFAULT_IMAGE_MODEL: &'static str = "wan2.7-image-pro";

/// The reasoning (text) AI service.
#[derive(Clone, Debug)]
pub struct ReasoningAiSettings {
    pub api_type: OpenAiApiType,
    pub api_url: String,
    pub token: String,
    pub model_name: String,
}

/// The multimodal (image) AI service.
#[derive(Clone, Debug)]
pub struct MultimodalAiSettings {
    pub api_key: String,
    pub model_name: String,
}

/// Both AI services.
#[derive(Clone, Debug)]
pub struct AiSettings {
    pub reasoning: ReasoningAiSettings,
    pub multimodal: MultimodalAiSettings,
}

/// The scheme of `input` read as an absolute URL, or `None` when it is not
/// one (what `url::Url::parse` and `Url::scheme` give).
pub uninterp spec fn parsed_url_scheme(input: Seq<char>) -> Option<Seq<char>>;

/// Parses `input` as an absolute URL with `reqwest::Url::parse` (the `url`
/// crate) and hands back its scheme, or `None` where parsing fails. The
/// contract claims only that the result is what those two calls give for
/// `input`, named `parsed_url_scheme`.
#[verifier::external_body]
fn url_scheme(input: &str) -> (r: Option<String>)
    ensures
        opt_string_view(r) == parsed_url_scheme(input@),
{
    match reqwest::Url::parse(input) {
        Ok(url) => Some(url.scheme().to_string()),
        Err(_) => None,
    }
}

/// The message for an endpoint that is not an absolute URL.
pub open spec fn url_not_absolute_message() -> Seq<char> {
    "OpenAI API URL 必须是完整 URL"@
}

/// The message for an endpoint that is neither `http` nor `https`.
pub open spec fn url_scheme_message() -> Seq<char> {
    "OpenAI API URL 必须使用 http 或 https"@
}

/// Whether an endpoint can be used: blank, or an `http`/`https` URL.
pub open spec fn endpoint_error(url: Seq<char>) -> Option<Seq<char>> {
    if url.len() == 0 {
        None
    } else {
        match parsed_url_scheme(url) {
            None => Some(url_not_absolute_message()),
            Some(s) => if s == "http"@ || s == "https"@ {
                None
            } else {
                Some(url_scheme_message())
            },
        }
    }
}

impl ReasoningAiSettings {
    /// The settings with every text field trimmed, refused when the endpoint
    /// is neither blank nor an `http`/`https` URL.
    pub fn normalized(self) -> (r: Result<Self, String>)
        ensures
            match r {
                Ok(s) => endpoint_error(trimmed(self.api_url@)) is None && s.api_type == self.api_type
                    && s.api_url@ == trimmed(self.api_url@) && s.token@ == trimmed(self.token@)
                    && s.model_name@ == trimmed(self.model_name@),
                Err(e) => endpoint_error(trimmed(self.api_url@)) == Some(e@),
            },
    {
        let api_url = trim(self.api_url.as_str());
        let token = trim(self.token.as_str());
        let model_name = trim(self.model_name.as_str());
        if api_url.as_str().unicode_len() > 0 {
            match url_scheme(api_url.as_str()) {
                None => return Err(owned("OpenAI API URL 必须是完整 URL")),
                Some(scheme) => {
                    let s = scheme.as_str();
                    proof {
                        reveal_strlit("http");
                        reveal_strlit("https");
                    }
                    if !(crate::text::str_eq(s, "http") || crate::text::str_eq(s, "https")) {
                        return Err(owned("OpenAI API URL 必须使用 http 或 https"));
                    }
                },
            }
        }
        Ok(ReasoningAiSettings { api_type: self.api_type, api_url, token, model_name })
    }
}

impl Default for ReasoningAiSettings {
    fn default() -> (s: Self)
        ensures
            s.api_type == OpenAiApiType::Responses,
            s.api_url@ == OPENAI_DEFAULT_API_URL@,
            s.token@.len() == 0,
            s.model_name@.len() == 0,
    {
        ReasoningAiSettings {
            api_type: OpenAiApiType::Responses,
            api_url: owned(OPENAI_DEFAULT_API_URL),
            token: String::new(),
            model_name: String::new(),
        }
    }
}

impl MultimodalAiSettings {
    /// The settings with the key and model name trimmed.
    pub fn normalized(self) -> (s: Self)
        ensures
            s.api_key@ == trimmed(self.api_key@),
            s.model_name@ == trimmed(self.model_name@),
    {
        MultimodalAiSettings { api_key: trim(self.api_key.as_str()), model_name: trim(self.model_name.as_str()) }
    }
}

impl Default for MultimodalAiSettings {
    fn default() -> (s: Self)
        ensures
            s.api_key@.len() == 0,
            s.model_name@ == BAILIAN_DEFAULT_IMAGE_MODEL@,
    {
        MultimodalAiSettings { api_key: String::new(), model_name: owned(BAILIAN_DEFAULT_IMAGE_MODEL) }
    }
}

impl AiSettings {
    /// Both services normalized; refused when the reasoning endpoint is.
    pub fn normalized(self) -> (r: Result<Self, String>)
        ensures
            match r {
                Ok(s) => endpoint_error(trimmed(self.reasoning.api_url@)) is None
                    && s.reasoning.api_type == self.reasoning.api_type
                    && s.reasoning.api_url@ == trimmed(self.reasoning.api_url@)
                    && s.reasoning.token@ == trimmed(self.reasoning.token@)
                    && s.reasoning.model_name@ == trimmed(self.reasoning.model_name@)
                    && s.multimodal.api_key@ == trimmed(self.multimodal.api_key@)
                    && s.multimodal.model_name@ == trimmed(self.multimodal.model_name@),
                Err(e) => endpoint_error(trimmed(self.reasoning.api_url@)) == Some(e@),
            },
    {
        let reasoning = match self.reasoning.normalized() {
            Ok(r) => r,
            Err(e) => return Err(e),
        };
        Ok(AiSettings { reasoning, multimodal: self.multimodal.normalized() })
    }
}

impl Default for AiSettings {
    fn default() -> (s: Self)
        ensures
            s.reasoning.api_type == OpenAiApiType::Responses,
            s.reasoning.api_url@ == OPENAI_DEFAULT_API_URL@,
            s.reasoning.token@.len() == 0,
            s.reasoning.model_name@.len() == 0,
            s.multimodal.api_key@.len() == 0,
            s.multimodal.model_name@ == BAILIAN_DEFAULT_IMAGE_MODEL@,
    {
        AiSettings { reasoning: ReasoningAiSettings::default(), multimodal: MultimodalAiSettings::default() }
    }
}

/// Every setting but the master volume, which the application keeps beside
/// these.
#[derive(Clone, Debug)]
pub struct GameSettings {
    pub general: GeneralSettings,
    pub display: DisplaySettings,
    pub audio: AudioDeviceSettings,
    pub gameplay: GameplaySettings,
    pub shortcuts: ShortcutSettings,
    pub ai: AiSettings,
}

/// The first reason to refuse settings `s`: an unsupported resolution, then
/// a bad shortcut table, then a bad reasoning endpoint.
pub open spec fn settings_error(s: GameSettings) -> Option<Seq<char>> {
    if !resolution_presets().contains(s.display.resolution) {
        Some(unsupported_resolution_message(s.display.resolution))
    } else if shortcut_validation(s.shortcuts@) is Err {
        Some(shortcut_validation(s.shortcuts@)->Err_0)
    } else {
        endpoint_error(trimmed(s.ai.reasoning.api_url@))
    }
}

/// `t` is `s` in stored form: device name, shortcuts and AI values
/// normalized, everything else as it was.
pub open spec fn stored_form(s: GameSettings, t: GameSettings) -> bool {
    &&& t.general == s.general
    &&& t.display == s.display
    &&& opt_string_view(t.audio.output_device_name) == normalized_device_name(opt_string_view(s.audio.output_device_name))
    &&& t.gameplay == s.gameplay
    &&& shortcut_validation(s.shortcuts@) == Ok::<Seq<crate::shortcuts::BindingView>, Seq<char>>(t.shortcuts@)
    &&& t.ai.reasoning.api_type == s.ai.reasoning.api_type
    &&& t.ai.reasoning.api_url@ == trimmed(s.ai.reasoning.api_url@)
    &&& t.ai.reasoning.token@ == trimmed(s.ai.reasoning.token@)
    &&& t.ai.reasoning.model_name@ == trimmed(s.ai.reasoning.model_name@)
    &&& t.ai.multimodal.api_key@ == trimmed(s.ai.multimodal.api_key@)
    &&& t.ai.multimodal.model_name@ == trimmed(s.ai.multimodal.model_name@)
}

/// Settings that passed validation pass it again, and their stored form is
/// themselves: saving validated settings and loading them back changes
/// nothing.
pub proof fn lemma_validated_settings_are_stable(s: GameSettings, t: GameSettings)
    requires
        settings_error(s) is None,
        stored_form(s, t),
    ensures
        settings_error(t) is None,
        stored_form(t, t),
{
    assert(s.shortcuts@.len() == crate::shortcuts::SHORTCUT_ACTION_COUNT);
    crate::shortcuts::lemma_shortcut_validation_idempotent(s.shortcuts@);
    lemma_trimmed_idempotent(s.ai.reasoning.api_url@);
    lemma_trimmed_idempotent(s.ai.reasoning.token@);
    lemma_trimmed_idempotent(s.ai.reasoning.model_name@);
    lemma_trimmed_idempotent(s.ai.multimodal.api_key@);
    lemma_trimmed_idempotent(s.ai.multimodal.model_name@);
    match s.audio.output_device_name {
        Some(n) => lemma_trimmed_idempotent(n@),
        None => {},
    }
}

impl GameSettings {
    /// The settings in stored form, or the first reason to refuse them.
    pub fn validated(self) -> (r: Result<Self, String>)
        ensures
            match r {
                Ok(s) => settings_error(self) is None && stored_form(self, s),
                Err(e) => settings_error(self) == Some(e@),
            },
    {
        let display = match self.display.validate() {
            Ok(d) => d,
            Err(e) => return Err(e),
        };
        let audio = self.audio.normalized();
        let ghost shortcut_view = self.shortcuts@;
        let shortcuts = match self.shortcuts.validated() {
            Ok(s) => s,
            Err(e) => {
                assert(settings_result_view(Err::<ShortcutSettings, String>(e)) == shortcut_validation(shortcut_view));
                return Err(e);
            },
        };
        let ai = match self.ai.normalized() {
            Ok(a) => a,
            Err(e) => return Err(e),
        };
        Ok(GameSettings { general: self.general, display, audio, gameplay: self.gameplay, shortcuts, ai })
    }
}

/// `s` holds the default settings.
pub open spec fn default_settings(s: GameSettings) -> bool {
    &&& s.general.ui_language == UiLanguage::SimplifiedChinese
    &&& s.display == (DisplaySettings {
        resolution: DisplayResolution { width: 1280, height: 820 },
        display_mode: DisplayMode::Windowed,
        vsync: true,
    })
    &&& s.audio.output_device_name is None
    &&& !s.gameplay.autosave_enabled
    &&& s.shortcuts@.len() == crate::shortcuts::SHORTCUT_ACTION_COUNT
    &&& forall|i: int| 0 <= i < crate::shortcuts::SHORTCUT_ACTION_COUNT ==> s.shortcuts@[i]
        == crate::shortcuts::default_binding_view(crate::shortcuts::action_at(i))
    &&& s.ai.reasoning.api_type == OpenAiApiType::Responses
    &&& s.ai.reasoning.api_url@ == OPENAI_DEFAULT_API_URL@
    &&& s.ai.reasoning.token@.len() == 0
    &&& s.ai.reasoning.model_name@.len() == 0
    &&& s.ai.multimodal.api_key@.len() == 0
    &&& s.ai.multimodal.model_name@ == BAILIAN_DEFAULT_IMAGE_MODEL@
}

impl Default for GameSettings {
    fn default() -> (s: Self)
        ensures
            default_settings(s),
    {
        GameSettings {
            general: GeneralSettings { ui_language: UiLanguage::default() },
            display: DisplaySettings::default(),
            audio: AudioDeviceSettings { output_device_name: None },
            gameplay: GameplaySettings { autosave_enabled: false },
            shortcuts: ShortcutSettings::default(),
            ai: AiSettings::default(),
        }
    }
}

/// Where the settings file lives.
#[derive(Clone, Debug)]
pub struct GameSettingsStore {
    path: String,
}

impl GameSettingsStore {
    /// A store for the settings file at `path`.
    pub fn new(path: String) -> (s: Self)
        ensures
            s.path_view() == path@,
    {
        GameSettingsStore { path }
    }

    /// The path of the settings file.
    pub closed spec fn path_view(&self) -> Seq<char> {
        self.path@
    }

    /// The path of the settings file.
    pub fn path(&self) -> (p: &str)
        ensures
            p@ == self.path_view(),
    {
        self.path.as_str()
    }
}

/// Whether `k` names a section of the settings file.
pub open spec fn is_settings_section(k: Seq<char>) -> bool {
    ||| k == "general"@
    ||| k == "display"@
    ||| k == "audio"@
    ||| k == "gameplay"@
    ||| k == "shortcuts"@
    ||| k == "ai"@
}

/// Whether a settings file with top-level keys `keys` is split into
/// sections; a file without any section holds display settings alone, as
/// older versions wrote it.
pub fn has_settings_section(keys: &Vec<String>) -> (b: bool)
    ensures
        b == exists|i: int| 0 <= i < keys@.len() && is_settings_section((#[trigger] keys@[i])@),
{
    let mut i: usize = 0;
    while i < keys.len()
        invariant
            i <= keys@.len(),
            forall|k: int| 0 <= k < i ==> !is_settings_section((#[trigger] keys@[k])@),
        decreases keys@.len() - i,
    {
        let k = keys[i].as_str();
        if crate::text::str_eq(k, "general") || crate::text::str_eq(k, "display") || crate::text::str_eq(k, "audio")
            || crate::text::str_eq(k, "gameplay") || crate::text::str_eq(k, "shortcuts") || crate::text::str_eq(k, "ai") {
            return true;
        }
        i = i + 1;
    }
    false
}

/// Why the default settings were used instead of the file.
#[derive(Clone, Debug, PartialEq, Eq)]
pub enum GameSettingsLoadMessage {
    /// The file could not be read as settings, or they were refused.
    Invalid { error: String },
    /// There is no settings file.
    Missing,
    /// The file could not be read.
    ReadFailed { error: String },
}

/// The settings in use after a load, with the reason when they are the
/// defaults instead of the file's.
#[derive(Clone, Debug)]
pub struct LoadedGameSettings {
    pub settings: GameSettings,
    pub message: Option<GameSettingsLoadMessage>,
}

impl LoadedGameSettings {
    /// The outcome of reading a settings file that was parsed into `parsed`,
    /// or failed to parse with the given error: the validated settings, or
    /// the defaults with the reason they were refused.
    pub fn from_parsed(parsed: Result<GameSettings, String>) -> (r: Self)
        ensures
            match parsed {
                Ok(s) => match settings_error(s) {
                    None => r.message is None && stored_form(s, r.settings),
                    Some(e) => default_settings(r.settings) && (r.message matches Some(GameSettingsLoadMessage::Invalid { error }) && error@ == e),
                },
                Err(e) => default_settings(r.settings) && (r.message matches Some(GameSettingsLoadMessage::Invalid { error }) && error@ == e@),
            },
    {
        match parsed {
            Ok(s) => match s.validated() {
                Ok(v) => LoadedGameSettings { settings: v, message: None },
                Err(e) => LoadedGameSettings {
                    settings: GameSettings::default(),
                    message: Some(GameSettingsLoadMessage::Invalid { error: e }),
                },
            },
            Err(e) => LoadedGameSettings {
                settings: GameSettings::default(),
                message: Some(GameSettingsLoadMessage::Invalid { error: e }),
            },
        }
    }

    /// The defaults, for a settings file that does not exist.
    pub fn missing() -> (r: Self)
        ensures
            default_settings(r.settings),
            r.message == Some(GameSettingsLoadMessage::Missing),
    {
        LoadedGameSettings { settings: GameSettings::default(), message: Some(GameSettingsLoadMessage::Missing) }
    }

    /// The defaults, for a settings file that could not be read.
    pub fn read_failed(error: String) -> (r: Self)
        ensures
            default_settings(r.settings),
            r.message matches Some(GameSettingsLoadMessage::ReadFailed { error: e }) && e@ == error@,
    {
        LoadedGameSettings {
            settings: GameSettings::default(),
            message: Some(GameSettingsLoadMessage::ReadFailed { error }),
        }
    }
}

} // verus!
