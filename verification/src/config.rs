//! User configuration and its defaults.
//!
//! Reading `config.toml` is the application's job; the library holds the
//! values and says what they are when the file leaves a setting out.

use vstd::prelude::*;

verus! {

/// The `config.toml` that `ghost-complete install` writes when none exists:
/// every field at its default, each explained in a comment.
pub const DEFAULT_CONFIG_TOML: &'static str = "# ghost-complete configuration. Every field is optional; a field left out\n# takes the default shown here.\n\n[trigger]\n# Characters that open the popup right after they are typed.\nauto_chars = [' ', '/', '-', '.']\n# Milliseconds to wait after typing pauses before suggesting (0: at once).\ndelay_ms = 150\n\n[popup]\n# Most suggestions shown at once.\nmax_visible = 10\n# Popup width limits, in columns.\nmin_width = 20\nmax_width = 60\n\n[suggest]\n# Most candidates kept after ranking.\nmax_results = 50\n# Most shell history entries loaded.\nmax_history_entries = 10000\n\n[suggest.providers]\n# $PATH commands, shell history, files and directories, completion specs,\n# git branches, tags and remotes.\ncommands = true\nhistory = true\nfilesystem = true\nspecs = true\ngit = true\n\n[paths]\n# Directories to load completion specs from, in place of the default\n# specs directory under the configuration directory. `~` is expanded.\nspec_dirs = []\n\n[keybindings]\n# Key names: a to z, tab, enter, escape, backspace, space, arrow_up,\n# arrow_down, arrow_left, arrow_right, ctrl+space, ctrl+/.\naccept = \"tab\"\naccept_and_enter = \"enter\"\ndismiss = \"escape\"\nnavigate_up = \"arrow_up\"\nnavigate_down = \"arrow_down\"\ntrigger = \"ctrl+/\"\n\n[theme]\n# Space-separated tokens: bold, dim, underline, reverse, fg:N, bg:N (N: 0-255).\nselected = \"reverse\"\ndescription = \"dim\"\n";

/// The whole configuration.
#[derive(Debug, Clone)]
pub struct GhostConfig {
    pub trigger: TriggerConfig,
    pub popup: PopupConfig,
    pub suggest: SuggestConfig,
    pub paths: PathsConfig,
    pub keybindings: KeybindingsConfig,
    pub theme: ThemeConfig,
}

/// Key names for the popup actions (see `parse_key_name`).
#[derive(Debug, Clone)]
pub struct KeybindingsConfig {
    pub accept: String,
    pub accept_and_enter: String,
    pub dismiss: String,
    pub navigate_up: String,
    pub navigate_down: String,
    pub trigger: String,
}

/// Characters that open the popup after they are typed, and the delay before
/// it opens.
#[derive(Debug, Clone)]
pub struct TriggerConfig {
    pub auto_chars: Vec<char>,
    pub delay_ms: u64,
}

/// Popup size limits.
#[derive(Debug, Clone)]
pub struct PopupConfig {
    pub max_visible: usize,
    pub min_width: u16,
    pub max_width: u16,
}

/// Ranking limits and the enabled sources.
#[derive(Debug, Clone)]
pub struct SuggestConfig {
    pub max_results: usize,
    pub max_history_entries: usize,
    pub providers: ProvidersConfig,
}

/// Which suggestion sources are enabled.
#[derive(Debug, Clone)]
pub struct ProvidersConfig {
    pub commands: bool,
    pub history: bool,
    pub filesystem: bool,
    pub specs: bool,
    pub git: bool,
}

/// Styles of the selected item and of descriptions.
#[derive(Debug, Clone)]
pub struct ThemeConfig {
    pub selected: String,
    pub description: String,
}

/// Extra directories to load completion specs from.
#[derive(Debug, Clone)]
pub struct PathsConfig {
    pub spec_dirs: Vec<String>,
}

/// The default key names: Tab accepts, Enter accepts and runs, Escape
/// dismisses, the arrows navigate, Ctrl+/ triggers.
pub open spec fn default_keybindings_config(k: KeybindingsConfig) -> bool {
    &&& k.accept@ == "tab"@
    &&& k.accept_and_enter@ == "enter"@
    &&& k.dismiss@ == "escape"@
    &&& k.navigate_up@ == "arrow_up"@
    &&& k.navigate_down@ == "arrow_down"@
    &&& k.trigger@ == "ctrl+/"@
}

/// The default trigger: space, slash, dash and dot, after 150 ms.
pub open spec fn default_trigger_config(t: TriggerConfig) -> bool {
    t.auto_chars@ == seq![' ', '/', '-', '.'] && t.delay_ms == 150
}

/// The default popup: 10 items, 20 to 60 columns.
pub open spec fn default_popup_config(p: PopupConfig) -> bool {
    p.max_visible == 10 && p.min_width == 20 && p.max_width == 60
}

/// Every source enabled.
pub open spec fn default_providers_config(p: ProvidersConfig) -> bool {
    p.commands && p.history && p.filesystem && p.specs && p.git
}

/// 50 results, 10 000 history entries, every source enabled.
pub open spec fn default_suggest_config(s: SuggestConfig) -> bool {
    s.max_results == 50 && s.max_history_entries == 10_000 && default_providers_config(s.providers)
}

/// Selected item in reverse video, descriptions dim.
pub open spec fn default_theme_config(t: ThemeConfig) -> bool {
    t.selected@ == "reverse"@ && t.description@ == "dim"@
}

/// No extra spec directories.
pub open spec fn default_paths_config(p: PathsConfig) -> bool {
    p.spec_dirs@.len() == 0
}

/// Every section at its default.
pub open spec fn default_ghost_config(c: GhostConfig) -> bool {
    &&& default_trigger_config(c.trigger)
    &&& default_popup_config(c.popup)
    &&& default_suggest_config(c.suggest)
    &&& default_paths_config(c.paths)
    &&& default_keybindings_config(c.keybindings)
    &&& default_theme_config(c.theme)
}

impl Default for KeybindingsConfig {
    fn default() -> (k: Self)
        ensures
            default_keybindings_config(k),
    {
        KeybindingsConfig {
            accept: "tab".to_string(),
            accept_and_enter: "enter".to_string(),
            dismiss: "escape".to_string(),
            navigate_up: "arrow_up".to_string(),
            navigate_down: "arrow_down".to_string(),
            trigger: "ctrl+/".to_string(),
        }
    }
}

impl Default for TriggerConfig {
    fn default() -> (t: Self)
        ensures
            default_trigger_config(t),
    {
        let mut auto_chars: Vec<char> = Vec::new();
        auto_chars.push(' ');
        auto_chars.push('/');
        auto_chars.push('-');
        auto_chars.push('.');
        assert(auto_chars@ =~= seq![' ', '/', '-', '.']);
        TriggerConfig { auto_chars, delay_ms: 150 }
    }
}

impl Default for PopupConfig {
    fn default() -> (p: Self)
        ensures
            default_popup_config(p),
    {
        PopupConfig { max_visible: 10, min_width: 20, max_width: 60 }
    }
}

impl Default for ProvidersConfig {
    fn default() -> (p: Self)
        ensures
            default_providers_config(p),
    {
        ProvidersConfig { commands: true, history: true, filesystem: true, specs: true, git: true }
    }
}

impl Default for SuggestConfig {
    fn default() -> (s: Self)
        ensures
            default_suggest_config(s),
    {
        SuggestConfig { max_results: 50, max_history_entries: 10_000, providers: ProvidersConfig::default() }
    }
}

impl Default for ThemeConfig {
    fn default() -> (t: Self)
        ensures
            default_theme_config(t),
    {
        ThemeConfig { selected: "reverse".to_string(), description: "dim".to_string() }
    }
}

impl Default for PathsConfig {
    fn default() -> (p: Self)
        ensures
            default_paths_config(p),
    {
        PathsConfig { spec_dirs: Vec::new() }
    }
}

impl Default for GhostConfig {
    fn default() -> (c: Self)
        ensures
            default_ghost_config(c),
    {
        GhostConfig {
            trigger: TriggerConfig::default(),
            popup: PopupConfig::default(),
            suggest: SuggestConfig::default(),
            paths: PathsConfig::default(),
            keybindings: KeybindingsConfig::default(),
            theme: ThemeConfig::default(),
        }
    }
}

} // verus!
