//! Settings screen state: which setting is selected and how activating it
//! changes the configuration.

use vstd::prelude::*;

use crate::config::{
    direction_text, intensity_text, mode_text, next_intensity, next_preset, other_direction,
    other_mode, preset_text, prev_intensity, prev_preset, UserConfig,
};
use crate::text::{decimal, decimal_chars, push_chars, push_str};

verus! {

#[derive(Debug, Clone, Copy, PartialEq, Eq, Structural)]
pub enum SettingKind {
    Bool,
    TabWidth,
    ProgressMode,
    DependencyDirection,
    FxIntensity,
    FxPreset,
    /// Display-only / locked (cannot change).
    Locked,
}

#[derive(Debug, Clone, Copy, PartialEq, Eq, Structural)]
pub enum SettingId {
    IncludeImports,
    IncludeDocComments,
    IncludeComments,
    IncludeTests,
    IncludeConfigs,
    TabWidth,
    AutoIndent,
    AutoCloseBrackets,
    AllowBackspace,
    SyntaxHighlight,
    ShowLiveSpeed,
    ProgressMode,
    DependencyDirection,
    KeepDoneOnRefresh,
    HideSkipped,
    FxEnabled,
    FxIntensity,
    FxPreset,
}

/// The number of settings listed.
pub const SETTING_COUNT: usize = 18;

/// The settings in display order: id, section, label, kind, and whether the
/// setting is shown as unsupported.
pub open spec fn setting_table() -> Seq<(SettingId, Seq<char>, Seq<char>, SettingKind, bool)> {
    seq![
        (SettingId::IncludeImports, "content"@, "include_imports"@, SettingKind::Bool, false),
        (SettingId::IncludeDocComments, "content"@, "include_doc_comments"@, SettingKind::Bool, false),
        (SettingId::IncludeComments, "content"@, "include_comments"@, SettingKind::Bool, false),
        (SettingId::IncludeTests, "content"@, "include_tests"@, SettingKind::Bool, false),
        (SettingId::IncludeConfigs, "content"@, "include_configs"@, SettingKind::Bool, false),
        (SettingId::TabWidth, "content"@, "tab_width"@, SettingKind::TabWidth, false),
        (SettingId::AutoIndent, "typing"@, "auto_indent"@, SettingKind::Bool, false),
        (SettingId::AutoCloseBrackets, "typing"@, "auto_close_brackets"@, SettingKind::Locked, true),
        (SettingId::AllowBackspace, "typing"@, "allow_backspace"@, SettingKind::Bool, false),
        (SettingId::ShowLiveSpeed, "typing"@, "show_live_speed"@, SettingKind::Bool, false),
        (SettingId::SyntaxHighlight, "typing"@, "syntax_highlight"@, SettingKind::Bool, false),
        (SettingId::ProgressMode, "progress"@, "mode"@, SettingKind::ProgressMode, false),
        (SettingId::DependencyDirection, "progress"@, "dependency_direction"@, SettingKind::DependencyDirection, false),
        (SettingId::KeepDoneOnRefresh, "progress"@, "keep_done_on_refresh"@, SettingKind::Bool, false),
        (SettingId::HideSkipped, "progress"@, "hide_skipped"@, SettingKind::Bool, false),
        (SettingId::FxEnabled, "fx"@, "enabled"@, SettingKind::Bool, false),
        (SettingId::FxIntensity, "fx"@, "intensity"@, SettingKind::FxIntensity, false),
        (SettingId::FxPreset, "fx"@, "preset"@, SettingKind::FxPreset, false),
    ]
}

/// One row of the settings table.
#[derive(Debug, Clone, Copy)]
pub struct SettingDef {
    pub id: SettingId,
    pub section: &'static str,
    pub label: &'static str,
    pub kind: SettingKind,
    /// Shown muted; value still editable unless locked.
    pub unsupported: bool,
}

pub open spec fn def_view(d: SettingDef) -> (SettingId, Seq<char>, Seq<char>, SettingKind, bool) {
    (d.id, d.section@, d.label@, d.kind, d.unsupported)
}

/// The `i`-th setting.
pub fn setting_def(i: usize) -> (d: SettingDef)
    requires
        i < SETTING_COUNT,
    ensures
        def_view(d) == setting_table()[i as int],
{
    let (id, section, label, kind, unsupported) = match i {
        0 => (SettingId::IncludeImports, "content", "include_imports", SettingKind::Bool, false),
        1 => (SettingId::IncludeDocComments, "content", "include_doc_comments", SettingKind::Bool, false),
        2 => (SettingId::IncludeComments, "content", "include_comments", SettingKind::Bool, false),
        3 => (SettingId::IncludeTests, "content", "include_tests", SettingKind::Bool, false),
        4 => (SettingId::IncludeConfigs, "content", "include_configs", SettingKind::Bool, false),
        5 => (SettingId::TabWidth, "content", "tab_width", SettingKind::TabWidth, false),
        6 => (SettingId::AutoIndent, "typing", "auto_indent", SettingKind::Bool, false),
        7 => (SettingId::AutoCloseBrackets, "typing", "auto_close_brackets", SettingKind::Locked, true),
        8 => (SettingId::AllowBackspace, "typing", "allow_backspace", SettingKind::Bool, false),
        9 => (SettingId::ShowLiveSpeed, "typing", "show_live_speed", SettingKind::Bool, false),
        10 => (SettingId::SyntaxHighlight, "typing", "syntax_highlight", SettingKind::Bool, false),
        11 => (SettingId::ProgressMode, "progress", "mode", SettingKind::ProgressMode, false),
        12 => (SettingId::DependencyDirection, "progress", "dependency_direction", SettingKind::DependencyDirection, false),
        13 => (SettingId::KeepDoneOnRefresh, "progress", "keep_done_on_refresh", SettingKind::Bool, false),
        14 => (SettingId::HideSkipped, "progress", "hide_skipped", SettingKind::Bool, false),
        15 => (SettingId::FxEnabled, "fx", "enabled", SettingKind::Bool, false),
        16 => (SettingId::FxIntensity, "fx", "intensity", SettingKind::FxIntensity, false),
        _ => (SettingId::FxPreset, "fx", "preset", SettingKind::FxPreset, false),
    };
    SettingDef { id, section, label, kind, unsupported }
}

/// The position of a setting in the table.
pub open spec fn index_of(id: SettingId) -> int {
    match id {
        SettingId::IncludeImports => 0,
        SettingId::IncludeDocComments => 1,
        SettingId::IncludeComments => 2,
        SettingId::IncludeTests => 3,
        SettingId::IncludeConfigs => 4,
        SettingId::TabWidth => 5,
        SettingId::AutoIndent => 6,
        SettingId::AutoCloseBrackets => 7,
        SettingId::AllowBackspace => 8,
        SettingId::ShowLiveSpeed => 9,
        SettingId::SyntaxHighlight => 10,
        SettingId::ProgressMode => 11,
        SettingId::DependencyDirection => 12,
        SettingId::KeepDoneOnRefresh => 13,
        SettingId::HideSkipped => 14,
        SettingId::FxEnabled => 15,
        SettingId::FxIntensity => 16,
        SettingId::FxPreset => 17,
    }
}

/// Where a setting stands in the table.
pub fn setting_index(id: SettingId) -> (i: usize)
    ensures
        i == index_of(id),
        i < SETTING_COUNT,
        setting_table()[i as int].0 == id,
{
    match id {
        SettingId::IncludeImports => 0,
        SettingId::IncludeDocComments => 1,
        SettingId::IncludeComments => 2,
        SettingId::IncludeTests => 3,
        SettingId::IncludeConfigs => 4,
        SettingId::TabWidth => 5,
        SettingId::AutoIndent => 6,
        SettingId::AutoCloseBrackets => 7,
        SettingId::AllowBackspace => 8,
        SettingId::ShowLiveSpeed => 9,
        SettingId::SyntaxHighlight => 10,
        SettingId::ProgressMode => 11,
        SettingId::DependencyDirection => 12,
        SettingId::KeepDoneOnRefresh => 13,
        SettingId::HideSkipped => 14,
        SettingId::FxEnabled => 15,
        SettingId::FxIntensity => 16,
        SettingId::FxPreset => 17,
    }
}

/// The configuration after activating setting `id` (forward: `l`/Enter;
/// backward: `h`). Tab width wraps within 1..=8; booleans flip; the
/// enumerations cycle; the locked setting changes nothing.
pub open spec fn apply_setting(cfg: UserConfig, id: SettingId, forward: bool) -> UserConfig {
    match id {
        SettingId::IncludeImports => UserConfig {
            content: crate::config::ContentConfig { include_imports: !cfg.content.include_imports, ..cfg.content },
            ..cfg
        },
        SettingId::IncludeDocComments => UserConfig {
            content: crate::config::ContentConfig {
                include_doc_comments: !cfg.content.include_doc_comments,
                ..cfg.content
            },
            ..cfg
        },
        SettingId::IncludeComments => UserConfig {
            content: crate::config::ContentConfig { include_comments: !cfg.content.include_comments, ..cfg.content },
            ..cfg
        },
        SettingId::IncludeTests => UserConfig {
            content: crate::config::ContentConfig { include_tests: !cfg.content.include_tests, ..cfg.content },
            ..cfg
        },
        SettingId::IncludeConfigs => UserConfig {
            content: crate::config::ContentConfig { include_configs: !cfg.content.include_configs, ..cfg.content },
            ..cfg
        },
        SettingId::TabWidth => UserConfig {
            content: crate::config::ContentConfig {
                tab_width: if forward {
                    if cfg.content.tab_width >= 8 {
                        1
                    } else {
                        (cfg.content.tab_width + 1) as usize
                    }
                } else {
                    if cfg.content.tab_width <= 1 {
                        8
                    } else {
                        (cfg.content.tab_width - 1) as usize
                    }
                },
                ..cfg.content
            },
            ..cfg
        },
        SettingId::AutoIndent => UserConfig {
            typing: crate::config::TypingConfig { auto_indent: !cfg.typing.auto_indent, ..cfg.typing },
            ..cfg
        },
        SettingId::AutoCloseBrackets => cfg,
        SettingId::AllowBackspace => UserConfig {
            typing: crate::config::TypingConfig { allow_backspace: !cfg.typing.allow_backspace, ..cfg.typing },
            ..cfg
        },
        SettingId::SyntaxHighlight => UserConfig {
            typing: crate::config::TypingConfig { syntax_highlight: !cfg.typing.syntax_highlight, ..cfg.typing },
            ..cfg
        },
        SettingId::ShowLiveSpeed => UserConfig {
            typing: crate::config::TypingConfig { show_live_speed: !cfg.typing.show_live_speed, ..cfg.typing },
            ..cfg
        },
        SettingId::ProgressMode => UserConfig {
            progress: crate::config::ProgressConfig { mode: other_mode(cfg.progress.mode), ..cfg.progress },
            ..cfg
        },
        SettingId::DependencyDirection => UserConfig {
            progress: crate::config::ProgressConfig {
                dependency_direction: other_direction(cfg.progress.dependency_direction),
                ..cfg.progress
            },
            ..cfg
        },
        SettingId::KeepDoneOnRefresh => UserConfig {
            progress: crate::config::ProgressConfig {
                keep_done_on_refresh: !cfg.progress.keep_done_on_refresh,
                ..cfg.progress
            },
            ..cfg
        },
        SettingId::HideSkipped => UserConfig {
            progress: crate::config::ProgressConfig { hide_skipped: !cfg.progress.hide_skipped, ..cfg.progress },
            ..cfg
        },
        SettingId::FxEnabled => UserConfig {
            fx: crate::config::FxConfig { enabled: !cfg.fx.enabled, ..cfg.fx },
            ..cfg
        },
        SettingId::FxIntensity => UserConfig {
            fx: crate::config::FxConfig {
                intensity: if forward {
                    next_intensity(cfg.fx.intensity)
                } else {
                    prev_intensity(cfg.fx.intensity)
                },
                ..cfg.fx
            },
            ..cfg
        },
        SettingId::FxPreset => UserConfig {
            fx: crate::config::FxConfig {
                preset: if forward {
                    next_preset(cfg.fx.preset)
                } else {
                    prev_preset(cfg.fx.preset)
                },
                ..cfg.fx
            },
            ..cfg
        },
    }
}

/// The message shown when the locked setting is activated.
pub open spec fn locked_message() -> Seq<char> {
    "auto_close_brackets is not implemented yet"@
}

/// A copy of a configuration.
pub fn copy_config(cfg: &UserConfig) -> (c: UserConfig)
    ensures
        c == *cfg,
{
    UserConfig {
        content: crate::config::ContentConfig {
            include_imports: cfg.content.include_imports,
            include_doc_comments: cfg.content.include_doc_comments,
            include_comments: cfg.content.include_comments,
            include_tests: cfg.content.include_tests,
            include_configs: cfg.content.include_configs,
            tab_width: cfg.content.tab_width,
        },
        typing: crate::config::TypingConfig {
            auto_indent: cfg.typing.auto_indent,
            auto_close_brackets: cfg.typing.auto_close_brackets,
            allow_backspace: cfg.typing.allow_backspace,
            syntax_highlight: cfg.typing.syntax_highlight,
            show_live_speed: cfg.typing.show_live_speed,
        },
        progress: crate::config::ProgressConfig {
            mode: cfg.progress.mode,
            dependency_direction: cfg.progress.dependency_direction,
            keep_done_on_refresh: cfg.progress.keep_done_on_refresh,
            hide_skipped: cfg.progress.hide_skipped,
        },
        fx: crate::config::FxConfig {
            enabled: cfg.fx.enabled,
            intensity: cfg.fx.intensity,
            preset: cfg.fx.preset,
        },
    }
}

/// The configuration after activating setting `id`.
#[verifier::rlimit(30)]
fn next_config(cfg: &UserConfig, id: SettingId, forward: bool) -> (c: UserConfig)
    ensures
        c == apply_setting(*cfg, id, forward),
{
    let mut c = copy_config(cfg);
    match id {
        SettingId::IncludeImports => {
            c.content.include_imports = !c.content.include_imports;
        },
        SettingId::IncludeDocComments => {
            c.content.include_doc_comments = !c.content.include_doc_comments;
        },
        SettingId::IncludeComments => {
            c.content.include_comments = !c.content.include_comments;
        },
        SettingId::IncludeTests => {
            c.content.include_tests = !c.content.include_tests;
        },
        SettingId::IncludeConfigs => {
            c.content.include_configs = !c.content.include_configs;
        },
        SettingId::TabWidth => {
            if forward {
                c.content.tab_width = if c.content.tab_width >= 8 {
                    1
                } else {
                    c.content.tab_width + 1
                };
            } else {
                c.content.tab_width = if c.content.tab_width <= 1 {
                    8
                } else {
                    c.content.tab_width - 1
                };
            }
        },
        SettingId::AutoIndent => {
            c.typing.auto_indent = !c.typing.auto_indent;
        },
        SettingId::AutoCloseBrackets => {},
        SettingId::AllowBackspace => {
            c.typing.allow_backspace = !c.typing.allow_backspace;
        },
        SettingId::SyntaxHighlight => {
            c.typing.syntax_highlight = !c.typing.syntax_highlight;
        },
        SettingId::ShowLiveSpeed => {
            c.typing.show_live_speed = !c.typing.show_live_speed;
        },
        SettingId::ProgressMode => {
            c.progress.mode = c.progress.mode.cycle();
        },
        SettingId::DependencyDirection => {
            c.progress.dependency_direction = c.progress.dependency_direction.cycle();
        },
        SettingId::KeepDoneOnRefresh => {
            c.progress.keep_done_on_refresh = !c.progress.keep_done_on_refresh;
        },
        SettingId::HideSkipped => {
            c.progress.hide_skipped = !c.progress.hide_skipped;
        },
        SettingId::FxEnabled => {
            c.fx.enabled = !c.fx.enabled;
        },
        SettingId::FxIntensity => {
            c.fx.intensity = if forward {
                c.fx.intensity.cycle_next()
            } else {
                c.fx.intensity.cycle_prev()
            };
        },
        SettingId::FxPreset => {
            c.fx.preset = if forward {
                c.fx.preset.cycle_next()
            } else {
                c.fx.preset.cycle_prev()
            };
        },
    }
    c
}

#[derive(Debug, Clone)]
pub struct SettingsView {
    pub selected: usize,
    pub status: Option<String>,
}

impl SettingsView {
    pub fn new() -> (v: SettingsView)
        ensures
            v.selected == 0,
            v.status is None,
    {
        SettingsView { selected: 0, status: None }
    }

    /// Move the selection by `delta`, wrapping around the table.
    pub fn move_by(&mut self, delta: isize)
        requires
            old(self).selected < SETTING_COUNT,
            isize::MIN <= old(self).selected + delta <= isize::MAX,
        ensures
            final(self).selected == (old(self).selected + delta) % (SETTING_COUNT as int),
            final(self).status == old(self).status,
    {
        let sel = self.selected;
        let next: usize;
        let ghost q: int;
        if delta >= 0 {
            let du = delta as usize;
            let d = du % 18;
            next = (sel + d) % 18;
            proof {
                q = du as int / 18 + (sel + d) as int / 18;
            }
        } else {
            let k = (-(delta + 1)) as usize;
            let m = k % 18;
            next = (sel + 35 - m) % 18;
            proof {
                q = (sel + 35 - m) as int / 18 - 2 - k as int / 18;
            }
        }
        proof {
            vstd::arithmetic::div_mod::lemma_fundamental_div_mod_converse(
                sel + delta,
                18,
                q,
                next as int,
            );
        }
        self.selected = next as usize;
    }

    pub fn selected_id(&self) -> (id: SettingId)
        requires
            self.selected < SETTING_COUNT,
        ensures
            id == setting_table()[self.selected as int].0,
    {
        setting_def(self.selected).id
    }

    pub fn selected_kind(&self) -> (k: SettingKind)
        requires
            self.selected < SETTING_COUNT,
        ensures
            k == setting_table()[self.selected as int].3,
    {
        setting_def(self.selected).kind
    }

    /// Toggle / nudge the selected setting. Returns true if config changed.
    pub fn activate(&mut self, cfg: &mut UserConfig, forward: bool) -> (changed: bool)
        requires
            old(self).selected < SETTING_COUNT,
        ensures
            final(self).selected == old(self).selected,
            ({
                let def = setting_table()[old(self).selected as int];
                if def.3 == SettingKind::Locked {
                    &&& !changed
                    &&& *final(cfg) == *old(cfg)
                    &&& final(self).status matches Some(s) && s@ == locked_message()
                } else {
                    &&& changed
                    &&& *final(cfg) == apply_setting(*old(cfg), def.0, forward)
                    &&& final(self).status is None
                }
            }),
    {
        let def = setting_def(self.selected);
        if def.kind == SettingKind::Locked {
            self.status = Some("auto_close_brackets is not implemented yet".to_owned());
            return false;
        }
        self.status = None;
        let next = next_config(cfg, def.id, forward);
        *cfg = next;
        true
    }
}

/// The true/false settings.
pub open spec fn is_bool_setting(id: SettingId) -> bool {
    !(id is TabWidth || id is AutoCloseBrackets || id is ProgressMode || id is DependencyDirection
        || id is FxIntensity || id is FxPreset)
}

/// Activating a true/false setting twice gives the configuration back.
#[verifier::rlimit(100)]
pub proof fn law_bool_setting_twice(cfg: UserConfig, id: SettingId, forward: bool)
    requires
        is_bool_setting(id),
    ensures
        apply_setting(apply_setting(cfg, id, forward), id, forward) == cfg,
{
    let once = apply_setting(cfg, id, forward);
    let twice = apply_setting(once, id, forward);
    match id {
        SettingId::IncludeImports => {
            assert(twice.content =~= cfg.content);
        },
        SettingId::IncludeDocComments => {},
        SettingId::IncludeComments => {},
        SettingId::IncludeTests => {},
        SettingId::IncludeConfigs => {},
        SettingId::AutoIndent => {},
        SettingId::AllowBackspace => {},
        SettingId::SyntaxHighlight => {},
        SettingId::ShowLiveSpeed => {},
        SettingId::KeepDoneOnRefresh => {},
        SettingId::HideSkipped => {},
        SettingId::FxEnabled => {},
        _ => {},
    }
}

/// Exactly the settings the table lists as true/false are the true/false
/// settings.
pub proof fn lemma_bool_kinds(i: int)
    requires
        0 <= i < SETTING_COUNT,
    ensures
        (setting_table()[i].3 == SettingKind::Bool) == is_bool_setting(setting_table()[i].0),
{
}

/// Activating the tab width forward and then backward gives it back.
pub proof fn law_tab_width_undo(cfg: UserConfig)
    requires
        1 <= cfg.content.tab_width <= 8,
    ensures
        apply_setting(apply_setting(cfg, SettingId::TabWidth, true), SettingId::TabWidth, false)
            == cfg,
{
}

/// Activating any setting forward and then backward gives the configuration
/// back (the tab width being in its range).
#[verifier::rlimit(100)]
pub proof fn law_forward_then_backward(cfg: UserConfig, id: SettingId)
    requires
        1 <= cfg.content.tab_width <= 8,
    ensures
        apply_setting(apply_setting(cfg, id, true), id, false) == cfg,
{
    match id {
        SettingId::TabWidth => law_tab_width_undo(cfg),
        SettingId::FxIntensity => crate::config::law_intensity_cycle(cfg.fx.intensity),
        SettingId::FxPreset => crate::config::law_preset_cycle(cfg.fx.preset),
        SettingId::ProgressMode | SettingId::DependencyDirection => crate::config::law_two_valued_cycles(
            cfg.progress.mode,
            cfg.progress.dependency_direction,
        ),
        SettingId::AutoCloseBrackets => {},
        _ => {
            assert(is_bool_setting(id));
            law_bool_setting_twice(cfg, id, true);
        },
    }
}

impl Default for SettingsView {
    fn default() -> (v: Self)
        ensures
            v.selected == 0,
            v.status is None,
    {
        SettingsView::new()
    }
}

pub open spec fn bool_text(b: bool) -> Seq<char> {
    if b {
        "true"@
    } else {
        "false"@
    }
}

/// The value of a setting as the settings list shows it.
pub open spec fn value_text(cfg: UserConfig, id: SettingId) -> Seq<char> {
    match id {
        SettingId::IncludeImports => bool_text(cfg.content.include_imports),
        SettingId::IncludeDocComments => bool_text(cfg.content.include_doc_comments),
        SettingId::IncludeComments => bool_text(cfg.content.include_comments),
        SettingId::IncludeTests => bool_text(cfg.content.include_tests),
        SettingId::IncludeConfigs => bool_text(cfg.content.include_configs),
        SettingId::TabWidth => decimal(cfg.content.tab_width as nat),
        SettingId::AutoIndent => bool_text(cfg.typing.auto_indent),
        SettingId::AutoCloseBrackets => "false"@,
        SettingId::AllowBackspace => bool_text(cfg.typing.allow_backspace),
        SettingId::SyntaxHighlight => bool_text(cfg.typing.syntax_highlight),
        SettingId::ShowLiveSpeed => bool_text(cfg.typing.show_live_speed),
        SettingId::ProgressMode => mode_text(cfg.progress.mode),
        SettingId::DependencyDirection => direction_text(cfg.progress.dependency_direction),
        SettingId::KeepDoneOnRefresh => bool_text(cfg.progress.keep_done_on_refresh),
        SettingId::HideSkipped => bool_text(cfg.progress.hide_skipped),
        SettingId::FxEnabled => bool_text(cfg.fx.enabled),
        SettingId::FxIntensity => intensity_text(cfg.fx.intensity),
        SettingId::FxPreset => preset_text(cfg.fx.preset),
    }
}

fn bool_string(b: bool) -> (s: String)
    ensures
        s@ == bool_text(b),
{
    if b {
        "true".to_owned()
    } else {
        "false".to_owned()
    }
}

/// The value of a setting as the settings list shows it.
pub fn value_string(cfg: &UserConfig, id: SettingId) -> (s: String)
    ensures
        s@ == value_text(*cfg, id),
{
    match id {
        SettingId::IncludeImports => bool_string(cfg.content.include_imports),
        SettingId::IncludeDocComments => bool_string(cfg.content.include_doc_comments),
        SettingId::IncludeComments => bool_string(cfg.content.include_comments),
        SettingId::IncludeTests => bool_string(cfg.content.include_tests),
        SettingId::IncludeConfigs => bool_string(cfg.content.include_configs),
        SettingId::TabWidth => {
            let mut s = String::new();
            let d = decimal_chars(cfg.content.tab_width);
            push_chars(&mut s, &d);
            assert(s@ =~= d@);
            s
        },
        SettingId::AutoIndent => bool_string(cfg.typing.auto_indent),
        SettingId::AutoCloseBrackets => "false".to_owned(),
        SettingId::AllowBackspace => bool_string(cfg.typing.allow_backspace),
        SettingId::SyntaxHighlight => bool_string(cfg.typing.syntax_highlight),
        SettingId::ShowLiveSpeed => bool_string(cfg.typing.show_live_speed),
        SettingId::ProgressMode => cfg.progress.mode.as_str().to_owned(),
        SettingId::DependencyDirection => cfg.progress.dependency_direction.as_str().to_owned(),
        SettingId::KeepDoneOnRefresh => bool_string(cfg.progress.keep_done_on_refresh),
        SettingId::HideSkipped => bool_string(cfg.progress.hide_skipped),
        SettingId::FxEnabled => bool_string(cfg.fx.enabled),
        SettingId::FxIntensity => cfg.fx.intensity.as_str().to_owned(),
        SettingId::FxPreset => cfg.fx.preset.as_str().to_owned(),
    }
}

/// The number of section headers among the first `n` settings (a header
/// opens each run of settings of one section).
pub open spec fn headers_upto(n: nat) -> nat
    decreases n,
{
    if n == 0 {
        0
    } else {
        let i = n - 1;
        headers_upto((n - 1) as nat) + if i == 0 || setting_table()[i].1 != setting_table()[i
            - 1].1 {
            1nat
        } else {
            0nat
        }
    }
}

/// The list row of the selected setting: its index plus the section headers
/// shown above it.
pub fn list_row(selected: usize) -> (row: usize)
    requires
        selected < SETTING_COUNT,
    ensures
        row == selected + headers_upto((selected + 1) as nat),
{
    let mut row: usize = 0;
    let mut i: usize = 0;
    let mut last: &str = "";
    loop
        invariant
            i <= selected < SETTING_COUNT,
            row == i + headers_upto(i as nat),
            row <= 2 * i,
            i > 0 ==> last@ == setting_table()[i - 1].1,
            i == 0 ==> last@ == ""@,
        decreases selected - i,
    {
        let def = setting_def(i);
        let fresh = !crate::text::str_eq(def.section, last);
        proof {
            reveal_strlit("");
            if i == 0 {
                assert(def.section@ != ""@) by {
                    reveal_strlit("content");
                }
            }
        }
        if fresh {
            row += 1;
        }
        last = def.section;
        if i == selected {
            return row;
        }
        row += 1;
        i += 1;
    }
}

} // verus!
