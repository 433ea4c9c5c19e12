//! User configuration (`~/.config/repomonk/config.toml`).
//!
//! The values and their rules live here; reading and writing the file is the
//! application's job.

use vstd::prelude::*;

verus! {

/// Top-level user settings.
#[derive(Debug, Clone, PartialEq, Eq, Structural)]
pub struct UserConfig {
    pub content: ContentConfig,
    pub typing: TypingConfig,
    pub progress: ProgressConfig,
    pub fx: FxConfig,
}

#[derive(Debug, Clone, PartialEq, Eq, Structural)]
pub struct ContentConfig {
    pub include_imports: bool,
    pub include_doc_comments: bool,
    pub include_comments: bool,
    pub include_tests: bool,
    pub include_configs: bool,
    pub tab_width: usize,
}

#[derive(Debug, Clone, PartialEq, Eq, Structural)]
pub struct TypingConfig {
    pub auto_indent: bool,
    pub auto_close_brackets: bool,
    pub allow_backspace: bool,
    pub syntax_highlight: bool,
    pub show_live_speed: bool,
}

#[derive(Debug, Clone, PartialEq, Eq, Structural)]
pub struct ProgressConfig {
    pub mode: ProgressMode,
    pub dependency_direction: DependencyDirection,
    pub keep_done_on_refresh: bool,
    pub hide_skipped: bool,
}

#[derive(Debug, Clone, PartialEq, Eq, Structural)]
pub struct FxConfig {
    pub enabled: bool,
    pub intensity: FxIntensity,
    pub preset: FxPreset,
}

#[derive(Debug, Clone, Copy, PartialEq, Eq, Structural)]
pub enum ProgressMode {
    Manual,
    Flow,
}

#[derive(Debug, Clone, Copy, PartialEq, Eq, Structural)]
pub enum DependencyDirection {
    TopDown,
    BottomUp,
}

#[derive(Debug, Clone, Copy, PartialEq, Eq, Structural)]
pub enum FxIntensity {
    Off,
    Subtle,
    Normal,
    High,
}

#[derive(Debug, Clone, Copy, PartialEq, Eq, Structural)]
pub enum FxPreset {
    Classic,
    Blaze,
    Smear,
    Ripple,
}

/// The settings a fresh installation starts with.
pub open spec fn default_config() -> UserConfig {
    UserConfig {
        content: ContentConfig {
            include_imports: false,
            include_doc_comments: true,
            include_comments: false,
            include_tests: false,
            include_configs: false,
            tab_width: 4,
        },
        typing: TypingConfig {
            auto_indent: true,
            auto_close_brackets: false,
            allow_backspace: true,
            syntax_highlight: true,
            show_live_speed: false,
        },
        progress: ProgressConfig {
            mode: ProgressMode::Manual,
            dependency_direction: DependencyDirection::TopDown,
            keep_done_on_refresh: true,
            hide_skipped: false,
        },
        fx: FxConfig { enabled: true, intensity: FxIntensity::Normal, preset: FxPreset::Classic },
    }
}

impl Default for UserConfig {
    fn default() -> (c: Self)
        ensures
            c == default_config(),
    {
        UserConfig {
            content: ContentConfig {
                include_imports: false,
                include_doc_comments: true,
                include_comments: false,
                include_tests: false,
                include_configs: false,
                tab_width: 4,
            },
            typing: TypingConfig {
                auto_indent: true,
                auto_close_brackets: false,
                allow_backspace: true,
                syntax_highlight: true,
                show_live_speed: false,
            },
            progress: ProgressConfig {
                mode: ProgressMode::Manual,
                dependency_direction: DependencyDirection::TopDown,
                keep_done_on_refresh: true,
                hide_skipped: false,
            },
            fx: FxConfig {
                enabled: true,
                intensity: FxIntensity::Normal,
                preset: FxPreset::Classic,
            },
        }
    }
}

pub open spec fn mode_text(m: ProgressMode) -> Seq<char> {
    match m {
        ProgressMode::Manual => "manual"@,
        ProgressMode::Flow => "dependency"@,
    }
}

pub open spec fn other_mode(m: ProgressMode) -> ProgressMode {
    match m {
        ProgressMode::Manual => ProgressMode::Flow,
        ProgressMode::Flow => ProgressMode::Manual,
    }
}

impl ProgressMode {
    pub fn as_str(self) -> (s: &'static str)
        ensures
            s@ == mode_text(self),
    {
        match self {
            ProgressMode::Manual => "manual",
            ProgressMode::Flow => "dependency",
        }
    }

    pub fn cycle(self) -> (m: Self)
        ensures
            m == other_mode(self),
    {
        match self {
            ProgressMode::Manual => ProgressMode::Flow,
            ProgressMode::Flow => ProgressMode::Manual,
        }
    }
}

pub open spec fn direction_text(d: DependencyDirection) -> Seq<char> {
    match d {
        DependencyDirection::TopDown => "top_down"@,
        DependencyDirection::BottomUp => "bottom_up"@,
    }
}

pub open spec fn other_direction(d: DependencyDirection) -> DependencyDirection {
    match d {
        DependencyDirection::TopDown => DependencyDirection::BottomUp,
        DependencyDirection::BottomUp => DependencyDirection::TopDown,
    }
}

impl DependencyDirection {
    pub fn as_str(self) -> (s: &'static str)
        ensures
            s@ == direction_text(self),
    {
        match self {
            DependencyDirection::TopDown => "top_down",
            DependencyDirection::BottomUp => "bottom_up",
        }
    }

    pub fn cycle(self) -> (d: Self)
        ensures
            d == other_direction(self),
    {
        match self {
            DependencyDirection::TopDown => DependencyDirection::BottomUp,
            DependencyDirection::BottomUp => DependencyDirection::TopDown,
        }
    }
}

pub open spec fn intensity_text(i: FxIntensity) -> Seq<char> {
    match i {
        FxIntensity::Off => "off"@,
        FxIntensity::Subtle => "subtle"@,
        FxIntensity::Normal => "normal"@,
        FxIntensity::High => "high"@,
    }
}

pub open spec fn next_intensity(i: FxIntensity) -> FxIntensity {
    match i {
        FxIntensity::Off => FxIntensity::Subtle,
        FxIntensity::Subtle => FxIntensity::Normal,
        FxIntensity::Normal => FxIntensity::High,
        FxIntensity::High => FxIntensity::Off,
    }
}

pub open spec fn prev_intensity(i: FxIntensity) -> FxIntensity {
    match i {
        FxIntensity::Off => FxIntensity::High,
        FxIntensity::Subtle => FxIntensity::Off,
        FxIntensity::Normal => FxIntensity::Subtle,
        FxIntensity::High => FxIntensity::Normal,
    }
}

/// Lifetime multiplier of an intensity, in tenths.
pub open spec fn intensity_tenths(i: FxIntensity) -> nat {
    match i {
        FxIntensity::Off => 0,
        FxIntensity::Subtle => 6,
        FxIntensity::Normal => 10,
        FxIntensity::High => 15,
    }
}

impl FxIntensity {
    pub fn as_str(self) -> (s: &'static str)
        ensures
            s@ == intensity_text(self),
    {
        match self {
            FxIntensity::Off => "off",
            FxIntensity::Subtle => "subtle",
            FxIntensity::Normal => "normal",
            FxIntensity::High => "high",
        }
    }

    pub fn cycle_next(self) -> (r: Self)
        ensures
            r == next_intensity(self),
    {
        match self {
            FxIntensity::Off => FxIntensity::Subtle,
            FxIntensity::Subtle => FxIntensity::Normal,
            FxIntensity::Normal => FxIntensity::High,
            FxIntensity::High => FxIntensity::Off,
        }
    }

    pub fn cycle_prev(self) -> (r: Self)
        ensures
            r == prev_intensity(self),
    {
        match self {
            FxIntensity::Off => FxIntensity::High,
            FxIntensity::Subtle => FxIntensity::Off,
            FxIntensity::Normal => FxIntensity::Subtle,
            FxIntensity::High => FxIntensity::Normal,
        }
    }

    /// Multiplier for glow / trail lifetimes, in tenths (`Normal` is 10).
    pub fn lifetime_tenths(self) -> (t: u64)
        ensures
            t == intensity_tenths(self),
    {
        match self {
            FxIntensity::Off => 0,
            FxIntensity::Subtle => 6,
            FxIntensity::Normal => 10,
            FxIntensity::High => 15,
        }
    }
}

pub open spec fn preset_text(p: FxPreset) -> Seq<char> {
    match p {
        FxPreset::Classic => "classic"@,
        FxPreset::Blaze => "blaze"@,
        FxPreset::Smear => "smear"@,
        FxPreset::Ripple => "ripple"@,
    }
}

pub open spec fn next_preset(p: FxPreset) -> FxPreset {
    match p {
        FxPreset::Classic => FxPreset::Blaze,
        FxPreset::Blaze => FxPreset::Smear,
        FxPreset::Smear => FxPreset::Ripple,
        FxPreset::Ripple => FxPreset::Classic,
    }
}

pub open spec fn prev_preset(p: FxPreset) -> FxPreset {
    match p {
        FxPreset::Classic => FxPreset::Ripple,
        FxPreset::Blaze => FxPreset::Classic,
        FxPreset::Smear => FxPreset::Blaze,
        FxPreset::Ripple => FxPreset::Smear,
    }
}

impl FxPreset {
    pub fn as_str(self) -> (s: &'static str)
        ensures
            s@ == preset_text(self),
    {
        match self {
            FxPreset::Classic => "classic",
            FxPreset::Blaze => "blaze",
            FxPreset::Smear => "smear",
            FxPreset::Ripple => "ripple",
        }
    }

    pub fn cycle_next(self) -> (r: Self)
        ensures
            r == next_preset(self),
    {
        match self {
            FxPreset::Classic => FxPreset::Blaze,
            FxPreset::Blaze => FxPreset::Smear,
            FxPreset::Smear => FxPreset::Ripple,
            FxPreset::Ripple => FxPreset::Classic,
        }
    }

    pub fn cycle_prev(self) -> (r: Self)
        ensures
            r == prev_preset(self),
    {
        match self {
            FxPreset::Classic => FxPreset::Ripple,
            FxPreset::Blaze => FxPreset::Classic,
            FxPreset::Smear => FxPreset::Blaze,
            FxPreset::Ripple => FxPreset::Smear,
        }
    }
}

/// Cycling forward then backward (or back then forward) returns to the start,
/// and four steps forward go all the way round.
pub proof fn law_intensity_cycle(i: FxIntensity)
    ensures
        prev_intensity(next_intensity(i)) == i,
        next_intensity(prev_intensity(i)) == i,
        next_intensity(next_intensity(next_intensity(next_intensity(i)))) == i,
{
}

/// Cycling presets forward then backward returns to the start, and four steps
/// forward visit every preset once.
pub proof fn law_preset_cycle(p: FxPreset)
    ensures
        prev_preset(next_preset(p)) == p,
        next_preset(prev_preset(p)) == p,
        next_preset(next_preset(next_preset(next_preset(p)))) == p,
        next_preset(p) != p,
        next_preset(next_preset(p)) != p,
        next_preset(next_preset(next_preset(p))) != p,
{
}

/// The two-valued settings flip between their values.
pub proof fn law_two_valued_cycles(m: ProgressMode, d: DependencyDirection)
    ensures
        other_mode(other_mode(m)) == m,
        other_mode(m) != m,
        other_direction(other_direction(d)) == d,
        other_direction(d) != d,
{
}

impl UserConfig {
    /// Whether visual effects should run (ignores CLI `--no-fx`).
    pub fn fx_active(&self) -> (b: bool)
        ensures
            b == (self.fx.enabled && self.fx.intensity != FxIntensity::Off),
    {
        self.fx.enabled && self.fx.intensity != FxIntensity::Off
    }
}

/// Why a configuration cannot be used.
#[derive(Debug, Clone, Copy, PartialEq, Eq, Structural)]
pub enum ConfigProblem {
    /// `content.tab_width` outside `1..=8`.
    TabWidthOutOfRange { tab_width: usize },
    /// `typing.auto_close_brackets = true` is not supported.
    AutoCloseBrackets,
}

/// The first rule a configuration breaks, if any.
pub open spec fn config_problem(cfg: UserConfig) -> Option<ConfigProblem> {
    if !(1 <= cfg.content.tab_width <= 8) {
        Some(ConfigProblem::TabWidthOutOfRange { tab_width: cfg.content.tab_width })
    } else if cfg.typing.auto_close_brackets {
        Some(ConfigProblem::AutoCloseBrackets)
    } else {
        None
    }
}

/// Check the rules a loaded or saved configuration must follow.
pub fn validate(cfg: &UserConfig) -> (r: Result<(), ConfigProblem>)
    ensures
        match config_problem(*cfg) {
            Some(p) => r == Err::<(), ConfigProblem>(p),
            None => r is Ok,
        },
{
    if !(1 <= cfg.content.tab_width && cfg.content.tab_width <= 8) {
        return Err(ConfigProblem::TabWidthOutOfRange { tab_width: cfg.content.tab_width });
    }
    if cfg.typing.auto_close_brackets {
        return Err(ConfigProblem::AutoCloseBrackets);
    }
    Ok(())
}

/// The defaults pass validation.
pub proof fn law_default_is_valid()
    ensures
        config_problem(default_config()) is None,
{
}

} // verus!
