//! Visual-effects state for the typing screen.
//!
//! The state is derived purely from successive typing snapshots: keystrokes,
//! newlines and misses are read off the difference between two snapshots, so
//! effects never alter how typing behaves. Times are whole milliseconds;
//! how bright an effect is at a given moment is left to the renderer.

use vstd::prelude::*;

use crate::config::{intensity_tenths, FxIntensity, FxPreset};
use crate::domain::typing::TypingSnapshot;
use crate::text::{chars_of, count_char, count_chars, last_char_index, last_char_pos, subrange};

verus! {

/// Base afterglow lifetime for a freshly typed character.
pub const GLOW_BASE_MS: u64 = 120;
/// Extra afterglow lifetime granted per streak tier.
pub const GLOW_TIER_BONUS_MS: u64 = 40;
/// Lifetime of the trail emitted when a line is completed.
pub const TRAIL_MS: u64 = 150;
/// Lifetime of a ripple ring emitted by the ripple preset.
pub const RIPPLE_BASE_MS: u64 = 420;
/// Lifetime of a cursor trail in the blaze preset.
pub const BLAZE_TRAIL_BASE_MS: u64 = 300;
/// Lifetime of a cursor trail in the smear preset.
pub const SMEAR_TRAIL_BASE_MS: u64 = 600;
/// Lifetime of the small cursor trail retained by classic and ripple.
pub const SHORT_CURSOR_TRAIL_BASE_MS: u64 = 100;
/// Maximum number of cursor segments retained at once.
pub const CURSOR_SEGMENT_LIMIT: usize = 32;

/// Consecutive accepted keystrokes required for tier `k + 1`.
pub open spec fn tier_threshold(k: int) -> nat {
    if k == 0 {
        30
    } else if k == 1 {
        100
    } else {
        250
    }
}

/// Fading highlight left behind a typed character.
#[derive(Debug, Clone, Copy, PartialEq, Eq, Structural)]
pub struct Afterglow {
    pub index: usize,
    pub start_ms: u64,
    pub until_ms: u64,
}

/// Sweeping highlight across a just-completed line.
#[derive(Debug, Clone, Copy, PartialEq, Eq, Structural)]
pub struct LineTrail {
    pub line: usize,
    pub start_ms: u64,
    pub until_ms: u64,
}

/// A ring spreading from a typed character (ripple preset).
#[derive(Debug, Clone, Copy, PartialEq, Eq, Structural)]
pub struct Ripple {
    pub origin: usize,
    pub line: usize,
    pub column: usize,
    pub start_ms: u64,
    pub until_ms: u64,
}

/// A position in the target text.
#[derive(Debug, Clone, Copy, PartialEq, Eq, Structural)]
pub struct CursorCell {
    pub line: usize,
    pub column: usize,
}

/// A cursor movement left behind as a fading trail.
#[derive(Debug, Clone, Copy, PartialEq, Eq, Structural)]
pub struct CursorSegment {
    pub origin: usize,
    pub from: CursorCell,
    pub to: CursorCell,
    pub start_ms: u64,
    pub until_ms: u64,
}

/// The effects state as plain values.
pub ghost struct FxModel {
    pub prev_cursor: Option<usize>,
    pub prev_cell: Option<CursorCell>,
    pub prev_misses: u32,
    pub streak: u32,
    pub glows: Seq<Afterglow>,
    pub trails: Seq<LineTrail>,
    pub ripples: Seq<Ripple>,
    pub segments: Seq<CursorSegment>,
    pub intensity: FxIntensity,
    pub preset: FxPreset,
}

#[derive(Debug, Clone)]
pub struct FxState {
    prev_cursor: Option<usize>,
    prev_cell: Option<CursorCell>,
    prev_misses: u32,
    streak: u32,
    glows: Vec<Afterglow>,
    trails: Vec<LineTrail>,
    ripples: Vec<Ripple>,
    cursor_segments: Vec<CursorSegment>,
    intensity: FxIntensity,
    preset: FxPreset,
}

impl View for FxState {
    type V = FxModel;

    closed spec fn view(&self) -> FxModel {
        FxModel {
            prev_cursor: self.prev_cursor,
            prev_cell: self.prev_cell,
            prev_misses: self.prev_misses,
            streak: self.streak,
            glows: self.glows@,
            trails: self.trails@,
            ripples: self.ripples@,
            segments: self.cursor_segments@,
            intensity: self.intensity,
            preset: self.preset,
        }
    }
}

/// A fresh state with the given intensity and preset.
pub open spec fn fresh_model(intensity: FxIntensity, preset: FxPreset) -> FxModel {
    FxModel {
        prev_cursor: None,
        prev_cell: None,
        prev_misses: 0,
        streak: 0,
        glows: Seq::empty(),
        trails: Seq::empty(),
        ripples: Seq::empty(),
        segments: Seq::empty(),
        intensity,
        preset,
    }
}

/// The state with every transient effect dropped.
pub open spec fn cleared(m: FxModel) -> FxModel {
    FxModel { glows: Seq::empty(), trails: Seq::empty(), ripples: Seq::empty(), segments: Seq::empty(), ..m }
}

/// The streak tier 0..=3: how many thresholds the streak has reached.
pub open spec fn tier_of(streak: nat) -> nat {
    if streak >= 250 {
        3
    } else if streak >= 100 {
        2
    } else if streak >= 30 {
        1
    } else {
        0
    }
}

/// `base` milliseconds scaled by the intensity, rounded to the nearest
/// millisecond.
pub open spec fn scale_spec(intensity: FxIntensity, base: nat) -> nat {
    (base * intensity_tenths(intensity) + 5) / 10
}

pub open spec fn cursor_trail_base(preset: FxPreset) -> nat {
    match preset {
        FxPreset::Classic | FxPreset::Ripple => 100,
        FxPreset::Blaze => 300,
        FxPreset::Smear => 600,
    }
}

/// The 0-based line of position `index` of `chars`.
pub open spec fn line_at(chars: Seq<char>, index: nat) -> nat {
    count_char(chars.take(if index < chars.len() { index as int } else { chars.len() as int }), '\n')
}

/// The 0-based column of position `index` of `chars`.
pub open spec fn column_at(chars: Seq<char>, index: nat) -> nat {
    let i = if index < chars.len() {
        index as int
    } else {
        chars.len() as int
    };
    match last_char_index(chars.take(i), '\n') {
        Some(nl) => (i - nl - 1) as nat,
        None => i as nat,
    }
}

pub open spec fn cell_at(chars: Seq<char>, index: nat) -> CursorCell {
    CursorCell { line: line_at(chars, index) as usize, column: column_at(chars, index) as usize }
}

/// `s` without the elements that fail `keep`.
pub open spec fn keep<A>(s: Seq<A>, pred: spec_fn(A) -> bool) -> Seq<A>
    decreases s.len(),
{
    if s.len() == 0 {
        Seq::empty()
    } else {
        let prev = keep(s.drop_last(), pred);
        if pred(s.last()) {
            prev.push(s.last())
        } else {
            prev
        }
    }
}

pub open spec fn glow_below(c: nat) -> spec_fn(Afterglow) -> bool {
    |g: Afterglow| g.index < c
}

pub open spec fn glow_alive(now: nat) -> spec_fn(Afterglow) -> bool {
    |g: Afterglow| g.until_ms > now
}

pub open spec fn trail_alive(now: nat) -> spec_fn(LineTrail) -> bool {
    |t: LineTrail| t.until_ms > now
}

pub open spec fn ripple_below(c: nat) -> spec_fn(Ripple) -> bool {
    |r: Ripple| r.origin < c
}

pub open spec fn ripple_alive(now: nat) -> spec_fn(Ripple) -> bool {
    |r: Ripple| r.until_ms > now
}

pub open spec fn segment_below(c: nat) -> spec_fn(CursorSegment) -> bool {
    |s: CursorSegment| s.origin < c
}

pub open spec fn segment_alive(now: nat) -> spec_fn(CursorSegment) -> bool {
    |s: CursorSegment| s.until_ms > now
}

/// Expired effects dropped.
pub open spec fn pruned(m: FxModel, now: nat) -> FxModel {
    FxModel {
        glows: keep(m.glows, glow_alive(now)),
        trails: keep(m.trails, trail_alive(now)),
        ripples: keep(m.ripples, ripple_alive(now)),
        segments: keep(m.segments, segment_alive(now)),
        ..m
    }
}

/// What one observation knows while it walks the newly typed positions.
pub ghost struct StepCtx {
    pub chars: Seq<char>,
    pub auto: Seq<usize>,
    pub now: nat,
    pub start: nat,
    pub start_cell: CursorCell,
    pub glow_ms: nat,
    pub trail_ms: nat,
    pub ripple_ms: nat,
    pub cursor_ms: nat,
}

/// The segments after registering one more, keeping only the newest ones.
pub open spec fn with_segment(segs: Seq<CursorSegment>, s: CursorSegment, ms: nat) -> Seq<CursorSegment> {
    if ms == 0 {
        segs
    } else {
        let all = segs.push(s);
        if all.len() > CURSOR_SEGMENT_LIMIT {
            all.skip(all.len() - CURSOR_SEGMENT_LIMIT)
        } else {
            all
        }
    }
}

/// The state after the typed position `idx`: a keystroke that was not
/// auto-inserted grows the streak and leaves a glow, a cursor trail and
/// (ripple preset) a ripple; a newline leaves a line trail.
pub open spec fn step(m: FxModel, idx: nat, ctx: StepCtx) -> FxModel {
    let typed = !ctx.auto.contains(idx as usize);
    let m1 = if typed {
        let from = if idx == ctx.start {
            ctx.start_cell
        } else {
            cell_at(ctx.chars, idx)
        };
        let seg = CursorSegment {
            origin: idx as usize,
            from,
            to: cell_at(ctx.chars, idx + 1),
            start_ms: ctx.now as u64,
            until_ms: (ctx.now + ctx.cursor_ms) as u64,
        };
        FxModel {
            streak: if m.streak == u32::MAX {
                u32::MAX
            } else {
                (m.streak + 1) as u32
            },
            glows: if ctx.glow_ms > 0 {
                m.glows.push(
                    Afterglow {
                        index: idx as usize,
                        start_ms: ctx.now as u64,
                        until_ms: (ctx.now + ctx.glow_ms) as u64,
                    },
                )
            } else {
                m.glows
            },
            segments: with_segment(m.segments, seg, ctx.cursor_ms),
            ripples: if m.preset == FxPreset::Ripple && ctx.ripple_ms > 0 {
                m.ripples.push(
                    Ripple {
                        origin: idx as usize,
                        line: line_at(ctx.chars, idx) as usize,
                        column: column_at(ctx.chars, idx) as usize,
                        start_ms: ctx.now as u64,
                        until_ms: (ctx.now + ctx.ripple_ms) as u64,
                    },
                )
            } else {
                m.ripples
            },
            ..m
        }
    } else {
        m
    };
    if idx < ctx.chars.len() && ctx.chars[idx as int] == '\n' && ctx.trail_ms > 0 {
        FxModel {
            trails: m1.trails.push(
                LineTrail {
                    line: count_char(ctx.chars.take(idx as int), '\n') as usize,
                    start_ms: ctx.now as u64,
                    until_ms: (ctx.now + ctx.trail_ms) as u64,
                },
            ),
            ..m1
        }
    } else {
        m1
    }
}

/// The state after the first `k` newly typed positions.
pub open spec fn advance(m: FxModel, k: nat, ctx: StepCtx) -> FxModel
    decreases k,
{
    if k == 0 {
        m
    } else {
        step(advance(m, (k - 1) as nat, ctx), (ctx.start + k - 1) as nat, ctx)
    }
}

/// The state after observing a snapshot (`target`, `cursor`, `misses`, the
/// auto-inserted positions) at `now`.
pub open spec fn observed(
    m: FxModel,
    target: Seq<char>,
    cursor: nat,
    misses: u32,
    auto: Seq<usize>,
    now: nat,
) -> FxModel {
    let here = cell_at(target, cursor);
    if m.intensity == FxIntensity::Off {
        FxModel {
            prev_cursor: Some(cursor as usize),
            prev_cell: Some(here),
            prev_misses: misses,
            streak: 0,
            ..cleared(m)
        }
    } else {
        let m1 = if misses > m.prev_misses {
            FxModel { streak: 0, ripples: Seq::empty(), segments: Seq::empty(), ..m }
        } else {
            m
        };
        let m2 = FxModel { prev_misses: misses, ..m1 };
        let m3 = match m.prev_cursor {
            Some(p) => if cursor > p {
                let ctx = StepCtx {
                    chars: target,
                    auto,
                    now,
                    start: p as nat,
                    start_cell: match m.prev_cell {
                        Some(c) => c,
                        None => cell_at(target, p as nat),
                    },
                    glow_ms: scale_spec(m.intensity, 120 + 40 * tier_of(m2.streak as nat)),
                    trail_ms: scale_spec(m.intensity, 150),
                    ripple_ms: scale_spec(m.intensity, 420),
                    cursor_ms: scale_spec(m.intensity, cursor_trail_base(m.preset)),
                };
                advance(m2, (cursor - p) as nat, ctx)
            } else if cursor < p {
                FxModel {
                    glows: keep(m2.glows, glow_below(cursor)),
                    ripples: keep(m2.ripples, ripple_below(cursor)),
                    segments: keep(m2.segments, segment_below(cursor)),
                    ..m2
                }
            } else {
                m2
            },
            None => m2,
        };
        pruned(FxModel { prev_cursor: Some(cursor as usize), prev_cell: Some(here), ..m3 }, now)
    }
}

/// With effects off, an observation leaves no effect running and no streak.
pub proof fn law_off_shows_nothing(
    m: FxModel,
    target: Seq<char>,
    cursor: nat,
    misses: u32,
    auto: Seq<usize>,
    now: nat,
)
    requires
        m.intensity == FxIntensity::Off,
    ensures
        ({
            let r = observed(m, target, cursor, misses, auto, now);
            &&& r.streak == 0
            &&& r.glows.len() == 0 && r.trails.len() == 0 && r.ripples.len() == 0
                && r.segments.len() == 0
        }),
{
}

/// A higher streak never lowers the tier.
pub proof fn law_tier_monotone(a: nat, b: nat)
    requires
        a <= b,
    ensures
        tier_of(a) <= tier_of(b) <= 3,
{
}

/// When a snapshot shows a new miss and the cursor has not moved, the streak
/// restarts from zero.
pub proof fn law_miss_resets_streak(m: FxModel, target: Seq<char>, cursor: nat, misses: u32, auto: Seq<usize>, now: nat)
    requires
        misses > m.prev_misses,
        m.prev_cursor == Some(cursor as usize),
        cursor <= usize::MAX,
    ensures
        observed(m, target, cursor, misses, auto, now).streak == 0,
{
}

fn keep_glows_below(v: &Vec<Afterglow>, c: usize) -> (r: Vec<Afterglow>)
    ensures
        r@ == keep(v@, glow_below(c as nat)),
{
    let mut r: Vec<Afterglow> = Vec::new();
    let mut i: usize = 0;
    while i < v.len()
        invariant
            i <= v@.len(),
            r@ == keep(v@.take(i as int), glow_below(c as nat)),
        decreases v.len() - i,
    {
        assert(v@.take(i + 1).drop_last() =~= v@.take(i as int));
        assert(v@.take(i + 1).last() == v@[i as int]);
        if v[i].index < c {
            r.push(v[i]);
        }
        i += 1;
    }
    assert(v@.take(v@.len() as int) =~= v@);
    r
}

fn keep_glows_alive(v: &Vec<Afterglow>, now: u64) -> (r: Vec<Afterglow>)
    ensures
        r@ == keep(v@, glow_alive(now as nat)),
{
    let mut r: Vec<Afterglow> = Vec::new();
    let mut i: usize = 0;
    while i < v.len()
        invariant
            i <= v@.len(),
            r@ == keep(v@.take(i as int), glow_alive(now as nat)),
        decreases v.len() - i,
    {
        assert(v@.take(i + 1).drop_last() =~= v@.take(i as int));
        assert(v@.take(i + 1).last() == v@[i as int]);
        if v[i].until_ms > now {
            r.push(v[i]);
        }
        i += 1;
    }
    assert(v@.take(v@.len() as int) =~= v@);
    r
}

fn keep_trails_alive(v: &Vec<LineTrail>, now: u64) -> (r: Vec<LineTrail>)
    ensures
        r@ == keep(v@, trail_alive(now as nat)),
{
    let mut r: Vec<LineTrail> = Vec::new();
    let mut i: usize = 0;
    while i < v.len()
        invariant
            i <= v@.len(),
            r@ == keep(v@.take(i as int), trail_alive(now as nat)),
        decreases v.len() - i,
    {
        assert(v@.take(i + 1).drop_last() =~= v@.take(i as int));
        assert(v@.take(i + 1).last() == v@[i as int]);
        if v[i].until_ms > now {
            r.push(v[i]);
        }
        i += 1;
    }
    assert(v@.take(v@.len() as int) =~= v@);
    r
}

fn keep_ripples(v: &Vec<Ripple>, bound: u64, by_origin: bool) -> (r: Vec<Ripple>)
    ensures
        r@ == if by_origin {
            keep(v@, ripple_below(bound as nat))
        } else {
            keep(v@, ripple_alive(bound as nat))
        },
{
    let ghost pred = if by_origin {
        ripple_below(bound as nat)
    } else {
        ripple_alive(bound as nat)
    };
    let mut r: Vec<Ripple> = Vec::new();
    let mut i: usize = 0;
    while i < v.len()
        invariant
            i <= v@.len(),
            pred == (if by_origin {
                ripple_below(bound as nat)
            } else {
                ripple_alive(bound as nat)
            }),
            r@ == keep(v@.take(i as int), pred),
        decreases v.len() - i,
    {
        assert(v@.take(i + 1).drop_last() =~= v@.take(i as int));
        assert(v@.take(i + 1).last() == v@[i as int]);
        let ok = if by_origin {
            (v[i].origin as u64) < bound
        } else {
            v[i].until_ms > bound
        };
        if ok {
            r.push(v[i]);
        }
        i += 1;
    }
    assert(v@.take(v@.len() as int) =~= v@);
    r
}

fn keep_segments(v: &Vec<CursorSegment>, bound: u64, by_origin: bool) -> (r: Vec<CursorSegment>)
    ensures
        r@ == if by_origin {
            keep(v@, segment_below(bound as nat))
        } else {
            keep(v@, segment_alive(bound as nat))
        },
{
    let ghost pred = if by_origin {
        segment_below(bound as nat)
    } else {
        segment_alive(bound as nat)
    };
    let mut r: Vec<CursorSegment> = Vec::new();
    let mut i: usize = 0;
    while i < v.len()
        invariant
            i <= v@.len(),
            pred == (if by_origin {
                segment_below(bound as nat)
            } else {
                segment_alive(bound as nat)
            }),
            r@ == keep(v@.take(i as int), pred),
        decreases v.len() - i,
    {
        assert(v@.take(i + 1).drop_last() =~= v@.take(i as int));
        assert(v@.take(i + 1).last() == v@[i as int]);
        let ok = if by_origin {
            (v[i].origin as u64) < bound
        } else {
            v[i].until_ms > bound
        };
        if ok {
            r.push(v[i]);
        }
        i += 1;
    }
    assert(v@.take(v@.len() as int) =~= v@);
    r
}

fn line_index_at(chars: &Vec<char>, index: usize) -> (n: usize)
    ensures
        n == line_at(chars@, index as nat),
{
    let i = if index < chars.len() {
        index
    } else {
        chars.len()
    };
    let head = subrange(chars.as_slice(), 0, i);
    assert(head@ =~= chars@.take(i as int));
    count_chars(head.as_slice(), '\n')
}

fn column_index_at(chars: &Vec<char>, index: usize) -> (n: usize)
    ensures
        n == column_at(chars@, index as nat),
{
    let i = if index < chars.len() {
        index
    } else {
        chars.len()
    };
    let head = subrange(chars.as_slice(), 0, i);
    assert(head@ =~= chars@.take(i as int));
    match last_char_pos(head.as_slice(), '\n') {
        Some(nl) => i - nl - 1,
        None => i,
    }
}

fn cursor_cell_at(chars: &Vec<char>, index: usize) -> (c: CursorCell)
    ensures
        c == cell_at(chars@, index as nat),
{
    CursorCell { line: line_index_at(chars, index), column: column_index_at(chars, index) }
}

fn scale_ms(intensity: FxIntensity, base: u64) -> (ms: u64)
    requires
        base <= 1000,
    ensures
        ms == scale_spec(intensity, base as nat),
{
    (base * intensity.lifetime_tenths() + 5) / 10
}

fn contains_index(v: &Vec<usize>, x: usize) -> (b: bool)
    ensures
        b == v@.contains(x),
{
    let mut i: usize = 0;
    while i < v.len()
        invariant
            i <= v@.len(),
            forall|q: int| 0 <= q < i ==> v@[q] != x,
        decreases v.len() - i,
    {
        if v[i] == x {
            assert(v@[i as int] == x);
            return true;
        }
        i += 1;
    }
    false
}

impl Default for FxState {
    fn default() -> (s: Self)
        ensures
            s@ == fresh_model(FxIntensity::Normal, FxPreset::Classic),
    {
        FxState::with_config(FxIntensity::Normal, FxPreset::Classic)
    }
}

impl FxState {
    pub fn new() -> (s: Self)
        ensures
            s@ == fresh_model(FxIntensity::Normal, FxPreset::Classic),
    {
        FxState::with_config(FxIntensity::Normal, FxPreset::Classic)
    }

    pub fn with_intensity(intensity: FxIntensity) -> (s: Self)
        ensures
            s@ == fresh_model(intensity, FxPreset::Classic),
    {
        FxState::with_config(intensity, FxPreset::Classic)
    }

    pub fn with_config(intensity: FxIntensity, preset: FxPreset) -> (s: Self)
        ensures
            s@ == fresh_model(intensity, preset),
    {
        let s = FxState {
            prev_cursor: None,
            prev_cell: None,
            prev_misses: 0,
            streak: 0,
            glows: Vec::new(),
            trails: Vec::new(),
            ripples: Vec::new(),
            cursor_segments: Vec::new(),
            intensity,
            preset,
        };
        assert(s@ =~= fresh_model(intensity, preset));
        s
    }

    fn clear_transient(&mut self)
        ensures
            final(self)@ == cleared(old(self)@),
    {
        self.glows = Vec::new();
        self.trails = Vec::new();
        self.ripples = Vec::new();
        self.cursor_segments = Vec::new();
        assert(self@ =~= cleared(old(self)@));
    }

    /// Change the intensity; turning effects off drops the running ones.
    pub fn set_intensity(&mut self, intensity: FxIntensity)
        ensures
            final(self)@ == (if intensity == FxIntensity::Off {
                FxModel { intensity, ..cleared(old(self)@) }
            } else {
                FxModel { intensity, ..old(self)@ }
            }),
    {
        self.intensity = intensity;
        if intensity == FxIntensity::Off {
            self.clear_transient();
        }
    }

    /// Change the preset; a different preset drops the running effects.
    pub fn set_preset(&mut self, preset: FxPreset)
        ensures
            final(self)@ == (if old(self)@.preset != preset {
                FxModel { preset, ..cleared(old(self)@) }
            } else {
                old(self)@
            }),
    {
        if self.preset != preset {
            self.clear_transient();
        }
        self.preset = preset;
    }

    pub fn preset(&self) -> (p: FxPreset)
        ensures
            p == self@.preset,
    {
        self.preset
    }

    pub fn intensity(&self) -> (i: FxIntensity)
        ensures
            i == self@.intensity,
    {
        self.intensity
    }

    /// Current no-miss streak (accepted keystrokes since the last miss).
    pub fn streak(&self) -> (s: u32)
        ensures
            s == self@.streak,
    {
        self.streak
    }

    /// Set the streak, as a session restored part-way would.
    pub fn set_streak(&mut self, streak: u32)
        ensures
            final(self)@ == (FxModel { streak, ..old(self)@ }),
    {
        self.streak = streak;
    }

    /// Streak tier 0..=3.
    pub fn tier(&self) -> (t: u8)
        ensures
            t as nat == tier_of(self@.streak as nat),
    {
        if self.streak >= 250 {
            3
        } else if self.streak >= 100 {
            2
        } else if self.streak >= 30 {
            1
        } else {
            0
        }
    }

    /// The running afterglows.
    pub fn glows(&self) -> (g: &Vec<Afterglow>)
        ensures
            g@ == self@.glows,
    {
        &self.glows
    }

    /// The running line trails.
    pub fn trails(&self) -> (t: &Vec<LineTrail>)
        ensures
            t@ == self@.trails,
    {
        &self.trails
    }

    /// The running ripples.
    pub fn ripples(&self) -> (r: &Vec<Ripple>)
        ensures
            r@ == self@.ripples,
    {
        &self.ripples
    }

    /// The running cursor trails, oldest first.
    pub fn cursor_segments(&self) -> (s: &Vec<CursorSegment>)
        ensures
            s@ == self@.segments,
    {
        &self.cursor_segments
    }

    /// Drop expired effects.
    pub fn prune(&mut self, now_ms: u64)
        ensures
            final(self)@ == pruned(old(self)@, now_ms as nat),
    {
        self.glows = keep_glows_alive(&self.glows, now_ms);
        self.trails = keep_trails_alive(&self.trails, now_ms);
        self.ripples = keep_ripples(&self.ripples, now_ms, false);
        self.cursor_segments = keep_segments(&self.cursor_segments, now_ms, false);
        assert(self@ =~= pruned(old(self)@, now_ms as nat));
    }

    fn register_segment(&mut self, seg: CursorSegment, ms: u64)
        ensures
            final(self)@ == (FxModel {
                segments: with_segment(old(self)@.segments, seg, ms as nat),
                ..old(self)@
            }),
    {
        if ms == 0 {
            return;
        }
        self.cursor_segments.push(seg);
        if self.cursor_segments.len() > 32 {
            let excess = self.cursor_segments.len() - 32;
            let mut kept: Vec<CursorSegment> = Vec::new();
            let mut k: usize = excess;
            while k < self.cursor_segments.len()
                invariant
                    excess <= k <= self.cursor_segments@.len(),
                    kept@ == self.cursor_segments@.subrange(excess as int, k as int),
                decreases self.cursor_segments.len() - k,
            {
                kept.push(self.cursor_segments[k]);
                assert(self.cursor_segments@.subrange(excess as int, k + 1) =~= self.cursor_segments@.subrange(
                    excess as int,
                    k as int,
                ).push(self.cursor_segments@[k as int]));
                k += 1;
            }
            assert(kept@ =~= self.cursor_segments@.skip(excess as int));
            self.cursor_segments = kept;
        }
        assert(self@ =~= FxModel {
            segments: with_segment(old(self)@.segments, seg, ms as nat),
            ..old(self)@
        });
    }

    /// Ingest the latest snapshot, deriving keystroke / newline / miss events
    /// from the difference with the previously observed snapshot.
    pub fn observe(&mut self, snap: &TypingSnapshot, now_ms: u64)
        requires
            now_ms <= u64::MAX - 1000,
        ensures
            final(self)@ == observed(
                old(self)@,
                snap.target@,
                snap.cursor as nat,
                snap.misses,
                snap.auto_inserted@,
                now_ms as nat,
            ),
    {
        let chars = chars_of(snap.target.as_str());
        let here = cursor_cell_at(&chars, snap.cursor);
        if self.intensity == FxIntensity::Off {
            self.prev_cursor = Some(snap.cursor);
            self.prev_cell = Some(here);
            self.prev_misses = snap.misses;
            self.streak = 0;
            self.clear_transient();
            return;
        }
        if snap.misses > self.prev_misses {
            self.streak = 0;
            self.ripples = Vec::new();
            self.cursor_segments = Vec::new();
        }
        self.prev_misses = snap.misses;
        let ghost m2 = self@;
        match self.prev_cursor {
            None => {},
            Some(prev) => {
                if snap.cursor > prev {
                    let tier = self.tier() as u64;
                    let glow_ms = scale_ms(self.intensity, 120 + 40 * tier);
                    let trail_ms = scale_ms(self.intensity, 150);
                    let ripple_ms = scale_ms(self.intensity, 420);
                    let base: u64 = match self.preset {
                        FxPreset::Classic | FxPreset::Ripple => 100,
                        FxPreset::Blaze => 300,
                        FxPreset::Smear => 600,
                    };
                    let cursor_ms = scale_ms(self.intensity, base);
                    let previous_cell = match self.prev_cell {
                        Some(c) => c,
                        None => cursor_cell_at(&chars, prev),
                    };
                    let ghost ctx = StepCtx {
                        chars: chars@,
                        auto: snap.auto_inserted@,
                        now: now_ms as nat,
                        start: prev as nat,
                        start_cell: previous_cell,
                        glow_ms: glow_ms as nat,
                        trail_ms: trail_ms as nat,
                        ripple_ms: ripple_ms as nat,
                        cursor_ms: cursor_ms as nat,
                    };
                    let mut idx = prev;
                    while idx < snap.cursor
                        invariant
                            prev <= idx <= snap.cursor,
                            self@ == advance(m2, (idx - prev) as nat, ctx),
                            ctx.chars == chars@,
                            ctx.auto == snap.auto_inserted@,
                            ctx.now == now_ms,
                            ctx.start == prev,
                            ctx.start_cell == previous_cell,
                            ctx.glow_ms == glow_ms,
                            ctx.trail_ms == trail_ms,
                            ctx.ripple_ms == ripple_ms,
                            ctx.cursor_ms == cursor_ms,
                            glow_ms <= 500,
                            trail_ms <= 500,
                            ripple_ms <= 1000,
                            cursor_ms <= 1000,
                            now_ms <= u64::MAX - 1000,
                        decreases snap.cursor - idx,
                    {
                        let ghost before = self@;
                        let auto = contains_index(&snap.auto_inserted, idx);
                        if !auto {
                            self.streak = self.streak.saturating_add(1);
                            if glow_ms > 0 {
                                self.glows.push(
                                    Afterglow { index: idx, start_ms: now_ms, until_ms: now_ms + glow_ms },
                                );
                            }
                            let from = if idx == prev {
                                previous_cell
                            } else {
                                cursor_cell_at(&chars, idx)
                            };
                            let to = cursor_cell_at(&chars, idx + 1);
                            self.register_segment(
                                CursorSegment {
                                    origin: idx,
                                    from,
                                    to,
                                    start_ms: now_ms,
                                    until_ms: now_ms + cursor_ms,
                                },
                                cursor_ms,
                            );
                            if self.preset == FxPreset::Ripple && ripple_ms > 0 {
                                let line = line_index_at(&chars, idx);
                                let column = column_index_at(&chars, idx);
                                self.ripples.push(
                                    Ripple {
                                        origin: idx,
                                        line,
                                        column,
                                        start_ms: now_ms,
                                        until_ms: now_ms + ripple_ms,
                                    },
                                );
                            }
                        }
                        if idx < chars.len() && chars[idx] == '\n' && trail_ms > 0 {
                            let head = subrange(chars.as_slice(), 0, idx);
                            assert(head@ =~= chars@.take(idx as int));
                            let line = count_chars(head.as_slice(), '\n');
                            self.trails.push(
                                LineTrail { line, start_ms: now_ms, until_ms: now_ms + trail_ms },
                            );
                        }
                        assert(self@ =~= step(before, idx as nat, ctx));
                        idx += 1;
                    }
                } else if snap.cursor < prev {
                    self.glows = keep_glows_below(&self.glows, snap.cursor);
                    self.ripples = keep_ripples(&self.ripples, snap.cursor as u64, true);
                    self.cursor_segments = keep_segments(&self.cursor_segments, snap.cursor as u64, true);
                }
            },
        }
        self.prev_cursor = Some(snap.cursor);
        self.prev_cell = Some(here);
        self.prune(now_ms);
    }
}

} // verus!
