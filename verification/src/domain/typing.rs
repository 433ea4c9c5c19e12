//! I/O-free typing state machine.

use vstd::prelude::*;

use crate::domain::content::TypingCheckpoint;
use crate::text::{chars_of, string_of};

verus! {

/// Normalized input from the terminal layer.
#[derive(Debug, Clone, PartialEq, Eq)]
pub enum TypingCommand {
    Char(char),
    Enter,
    Backspace,
    Escape,
    /// Advance clock for miss highlight expiry (and elapsed time).
    Tick { now_ms: u64 },
}

#[derive(Debug, Clone, Copy, PartialEq, Eq, Structural)]
pub enum SessionState {
    Active,
    Completed,
    Interrupted,
}

/// Snapshot suitable for UI rendering.
#[derive(Debug, Clone, PartialEq)]
pub struct TypingSnapshot {
    pub state: SessionState,
    /// Full normalized target text.
    pub target: String,
    /// Number of accepted characters (including auto-indent and newlines).
    pub cursor: usize,
    /// Expected next character, if any.
    pub expected: Option<char>,
    /// Until when (ms) the expected char should flash red.
    pub miss_until_ms: Option<u64>,
    pub keystrokes: u32,
    pub misses: u32,
    pub elapsed_ms: u64,
    pub started_at_ms: u64,
    /// Indices that were auto-inserted (indent); excluded from keystroke counts.
    pub auto_inserted: Vec<usize>,
}

#[derive(Debug, Clone, PartialEq, Eq, Structural)]
pub enum TypingRestoreError {
    CursorOutOfBounds { cursor: usize, target_len: usize },
    CursorInsideAutoIndent { cursor: usize },
}

/// Forced-correction typing engine with auto-indent.
#[derive(Debug)]
pub struct TypingEngine {
    target: Vec<char>,
    /// Positions that were auto-inserted and must not count as keystrokes.
    auto_inserted: Vec<bool>,
    cursor: usize,
    keystrokes: u32,
    misses: u32,
    state: SessionState,
    miss_until_ms: Option<u64>,
    started_at_ms: u64,
    now_ms: u64,
    allow_backspace: bool,
    auto_indent: bool,
    tab_width: usize,
}

/// How long a miss keeps the expected character highlighted.
pub const MISS_FLASH_MS: u64 = 150;

/// The abstract state of a typing session.
pub ghost struct EngineModel {
    pub target: Seq<char>,
    pub auto_inserted: Seq<bool>,
    pub cursor: nat,
    pub keystrokes: nat,
    pub misses: nat,
    pub state: SessionState,
    pub miss_until_ms: Option<u64>,
    pub started_at_ms: u64,
    pub now_ms: u64,
    pub allow_backspace: bool,
    pub auto_indent: bool,
    pub tab_width: nat,
}

/// `i` lies in the run of spaces that opens its line.
pub open spec fn in_lead(t: Seq<char>, i: int) -> bool
    decreases i,
{
    if 0 <= i < t.len() && t[i] == ' ' {
        if i == 0 {
            true
        } else if t[i - 1] == '\n' {
            true
        } else {
            in_lead(t, i - 1)
        }
    } else {
        false
    }
}

/// `i` is the first position of a line.
pub open spec fn at_line_start(t: Seq<char>, i: int) -> bool {
    i == 0 || (0 < i <= t.len() && t[i - 1] == '\n')
}

/// The first position at or after `i` that is not a space.
pub open spec fn skip_spaces(t: Seq<char>, i: nat) -> nat
    decreases t.len() - i,
{
    if i < t.len() && t[i as int] == ' ' {
        skip_spaces(t, i + 1)
    } else {
        i
    }
}

/// The auto-indent flags of a session that has reached `cursor`.
pub open spec fn lead_flags(t: Seq<char>, cursor: nat, auto_indent: bool) -> Seq<bool> {
    Seq::new(t.len(), |i: int| auto_indent && in_lead(t, i) && i < cursor)
}

pub open spec fn sat_add(a: u64, b: u64) -> u64 {
    if a + b > u64::MAX {
        u64::MAX
    } else {
        (a + b) as u64
    }
}

pub open spec fn sat_sub(a: u64, b: u64) -> u64 {
    if a >= b {
        (a - b) as u64
    } else {
        0
    }
}

impl EngineModel {
    /// Time spent typing so far.
    pub open spec fn elapsed(self) -> u64 {
        sat_sub(self.now_ms, self.started_at_ms)
    }

    /// The invariant every session keeps between commands.
    pub open spec fn wf(self) -> bool {
        &&& self.auto_inserted.len() == self.target.len()
        &&& self.cursor <= self.target.len()
        &&& self.tab_width >= 1
        &&& (self.state == SessionState::Active ==> self.cursor < self.target.len())
        &&& (self.state == SessionState::Completed ==> self.cursor == self.target.len())
        &&& self.auto_inserted == lead_flags(self.target, self.cursor, self.auto_indent)
        &&& (self.auto_indent && self.cursor < self.target.len() ==> !in_lead(
            self.target,
            self.cursor as int,
        ))
    }

    /// Jump over the indentation of the line the cursor has just reached.
    pub open spec fn indented(self) -> EngineModel {
        if !self.auto_indent || self.cursor >= self.target.len() || !at_line_start(
            self.target,
            self.cursor as int,
        ) {
            self
        } else {
            let e = skip_spaces(self.target, self.cursor);
            EngineModel {
                cursor: e,
                auto_inserted: Seq::new(
                    self.target.len(),
                    |i: int|
                        if self.cursor <= i < e {
                            true
                        } else {
                            self.auto_inserted[i]
                        },
                ),
                ..self
            }
        }
    }

    /// One typed character.
    pub open spec fn typed(self, input: char) -> EngineModel {
        if self.cursor >= self.target.len() {
            self
        } else if input == self.target[self.cursor as int] {
            let advanced = EngineModel {
                cursor: self.cursor + 1,
                keystrokes: if self.auto_inserted[self.cursor as int] {
                    self.keystrokes
                } else {
                    self.keystrokes + 1
                },
                miss_until_ms: None,
                ..self
            };
            let indented = advanced.indented();
            if indented.cursor >= indented.target.len() {
                EngineModel { state: SessionState::Completed, ..indented }
            } else {
                indented
            }
        } else {
            EngineModel {
                misses: self.misses + 1,
                miss_until_ms: Some(sat_add(self.now_ms, MISS_FLASH_MS)),
                ..self
            }
        }
    }

    /// `count` spaces, stopping once the session is no longer active.
    pub open spec fn typed_spaces(self, count: nat) -> EngineModel
        decreases count,
    {
        if count == 0 || self.state != SessionState::Active {
            self
        } else {
            self.typed(' ').typed_spaces((count - 1) as nat)
        }
    }

    /// Backspace: step back over one typed character, never over auto-indent.
    pub open spec fn backspaced(self) -> EngineModel {
        if !self.allow_backspace || self.cursor == 0 || self.auto_inserted[self.cursor - 1] {
            self
        } else {
            EngineModel { cursor: (self.cursor - 1) as nat, ..self }
        }
    }

    /// The session after one command.
    pub open spec fn applied(self, cmd: TypingCommand) -> EngineModel {
        if self.state != SessionState::Active {
            self
        } else {
            match cmd {
                TypingCommand::Tick { now_ms } => EngineModel {
                    now_ms: now_ms,
                    miss_until_ms: match self.miss_until_ms {
                        Some(until) => if now_ms >= until {
                            None
                        } else {
                            Some(until)
                        },
                        None => None,
                    },
                    ..self
                },
                TypingCommand::Escape => EngineModel { state: SessionState::Interrupted, ..self },
                TypingCommand::Backspace => self.backspaced(),
                TypingCommand::Enter => self.typed('\n'),
                TypingCommand::Char(c) => if c == '\n' {
                    self.typed('\n')
                } else if c == '\t' {
                    self.typed_spaces(self.tab_width)
                } else {
                    self.typed(c)
                },
            }
        }
    }

    /// The counters of a command cannot overflow.
    pub open spec fn fits(self, cmd: TypingCommand) -> bool {
        let room = match cmd {
            TypingCommand::Char(c) => if c == '\t' {
                self.tab_width
            } else {
                1
            },
            TypingCommand::Enter => 1,
            _ => 0,
        };
        self.keystrokes + room <= u32::MAX && self.misses + room <= u32::MAX
    }
}

/// Indices of the set flags, in increasing order.
pub open spec fn true_indices(flags: Seq<bool>) -> Seq<usize>
    decreases flags.len(),
{
    if flags.len() == 0 {
        Seq::empty()
    } else {
        true_indices(flags.drop_last()) + if flags.last() {
            seq![(flags.len() - 1) as usize]
        } else {
            Seq::empty()
        }
    }
}

/// The session a checkpoint restores, or why it cannot.
pub open spec fn restored(
    target: Seq<char>,
    now_ms: u64,
    cp: TypingCheckpoint,
    allow_backspace: bool,
    tab_width: usize,
) -> Result<EngineModel, TypingRestoreError> {
    if cp.cursor > target.len() {
        Err(TypingRestoreError::CursorOutOfBounds { cursor: cp.cursor, target_len: target.len() as usize })
    } else if cp.auto_indent && cp.cursor < target.len() && in_lead(target, cp.cursor as int) {
        Err(TypingRestoreError::CursorInsideAutoIndent { cursor: cp.cursor })
    } else {
        Ok(
            EngineModel {
                target,
                auto_inserted: lead_flags(target, cp.cursor as nat, cp.auto_indent),
                cursor: cp.cursor as nat,
                keystrokes: cp.keystrokes as nat,
                misses: cp.misses as nat,
                state: if cp.cursor >= target.len() {
                    SessionState::Completed
                } else {
                    SessionState::Active
                },
                miss_until_ms: None,
                started_at_ms: sat_sub(now_ms, cp.elapsed_ms),
                now_ms,
                allow_backspace,
                auto_indent: cp.auto_indent,
                tab_width: if tab_width >= 1 {
                    tab_width as nat
                } else {
                    1
                },
            },
        )
    }
}

/// A fresh session over `target`.
pub open spec fn fresh(
    target: Seq<char>,
    started_at_ms: u64,
    allow_backspace: bool,
    auto_indent: bool,
    tab_width: usize,
) -> EngineModel {
    let start = EngineModel {
        target,
        auto_inserted: Seq::new(target.len(), |i: int| false),
        cursor: 0,
        keystrokes: 0,
        misses: 0,
        state: SessionState::Active,
        miss_until_ms: None,
        started_at_ms,
        now_ms: started_at_ms,
        allow_backspace,
        auto_indent,
        tab_width: if tab_width >= 1 {
            tab_width as nat
        } else {
            1
        },
    };
    let indented = start.indented();
    if indented.cursor >= target.len() {
        EngineModel { state: SessionState::Completed, ..indented }
    } else {
        indented
    }
}

pub proof fn lemma_skip_spaces(t: Seq<char>, i: nat)
    requires
        i <= t.len(),
    ensures
        i <= skip_spaces(t, i) <= t.len(),
        forall|j: int| i <= j < skip_spaces(t, i) ==> t[j] == ' ',
        skip_spaces(t, i) < t.len() ==> t[skip_spaces(t, i) as int] != ' ',
    decreases t.len() - i,
{
    if i < t.len() && t[i as int] == ' ' {
        lemma_skip_spaces(t, i + 1);
    }
}

/// Positions from a line start up to the first non-space are all leading space.
pub proof fn lemma_lead_run(t: Seq<char>, s: nat)
    requires
        s < t.len(),
        at_line_start(t, s as int),
    ensures
        forall|j: int| s <= j < skip_spaces(t, s) ==> in_lead(t, j),
        skip_spaces(t, s) < t.len() ==> !in_lead(t, skip_spaces(t, s) as int),
{
    lemma_skip_spaces(t, s);
    let e = skip_spaces(t, s);
    assert forall|j: int| s <= j < e implies in_lead(t, j) by {
        lemma_lead_run_at(t, s, e, j);
    }
}

proof fn lemma_lead_run_at(t: Seq<char>, s: nat, e: nat, j: int)
    requires
        s < t.len(),
        at_line_start(t, s as int),
        e <= t.len(),
        forall|k: int| s <= k < e ==> t[k] == ' ',
        s <= j < e,
    ensures
        in_lead(t, j),
    decreases j - s,
{
    if j > s {
        lemma_lead_run_at(t, s, e, j - 1);
    }
}

/// Stepping over a character that is neither leading space nor a newline
/// cannot land inside leading space.
pub proof fn lemma_lead_step(t: Seq<char>, p: int)
    requires
        0 <= p,
        p + 1 < t.len(),
        !in_lead(t, p),
        t[p] != '\n',
    ensures
        !in_lead(t, p + 1),
{
}

pub proof fn lemma_indented_wf(m: EngineModel)
    requires
        m.auto_inserted.len() == m.target.len(),
        m.cursor <= m.target.len(),
        m.tab_width >= 1,
        m.auto_inserted == lead_flags(m.target, m.cursor, m.auto_indent),
        m.auto_indent && m.cursor < m.target.len() && !at_line_start(m.target, m.cursor as int)
            ==> !in_lead(m.target, m.cursor as int),
    ensures
        m.indented().auto_inserted == lead_flags(m.target, m.indented().cursor, m.auto_indent),
        m.indented().cursor <= m.target.len(),
        m.cursor <= m.indented().cursor,
        m.indented().auto_inserted.len() == m.target.len(),
        m.auto_indent && m.indented().cursor < m.target.len() ==> !in_lead(
            m.target,
            m.indented().cursor as int,
        ),
        m.indented().target == m.target,
        m.indented().keystrokes == m.keystrokes,
        m.indented().misses == m.misses,
        m.indented().state == m.state,
{
    let t = m.target;
    if !m.auto_indent || m.cursor >= t.len() || !at_line_start(t, m.cursor as int) {
    } else {
        lemma_skip_spaces(t, m.cursor);
        lemma_lead_run(t, m.cursor);
        let e = skip_spaces(t, m.cursor);
        assert(m.indented().auto_inserted =~= lead_flags(t, e, m.auto_indent)) by {
            assert forall|i: int| 0 <= i < t.len() implies m.indented().auto_inserted[i]
                == lead_flags(t, e, m.auto_indent)[i] by {
                if m.cursor <= i < e {
                } else if i < m.cursor {
                } else {
                }
            }
        }
    }
}

pub proof fn lemma_typed_wf(m: EngineModel, c: char)
    requires
        m.wf(),
        m.state == SessionState::Active,
    ensures
        m.typed(c).wf(),
        m.typed(c).keystrokes >= m.keystrokes,
        m.typed(c).misses >= m.misses,
        m.typed(c).keystrokes + m.typed(c).misses <= m.keystrokes + m.misses + 1,
        m.typed(c).target == m.target,
        m.typed(c).state != SessionState::Interrupted,
        m.typed(c).started_at_ms == m.started_at_ms,
        m.typed(c).now_ms == m.now_ms,
        m.typed(c).allow_backspace == m.allow_backspace,
        m.typed(c).auto_indent == m.auto_indent,
        m.typed(c).tab_width == m.tab_width,
{
    let t = m.target;
    if m.cursor < t.len() && c == t[m.cursor as int] {
        let advanced = EngineModel {
            cursor: m.cursor + 1,
            keystrokes: if m.auto_inserted[m.cursor as int] {
                m.keystrokes
            } else {
                m.keystrokes + 1
            },
            miss_until_ms: None,
            ..m
        };
        assert(advanced.auto_inserted =~= lead_flags(t, advanced.cursor, m.auto_indent)) by {
            assert forall|i: int| 0 <= i < t.len() implies advanced.auto_inserted[i]
                == lead_flags(t, advanced.cursor, m.auto_indent)[i] by {
                if i == m.cursor {
                    assert(!(m.auto_indent && in_lead(t, i)));
                }
            }
        }
        if m.auto_indent && advanced.cursor < t.len() && !at_line_start(t, advanced.cursor as int) {
            lemma_lead_step(t, m.cursor as int);
        }
        lemma_indented_wf(advanced);
    }
}

pub proof fn lemma_typed_spaces_wf(m: EngineModel, count: nat)
    requires
        m.wf(),
        m.state != SessionState::Interrupted,
    ensures
        m.typed_spaces(count).wf(),
        m.typed_spaces(count).keystrokes >= m.keystrokes,
        m.typed_spaces(count).misses >= m.misses,
        m.typed_spaces(count).keystrokes + m.typed_spaces(count).misses <= m.keystrokes
            + m.misses + count,
        m.typed_spaces(count).target == m.target,
        m.typed_spaces(count).state != SessionState::Interrupted,
        m.typed_spaces(count).started_at_ms == m.started_at_ms,
        m.typed_spaces(count).now_ms == m.now_ms,
        m.typed_spaces(count).allow_backspace == m.allow_backspace,
        m.typed_spaces(count).auto_indent == m.auto_indent,
        m.typed_spaces(count).tab_width == m.tab_width,
    decreases count,
{
    if count == 0 || m.state != SessionState::Active {
    } else {
        lemma_typed_wf(m, ' ');
        lemma_typed_spaces_wf(m.typed(' '), (count - 1) as nat);
    }
}

/// Every command keeps a session well formed, never lowers the keystroke or
/// miss counters, and never changes the target text.
pub proof fn law_command_keeps_session(m: EngineModel, cmd: TypingCommand)
    requires
        m.wf(),
    ensures
        m.applied(cmd).wf(),
        m.applied(cmd).keystrokes >= m.keystrokes,
        m.applied(cmd).misses >= m.misses,
        m.applied(cmd).target == m.target,
        m.applied(cmd).started_at_ms == m.started_at_ms,
{
    if m.state == SessionState::Active {
        match cmd {
            TypingCommand::Enter => {
                lemma_typed_wf(m, '\n');
            },
            TypingCommand::Char(c) => {
                if c == '\n' {
                    lemma_typed_wf(m, '\n');
                } else if c == '\t' {
                    lemma_typed_spaces_wf(m, m.tab_width);
                } else {
                    lemma_typed_wf(m, c);
                }
            },
            TypingCommand::Backspace => {
                let b = m.backspaced();
                if b.cursor != m.cursor {
                    assert(b.auto_inserted =~= lead_flags(m.target, b.cursor, m.auto_indent)) by {
                        assert forall|i: int| 0 <= i < m.target.len() implies b.auto_inserted[i]
                            == lead_flags(m.target, b.cursor, m.auto_indent)[i] by {
                            if i == b.cursor {
                                assert(!m.auto_inserted[i]);
                            }
                        }
                    }
                }
            },
            _ => {},
        }
    }
}

/// In an active session, a typed character (other than a tab, which types
/// spaces) moves the cursor forward exactly when it is the character expected
/// at the cursor, without a miss; any other character leaves the cursor, the
/// keystrokes and the state as they were and counts exactly one miss.
pub proof fn law_only_the_expected_character_advances(m: EngineModel, c: char)
    requires
        m.wf(),
        m.state == SessionState::Active,
        c != '\t',
    ensures
        c == m.target[m.cursor as int] ==> m.applied(TypingCommand::Char(c)).cursor > m.cursor
            && m.applied(TypingCommand::Char(c)).misses == m.misses,
        c != m.target[m.cursor as int] ==> {
            let r = m.applied(TypingCommand::Char(c));
            &&& r.cursor == m.cursor
            &&& r.misses == m.misses + 1
            &&& r.keystrokes == m.keystrokes
            &&& r.state == SessionState::Active
            &&& r.target == m.target
        },
{
    if c == m.target[m.cursor as int] {
        let advanced = EngineModel {
            cursor: m.cursor + 1,
            keystrokes: if m.auto_inserted[m.cursor as int] {
                m.keystrokes
            } else {
                m.keystrokes + 1
            },
            miss_until_ms: None,
            ..m
        };
        if advanced.auto_indent && advanced.cursor < advanced.target.len() && at_line_start(
            advanced.target,
            advanced.cursor as int,
        ) {
            lemma_skip_spaces(advanced.target, advanced.cursor);
        }
    }
}

/// A finished or interrupted session is left as it is by every command,
/// a clock tick included.
pub proof fn law_inactive_session_is_unchanged(m: EngineModel, cmd: TypingCommand)
    requires
        m.state != SessionState::Active,
    ensures
        m.applied(cmd) == m,
{
}

/// Backspace never steps back over auto-inserted indentation.
pub proof fn law_backspace_keeps_indent(m: EngineModel)
    requires
        m.wf(),
    ensures
        m.applied(TypingCommand::Backspace).cursor < m.cursor ==> !m.auto_inserted[m.applied(
            TypingCommand::Backspace,
        ).cursor as int],
        m.applied(TypingCommand::Backspace).cursor + 1 >= m.cursor,
        m.applied(TypingCommand::Backspace).auto_inserted == m.auto_inserted,
        m.applied(TypingCommand::Backspace).keystrokes == m.keystrokes,
        m.applied(TypingCommand::Backspace).misses == m.misses,
{
}

/// Resuming rebases the clock so that the paused interval is not counted.
pub proof fn law_resume_keeps_elapsed(m: EngineModel, now_ms: u64)
    requires
        m.elapsed() <= now_ms,
    ensures
        (EngineModel {
            started_at_ms: sat_sub(now_ms, m.elapsed()),
            now_ms,
            ..m
        }).elapsed() == m.elapsed(),
{
}

/// A checkpoint taken from a session restores the same position, counters,
/// auto-indent and elapsed time.
pub proof fn law_checkpoint_roundtrip(
    m: EngineModel,
    cp: TypingCheckpoint,
    now_ms: u64,
    allow_backspace: bool,
    tab_width: usize,
)
    requires
        m.wf(),
        cp.cursor == m.cursor,
        cp.keystrokes == m.keystrokes,
        cp.misses == m.misses,
        cp.elapsed_ms == m.elapsed(),
        cp.auto_indent == m.auto_indent,
        m.elapsed() <= now_ms,
    ensures
        restored(m.target, now_ms, cp, allow_backspace, tab_width) is Ok,
        restored(m.target, now_ms, cp, allow_backspace, tab_width)->Ok_0.cursor == m.cursor,
        restored(m.target, now_ms, cp, allow_backspace, tab_width)->Ok_0.auto_inserted
            == m.auto_inserted,
        restored(m.target, now_ms, cp, allow_backspace, tab_width)->Ok_0.keystrokes
            == m.keystrokes,
        restored(m.target, now_ms, cp, allow_backspace, tab_width)->Ok_0.misses == m.misses,
        restored(m.target, now_ms, cp, allow_backspace, tab_width)->Ok_0.elapsed()
            == m.elapsed(),
        restored(m.target, now_ms, cp, allow_backspace, tab_width)->Ok_0.wf(),
{
}

impl View for TypingEngine {
    type V = EngineModel;

    closed spec fn view(&self) -> EngineModel {
        EngineModel {
            target: self.target@,
            auto_inserted: self.auto_inserted@,
            cursor: self.cursor as nat,
            keystrokes: self.keystrokes as nat,
            misses: self.misses as nat,
            state: self.state,
            miss_until_ms: self.miss_until_ms,
            started_at_ms: self.started_at_ms,
            now_ms: self.now_ms,
            allow_backspace: self.allow_backspace,
            auto_indent: self.auto_indent,
            tab_width: self.tab_width as nat,
        }
    }
}

impl TypingEngine {
    /// Create an engine for `normalized` chunk text.
    ///
    /// When `auto_indent` is true, leading indentation on each line is
    /// auto-inserted when the cursor reaches the start of that line.
    pub fn new(
        normalized: &str,
        started_at_ms: u64,
        allow_backspace: bool,
        auto_indent: bool,
        tab_width: usize,
    ) -> (e: Self)
        ensures
            e@ == fresh(normalized@, started_at_ms, allow_backspace, auto_indent, tab_width),
            e@.wf(),
    {
        let target = chars_of(normalized);
        let auto_inserted = vec![false; target.len()];
        let mut engine = TypingEngine {
            target,
            auto_inserted,
            cursor: 0,
            keystrokes: 0,
            misses: 0,
            state: SessionState::Active,
            miss_until_ms: None,
            started_at_ms,
            now_ms: started_at_ms,
            allow_backspace,
            auto_indent,
            tab_width: if tab_width >= 1 {
                tab_width
            } else {
                1
            },
        };
        let ghost start = engine@;
        assert(start.auto_inserted =~= Seq::new(start.target.len(), |i: int| false));
        assert(start.auto_inserted =~= lead_flags(start.target, 0, auto_indent));
        proof {
            lemma_indented_wf(start);
        }
        engine.apply_auto_indent();
        if engine.cursor >= engine.target.len() {
            engine.state = SessionState::Completed;
        }
        engine
    }

    /// Restore a suspended session without counting time spent outside the app.
    pub fn from_checkpoint(
        normalized: &str,
        now_ms: u64,
        checkpoint: &TypingCheckpoint,
        allow_backspace: bool,
        tab_width: usize,
    ) -> (r: Result<Self, TypingRestoreError>)
        ensures
            match r {
                Ok(e) => restored(normalized@, now_ms, *checkpoint, allow_backspace, tab_width)
                    == Ok::<EngineModel, TypingRestoreError>(e@),
                Err(err) => restored(normalized@, now_ms, *checkpoint, allow_backspace, tab_width)
                    == Err::<EngineModel, TypingRestoreError>(err),
            },
    {
        let target = chars_of(normalized);
        let n = target.len();
        let c = checkpoint.cursor;
        if c > n {
            return Err(TypingRestoreError::CursorOutOfBounds { cursor: c, target_len: n });
        }
        let auto = checkpoint.auto_indent;
        let mut flags: Vec<bool> = Vec::new();
        let mut prev_lead = false;
        let mut lead_at_cursor = false;
        let mut i: usize = 0;
        while i < n
            invariant
                n == target@.len(),
                target@ == normalized@,
                c <= n,
                i <= n,
                flags@.len() == i,
                forall|k: int| 0 <= k < i ==> flags@[k] == lead_flags(target@, c as nat, auto)[k],
                i > 0 ==> prev_lead == in_lead(target@, i - 1),
                c < i ==> lead_at_cursor == in_lead(target@, c as int),
            decreases n - i,
        {
            let lead = target[i] == ' ' && (i == 0 || target[i - 1] == '\n' || prev_lead);
            assert(lead == in_lead(target@, i as int));
            if i == c {
                lead_at_cursor = lead;
            }
            flags.push(auto && lead && i < c);
            prev_lead = lead;
            i += 1;
        }
        if auto && c < n && lead_at_cursor {
            return Err(TypingRestoreError::CursorInsideAutoIndent { cursor: c });
        }
        assert(flags@ =~= lead_flags(target@, c as nat, auto));
        let state = if c >= n {
            SessionState::Completed
        } else {
            SessionState::Active
        };
        Ok(
            TypingEngine {
                target,
                auto_inserted: flags,
                cursor: c,
                keystrokes: checkpoint.keystrokes,
                misses: checkpoint.misses,
                state,
                miss_until_ms: None,
                started_at_ms: now_ms.saturating_sub(checkpoint.elapsed_ms),
                now_ms,
                allow_backspace,
                auto_indent: auto,
                tab_width: if tab_width >= 1 {
                    tab_width
                } else {
                    1
                },
            },
        )
    }

    /// Rebase the clock after a pause so the paused interval is not counted.
    ///
    /// Elapsed time is derived as `now_ms - started_at_ms`, so resuming means
    /// moving the start forward by however long the pause lasted.
    pub fn resume_at(&mut self, now_ms: u64)
        ensures
            final(self)@ == (EngineModel {
                started_at_ms: sat_sub(now_ms, old(self)@.elapsed()),
                now_ms,
                ..old(self)@
            }),
    {
        let elapsed = self.now_ms.saturating_sub(self.started_at_ms);
        self.started_at_ms = now_ms.saturating_sub(elapsed);
        self.now_ms = now_ms;
    }

    pub fn snapshot(&self) -> (s: TypingSnapshot)
        ensures
            s.state == self@.state,
            s.target@ == self@.target,
            s.cursor == self@.cursor,
            s.expected == (if self@.cursor < self@.target.len() {
                Some(self@.target[self@.cursor as int])
            } else {
                None
            }),
            s.miss_until_ms == self@.miss_until_ms,
            s.keystrokes == self@.keystrokes,
            s.misses == self@.misses,
            s.elapsed_ms == self@.elapsed(),
            s.started_at_ms == self@.started_at_ms,
            s.auto_inserted@ == true_indices(self@.auto_inserted),
    {
        let expected = if self.cursor < self.target.len() {
            Some(self.target[self.cursor])
        } else {
            None
        };
        let mut idxs: Vec<usize> = Vec::new();
        let mut i: usize = 0;
        while i < self.auto_inserted.len()
            invariant
                i <= self.auto_inserted@.len(),
                idxs@ == true_indices(self.auto_inserted@.take(i as int)),
            decreases self.auto_inserted.len() - i,
        {
            assert(self.auto_inserted@.take(i + 1).drop_last() =~= self.auto_inserted@.take(
                i as int,
            ));
            if self.auto_inserted[i] {
                idxs.push(i);
            }
            i += 1;
        }
        assert(self.auto_inserted@.take(self.auto_inserted@.len() as int)
            =~= self.auto_inserted@);
        TypingSnapshot {
            state: self.state,
            target: string_of(self.target.as_slice()),
            cursor: self.cursor,
            expected,
            miss_until_ms: self.miss_until_ms,
            keystrokes: self.keystrokes,
            misses: self.misses,
            elapsed_ms: self.now_ms.saturating_sub(self.started_at_ms),
            started_at_ms: self.started_at_ms,
            auto_inserted: idxs,
        }
    }

    /// Whether the session is active: only then does a command change it.
    pub fn is_active(&self) -> (b: bool)
        ensures
            b == (self@.state == SessionState::Active),
    {
        self.state == SessionState::Active
    }

    /// Whether the counters have room for what `cmd` may add to them.
    pub fn fits(&self, cmd: &TypingCommand) -> (b: bool)
        ensures
            b == self@.fits(*cmd),
    {
        let room: u128 = match cmd {
            TypingCommand::Char(c) => if *c == '\t' {
                self.tab_width as u128
            } else {
                1
            },
            TypingCommand::Enter => 1,
            _ => 0,
        };
        (self.keystrokes as u128) + room <= 4294967295 && (self.misses as u128) + room <= 4294967295
    }

    pub fn apply(&mut self, cmd: TypingCommand)
        requires
            old(self)@.wf(),
            old(self)@.state == SessionState::Active ==> old(self)@.fits(cmd),
        ensures
            final(self)@ == old(self)@.applied(cmd),
            final(self)@.wf(),
    {
        proof {
            law_command_keeps_session(self@, cmd);
        }
        if self.state != SessionState::Active {
            return ;
        }
        match cmd {
            TypingCommand::Tick { now_ms } => {
                self.now_ms = now_ms;
                match self.miss_until_ms {
                    Some(until) => {
                        if now_ms >= until {
                            self.miss_until_ms = None;
                        }
                    },
                    None => {},
                }
            },
            TypingCommand::Escape => {
                self.state = SessionState::Interrupted;
            },
            TypingCommand::Backspace => {
                if !self.allow_backspace {
                    return ;
                }
                self.handle_backspace();
            },
            TypingCommand::Enter => self.handle_char('\n'),
            TypingCommand::Char(c) => {
                if c == '\n' {
                    self.handle_char('\n');
                } else if c == '\t' {
                    let n = self.tab_width;
                    let mut k: usize = 0;
                    while k < n
                        invariant
                            n == old(self)@.tab_width,
                            k <= n,
                            old(self)@.wf(),
                            old(self)@.state == SessionState::Active,
                            old(self)@.fits(cmd),
                            cmd == TypingCommand::Char('\t'),
                            self@.typed_spaces((n - k) as nat) == old(self)@.typed_spaces(n as nat),
                            self@.wf(),
                            self@.state != SessionState::Interrupted,
                            self@.keystrokes + self@.misses <= old(self)@.keystrokes
                                + old(self)@.misses + k,
                            self@.keystrokes >= old(self)@.keystrokes,
                            self@.misses >= old(self)@.misses,
                        ensures
                            k == n || self.state != SessionState::Active,
                        decreases n - k,
                    {
                        if self.state != SessionState::Active {
                            break;
                        }
                        proof {
                            lemma_typed_wf(self@, ' ');
                        }
                        self.handle_char(' ');
                        k += 1;
                    }
                } else {
                    self.handle_char(c);
                }
            },
        }
    }

    fn handle_char(&mut self, input: char)
        requires
            old(self)@.wf(),
            old(self)@.state == SessionState::Active,
            old(self)@.keystrokes < u32::MAX,
            old(self)@.misses < u32::MAX,
        ensures
            final(self)@ == old(self)@.typed(input),
    {
        proof {
            lemma_typed_wf(self@, input);
        }
        if self.cursor >= self.target.len() {
            return ;
        }
        let expected = self.target[self.cursor];
        if input == expected {
            let was_auto = self.auto_inserted[self.cursor];
            self.cursor += 1;
            if !was_auto {
                self.keystrokes += 1;
            }
            self.miss_until_ms = None;
            let ghost advanced = self@;
            proof {
                let t = advanced.target;
                assert(advanced.auto_inserted =~= lead_flags(t, advanced.cursor, advanced.auto_indent)) by {
                    assert forall|i: int| 0 <= i < t.len() implies advanced.auto_inserted[i]
                        == lead_flags(t, advanced.cursor, advanced.auto_indent)[i] by {
                        if i == advanced.cursor - 1 {
                            assert(!(advanced.auto_indent && in_lead(t, i)));
                        }
                    }
                }
                if advanced.auto_indent && advanced.cursor < t.len() && !at_line_start(
                    t,
                    advanced.cursor as int,
                ) {
                    lemma_lead_step(t, advanced.cursor - 1);
                }
                lemma_indented_wf(advanced);
            }
            self.apply_auto_indent();
            if self.cursor >= self.target.len() {
                self.state = SessionState::Completed;
            }
        } else {
            self.misses += 1;
            self.miss_until_ms = Some(self.now_ms.saturating_add(MISS_FLASH_MS));
        }
    }

    fn handle_backspace(&mut self)
        requires
            old(self)@.wf(),
            old(self)@.allow_backspace,
        ensures
            final(self)@ == old(self)@.backspaced(),
    {
        if self.cursor == 0 {
            return ;
        }
        let prev = self.cursor - 1;
        if self.auto_inserted[prev] {
            return ;
        }
        self.cursor = prev;
    }

    /// Auto-insert leading spaces at the beginning of the current line.
    fn apply_auto_indent(&mut self)
        requires
            old(self)@.auto_inserted.len() == old(self)@.target.len(),
            old(self)@.cursor <= old(self)@.target.len(),
        ensures
            final(self)@ == old(self)@.indented(),
    {
        if !self.auto_indent {
            return ;
        }
        if self.cursor >= self.target.len() {
            return ;
        }
        let at_start = self.cursor == 0 || self.target[self.cursor - 1] == '\n';
        if !at_start {
            return ;
        }
        let ghost start = self.cursor;
        let ghost before = self.auto_inserted@;
        proof {
            lemma_skip_spaces(self.target@, start as nat);
        }
        while self.cursor < self.target.len() && self.target[self.cursor] == ' '
            invariant
                start <= self.cursor <= self.target@.len(),
                self.target@ == old(self)@.target,
                self.auto_inserted@.len() == self.target@.len(),
                skip_spaces(self.target@, self.cursor as nat) == skip_spaces(
                    self.target@,
                    start as nat,
                ),
                forall|i: int|
                    0 <= i < self.target@.len() ==> self.auto_inserted@[i] == if start <= i
                        < self.cursor {
                        true
                    } else {
                        before[i]
                    },
                self.keystrokes == old(self).keystrokes,
                self.misses == old(self).misses,
                self.state == old(self).state,
                self.miss_until_ms == old(self).miss_until_ms,
                self.started_at_ms == old(self).started_at_ms,
                self.now_ms == old(self).now_ms,
                self.allow_backspace == old(self).allow_backspace,
                self.auto_indent == old(self).auto_indent,
                self.tab_width == old(self).tab_width,
            decreases self.target.len() - self.cursor,
        {
            let at = self.cursor;
            self.auto_inserted.set(at, true);
            self.cursor = at + 1;
        }
        assert(self.auto_inserted@ =~= old(self)@.indented().auto_inserted);
    }
}

} // verus!
