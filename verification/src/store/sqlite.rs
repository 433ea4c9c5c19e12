//! Values read from and written to the SQLite store, and what is derived
//! from them.

use vstd::prelude::*;

use std::path::PathBuf;

use chrono::Datelike;

use crate::domain::content::{
    ChunkProgress, FileProgress, FileStatus, ManualOverride, SkipReason, TypingCheckpoint,
};
use crate::domain::dependency::views;
use crate::text::{
    str_eq, chars_of, decimal, ends_with, ends_with_chars, parse_usize, parse_usize_spec, starts_with,
    strip_prefix, strip_prefix_chars, subrange,
};

verus! {

/// A previously opened repository for the home Recent list.
#[derive(Debug, Clone, PartialEq, Eq)]
pub struct RecentRepo {
    pub id: i64,
    pub identity: String,
    pub display_name: String,
    pub input: String,
    pub root_path: String,
    pub last_opened_at: String,
    pub done_lines: usize,
    pub total_lines: usize,
}

/// Aggregate achievement stats across all repositories.
#[derive(Debug, Clone, PartialEq, Eq, Default)]
pub struct GlobalSummary {
    pub completed_files: usize,
    pub completed_chunks: usize,
    pub streak_days: u32,
}

/// A skip reason as plain values.
pub ghost enum SkipView {
    VcsOrDependencyDir,
    GeneratedOrLockFile,
    Binary,
    LineTooLong(nat),
    FileTooLarge(nat),
    TestFile,
    ConfigFile,
    FileTypeDisabled,
    NoChunks,
    IoError(Seq<char>),
}

pub open spec fn skip_view(r: SkipReason) -> SkipView {
    match r {
        SkipReason::VcsOrDependencyDir => SkipView::VcsOrDependencyDir,
        SkipReason::GeneratedOrLockFile => SkipView::GeneratedOrLockFile,
        SkipReason::Binary => SkipView::Binary,
        SkipReason::LineTooLong { max_cols } => SkipView::LineTooLong(max_cols as nat),
        SkipReason::FileTooLarge { max_lines } => SkipView::FileTooLarge(max_lines as nat),
        SkipReason::TestFile => SkipView::TestFile,
        SkipReason::ConfigFile => SkipView::ConfigFile,
        SkipReason::FileTypeDisabled => SkipView::FileTypeDisabled,
        SkipReason::NoChunks => SkipView::NoChunks,
        SkipReason::IoError(m) => SkipView::IoError(m@),
    }
}

/// `s` without the suffix `p`, if it has it.
pub open spec fn strip_suffix(s: Seq<char>, p: Seq<char>) -> Option<Seq<char>> {
    if ends_with(s, p) {
        Some(s.take(s.len() - p.len()))
    } else {
        None
    }
}

/// The number in `rest` before `suffix`, or `default` when there is none.
pub open spec fn number_before(rest: Seq<char>, suffix: Seq<char>, default: nat) -> nat {
    match strip_suffix(rest, suffix) {
        Some(body) => match parse_usize_spec(body) {
            Some(n) => n as nat,
            None => default,
        },
        None => default,
    }
}

/// The skip reason a stored text names; older spellings are still read, and
/// unknown text is kept as a read error.
pub open spec fn parse_skip_spec(raw: Seq<char>) -> SkipView {
    if raw == "excluded directory"@ {
        SkipView::VcsOrDependencyDir
    } else if raw == "generated or lock file"@ {
        SkipView::GeneratedOrLockFile
    } else if raw == "binary file"@ {
        SkipView::Binary
    } else if raw == "test file (include_tests=false)"@ {
        SkipView::TestFile
    } else if raw == "config file (include_configs=false)"@ || raw
        == "config or docs (include_configs=false)"@ {
        SkipView::ConfigFile
    } else if raw == "file type disabled"@ {
        SkipView::FileTypeDisabled
    } else if raw == "no typeable chunks"@ || raw == "no typeable content"@ {
        SkipView::NoChunks
    } else {
        match strip_prefix(raw, "line longer than "@) {
            Some(rest) => SkipView::LineTooLong(number_before(rest, " cols"@, 200)),
            None => match strip_prefix(raw, "more than "@) {
                Some(rest) => SkipView::FileTooLarge(number_before(rest, " lines"@, 5000)),
                None => match strip_prefix(raw, "read error: "@) {
                    Some(msg) => SkipView::IoError(msg),
                    None => SkipView::IoError(raw),
                },
            },
        }
    }
}

fn is_text(s: &[char], lit: &str) -> (b: bool)
    ensures
        b == (s@ == lit@),
{
    let l = chars_of(lit);
    crate::text::eq_chars(s, l.as_slice())
}

fn number_before_exec(rest: &[char], suffix: &str, default: usize) -> (n: usize)
    ensures
        n as nat == number_before(rest@, suffix@, default as nat),
{
    let sc = chars_of(suffix);
    if ends_with_chars(rest, sc.as_slice()) {
        let body = subrange(rest, 0, rest.len() - sc.len());
        assert(body@ =~= rest@.take(rest@.len() - suffix@.len()));
        match parse_usize(body.as_slice()) {
            Some(n) => n,
            None => default,
        }
    } else {
        default
    }
}

fn string_from(v: &[char]) -> (s: String)
    ensures
        s@ == v@,
{
    let mut s = String::new();
    crate::text::push_chars(&mut s, v);
    assert(s@ =~= v@);
    s
}

/// The skip reason a stored text names.
pub fn parse_skip_reason(raw: &str) -> (r: SkipReason)
    ensures
        skip_view(r) == parse_skip_spec(raw@),
{
    let c = chars_of(raw);
    let s = c.as_slice();
    if is_text(s, "excluded directory") {
        SkipReason::VcsOrDependencyDir
    } else if is_text(s, "generated or lock file") {
        SkipReason::GeneratedOrLockFile
    } else if is_text(s, "binary file") {
        SkipReason::Binary
    } else if is_text(s, "test file (include_tests=false)") {
        SkipReason::TestFile
    } else if is_text(s, "config file (include_configs=false)") || is_text(
        s,
        "config or docs (include_configs=false)",
    ) {
        SkipReason::ConfigFile
    } else if is_text(s, "file type disabled") {
        SkipReason::FileTypeDisabled
    } else if is_text(s, "no typeable chunks") || is_text(s, "no typeable content") {
        SkipReason::NoChunks
    } else if let Some(rest) = strip_prefix_chars(s, "line longer than ") {
        SkipReason::LineTooLong { max_cols: number_before_exec(rest.as_slice(), " cols", 200) }
    } else if let Some(rest) = strip_prefix_chars(s, "more than ") {
        SkipReason::FileTooLarge { max_lines: number_before_exec(rest.as_slice(), " lines", 5000) }
    } else if let Some(msg) = strip_prefix_chars(s, "read error: ") {
        SkipReason::IoError(string_from(msg.as_slice()))
    } else {
        SkipReason::IoError(string_from(s))
    }
}

proof fn lemma_number_roundtrip(n: usize, suffix: Seq<char>, default: nat)
    ensures
        number_before(decimal(n as nat) + suffix, suffix, default) == n as nat,
{
    let t = decimal(n as nat) + suffix;
    assert(t.subrange(t.len() - suffix.len(), t.len() as int) =~= suffix);
    assert(t.take(t.len() - suffix.len()) =~= decimal(n as nat));
    crate::text::lemma_parse_decimal(n);
}

/// A stored skip reason reads back as the reason that was stored.
pub proof fn law_skip_reason_roundtrip(r: SkipReason)
    ensures
        parse_skip_spec(r.text()) == skip_view(r),
{
    reveal_strlit("excluded directory");
    reveal_strlit("generated or lock file");
    reveal_strlit("binary file");
    reveal_strlit("test file (include_tests=false)");
    reveal_strlit("config file (include_configs=false)");
    reveal_strlit("config or docs (include_configs=false)");
    reveal_strlit("file type disabled");
    reveal_strlit("no typeable chunks");
    reveal_strlit("no typeable content");
    reveal_strlit("line longer than ");
    reveal_strlit("more than ");
    reveal_strlit("read error: ");
    reveal_strlit(" cols");
    reveal_strlit(" lines");
    let t = r.text();
    match r {
        SkipReason::LineTooLong { max_cols } => {
            let rest = decimal(max_cols as nat) + " cols"@;
            assert(t =~= "line longer than "@ + rest);
            assert(t[0] == 'l');
            assert(t != "excluded directory"@);
            assert(t != "no typeable content"@);
            assert(t != "config or docs (include_configs=false)"@);
            assert(strip_prefix(t, "line longer than "@) == Some(rest)) by {
                assert(t.take(17) =~= "line longer than "@);
                assert(t.skip(17) =~= rest);
            }
            lemma_number_roundtrip(max_cols, " cols"@, 200);
            assert(number_before(rest, " cols"@, 200) == max_cols as nat);
            assert(parse_skip_spec(t) == SkipView::LineTooLong(number_before(rest, " cols"@, 200)));
        },
        SkipReason::FileTooLarge { max_lines } => {
            let rest = decimal(max_lines as nat) + " lines"@;
            assert(t =~= "more than "@ + rest);
            assert(t[0] == 'm');
            assert(!starts_with(t, "line longer than "@)) by {
                assert(t.take(17)[0] == 'm');
            }
            assert(strip_prefix(t, "more than "@) == Some(rest)) by {
                assert(t.take(10) =~= "more than "@);
                assert(t.skip(10) =~= rest);
            }
            lemma_number_roundtrip(max_lines, " lines"@, 5000);
        },
        SkipReason::IoError(m) => {
            assert(t =~= "read error: "@ + m@);
            assert(t[0] == 'r');
            assert(!starts_with(t, "line longer than "@)) by {
                if t.len() >= 17 {
                    assert(t.take(17)[0] == 'r');
                }
            }
            assert(!starts_with(t, "more than "@)) by {
                if t.len() >= 10 {
                    assert(t.take(10)[0] == 'r');
                }
            }
            assert(strip_prefix(t, "read error: "@) == Some(m@)) by {
                assert(t.take(12) =~= "read error: "@);
                assert(t.skip(12) =~= m@);
            }
        },
        SkipReason::ConfigFile => {
            assert(t[7] != "config file (include_configs=false)"@[7]);
            assert(parse_skip_spec(t) == skip_view(r));
        },
        SkipReason::NoChunks => {
            assert(t[13] != "no typeable chunks"@[13]);
            assert(parse_skip_spec(t) == skip_view(r));
        },
        SkipReason::VcsOrDependencyDir => {
            assert(parse_skip_spec(t) == skip_view(r));
        },
        SkipReason::GeneratedOrLockFile => {
            assert(parse_skip_spec(t) == skip_view(r));
        },
        SkipReason::Binary => {
            assert(parse_skip_spec(t) == skip_view(r));
        },
        SkipReason::TestFile => {
            assert(parse_skip_spec(t) == skip_view(r));
        },
        SkipReason::FileTypeDisabled => {
            assert(t[0] != "excluded directory"@[0]);
            assert(t[0] != "generated or lock file"@[0]);
            assert(t[0] != "binary file"@[0]);
            assert(t[0] != "test file (include_tests=false)"@[0]);
            assert(t[0] != "config file (include_configs=false)"@[0]);
            assert(t[0] != "config or docs (include_configs=false)"@[0]);
            assert(parse_skip_spec(t) == skip_view(r));
        },
    }
}

/// Whether `d` is one of the activity days (days counted as integers).
pub open spec fn has_day(days: Seq<i32>, d: int) -> bool {
    exists|i: int| 0 <= i < days.len() && days[i] as int == d
}

/// The day `j` days before `start`.
pub open spec fn days_before(start: int, j: int) -> int {
    start - j
}

/// Every one of the `k` days ending at `start` has activity.
pub open spec fn run_of(days: Seq<i32>, start: int, k: nat) -> bool {
    forall|j: int| 0 <= j < k ==> #[trigger] has_day(days, days_before(start, j))
}

/// Where a streak ends: today when it had activity, else yesterday when it
/// had, else nowhere.
pub open spec fn streak_start(days: Seq<i32>, today: int) -> Option<int> {
    if has_day(days, today) {
        Some(today)
    } else if has_day(days, today - 1) {
        Some(today - 1)
    } else {
        None
    }
}

/// A run of activity days is no longer than the list of days.
proof fn lemma_run_bound(days: Seq<i32>, start: int, k: nat)
    requires
        run_of(days, start, k),
    ensures
        k <= days.len(),
{
    broadcast use vstd::seq_lib::seq_to_set_is_finite;
    let dv = days.map_values(|d: i32| d as int);
    let range = vstd::set_lib::set_int_range(start - k + 1, start + 1);
    vstd::set_lib::lemma_int_range(start - k + 1, start + 1);
    assert forall|x: int| range.contains(x) implies dv.to_set().contains(x) by {
        assert(has_day(days, days_before(start, start - x)));
        let i = choose|i: int| 0 <= i < days.len() && days[i] as int == x;
        assert(dv[i] == x);
    }
    dv.lemma_cardinality_of_set();
    vstd::set_lib::lemma_len_subset(range, dv.to_set());
}

fn has_day_exec(days: &[i32], d: i64) -> (b: bool)
    ensures
        b == has_day(days@, d as int),
{
    let mut i: usize = 0;
    while i < days.len()
        invariant
            i <= days@.len(),
            forall|q: int| 0 <= q < i ==> days@[q] as int != d,
        decreases days.len() - i,
    {
        if days[i] as i64 == d {
            return true;
        }
        i += 1;
    }
    false
}

/// Consecutive days with activity ending on `today` or the day before, days
/// counted as integers.
pub fn compute_streak(days: &[i32], today: i32) -> (n: u32)
    requires
        days@.len() <= u32::MAX,
    ensures
        match streak_start(days@, today as int) {
            Some(s) => run_of(days@, s, n as nat) && !has_day(days@, s - n),
            None => n == 0,
        },
{
    let t = today as i64;
    let start = if has_day_exec(days, t) {
        t
    } else if has_day_exec(days, t - 1) {
        t - 1
    } else {
        return 0;
    };
    let mut streak: u32 = 0;
    let mut cursor: i64 = start;
    while has_day_exec(days, cursor)
        invariant
            days@.len() <= u32::MAX,
            start == t - 1 || start == t,
            t == today as int,
            run_of(days@, start as int, streak as nat),
            cursor == start - streak,
            streak <= days@.len(),
        decreases days@.len() - streak,
    {
        proof {
            assert(run_of(days@, start as int, (streak + 1) as nat)) by {
                assert forall|j: int| 0 <= j < streak + 1 implies has_day(
                    days@,
                    days_before(start as int, j),
                ) by {
                    if j == streak {
                        assert(start - j == cursor);
                    }
                }
            }
            lemma_run_bound(days@, start as int, (streak + 1) as nat);
        }
        streak += 1;
        cursor -= 1;
    }
    streak
}

/// The skip text stored for a scanned file: its reason (or `skipped` when it
/// has none) when it is skipped, nothing otherwise.
pub open spec fn stored_skip_spec(status: FileStatus, reason: Option<SkipReason>) -> Option<Seq<char>> {
    if status == FileStatus::Skipped {
        let text = match reason {
            Some(r) => r.text(),
            None => Seq::empty(),
        };
        Some(
            if text.len() == 0 {
                "skipped"@
            } else {
                text
            },
        )
    } else {
        None
    }
}

/// Whether a chunk found by a refresh counts as done from the start: when
/// completions are kept on refresh, a chunk whose hash was completed before
/// anywhere in the repository stays completed.
pub fn carried_done(keep_done_on_refresh: bool, completed_hashes: &[String], hash: &str) -> (b: bool)
    ensures
        b == (keep_done_on_refresh && views(completed_hashes@).contains(hash@)),
{
    if !keep_done_on_refresh {
        return false;
    }
    let mut i: usize = 0;
    while i < completed_hashes.len()
        invariant
            keep_done_on_refresh,
            i <= completed_hashes@.len(),
            forall|j: int| 0 <= j < i ==> completed_hashes@[j]@ != hash@,
        decreases completed_hashes.len() - i,
    {
        if str_eq(completed_hashes[i].as_str(), hash) {
            assert(views(completed_hashes@)[i as int] == hash@);
            assert(views(completed_hashes@).contains(hash@));
            return true;
        }
        i += 1;
    }
    assert(!views(completed_hashes@).contains(hash@)) by {
        if views(completed_hashes@).contains(hash@) {
            let v = views(completed_hashes@);
            let q = choose|q: int| 0 <= q < v.len() && v[q] == hash@;
            assert(completed_hashes@[q]@ == hash@);
        }
    }
    false
}

/// The skip text to store for a scanned file.
pub fn stored_skip_text(status: FileStatus, reason: &Option<SkipReason>) -> (r: Option<String>)
    ensures
        match stored_skip_spec(status, *reason) {
            Some(t) => r is Some && r.unwrap()@ == t,
            None => r is None,
        },
{
    if status == FileStatus::Skipped {
        let text = match reason {
            Some(r) => r.as_str(),
            None => String::new(),
        };
        let tc = chars_of(text.as_str());
        if tc.len() == 0 {
            Some("skipped".to_owned())
        } else {
            Some(text)
        }
    } else {
        None
    }
}

/// A file's progress as loaded from its stored row: the stored skip reason
/// and manual override are parsed, and the status is derived.
pub fn file_progress_from_row(
    relative_path: String,
    skip_raw: Option<String>,
    override_raw: Option<String>,
    chunks: Vec<ChunkProgress>,
) -> (f: FileProgress)
    ensures
        f.relative_path == relative_path,
        f.chunks == chunks,
        match skip_raw {
            Some(raw) => f.skip_reason matches Some(r) && skip_view(r) == parse_skip_spec(raw@),
            None => f.skip_reason is None,
        },
        f.manual_override == match override_raw {
            Some(raw) => crate::domain::content::parse_override_spec(raw@),
            None => None,
        },
        f.status == f.status_spec(),
{
    let skip_reason = match &skip_raw {
        Some(raw) => Some(parse_skip_reason(raw.as_str())),
        None => None,
    };
    let manual_override = match &override_raw {
        Some(raw) => ManualOverride::parse(raw.as_str()),
        None => None,
    };
    let mut fp = FileProgress {
        relative_path,
        status: FileStatus::Todo,
        skip_reason,
        manual_override,
        chunks,
    };
    fp.status = fp.derive_status();
    fp
}

pub open spec fn clamp_u32(v: i64) -> u32 {
    if v < 0 {
        0
    } else if v > u32::MAX {
        u32::MAX
    } else {
        v as u32
    }
}

/// A typing checkpoint as loaded from its stored row: missing counters read
/// as zero and out-of-range values are clamped into their types.
pub fn checkpoint_from_row(
    chunk_id: i64,
    cursor: i64,
    keystrokes: Option<i64>,
    misses: Option<i64>,
    elapsed_ms: Option<i64>,
    started_at: Option<String>,
    auto_indent: Option<i64>,
) -> (c: TypingCheckpoint)
    ensures
        c.chunk_id == chunk_id,
        c.cursor == if cursor < 0 { 0 } else { cursor as usize },
        c.keystrokes == clamp_u32(
            match keystrokes {
                Some(k) => k,
                None => 0,
            },
        ),
        c.misses == clamp_u32(
            match misses {
                Some(m) => m,
                None => 0,
            },
        ),
        c.elapsed_ms == match elapsed_ms {
            Some(e) => if e < 0 {
                0
            } else {
                e as u64
            },
            None => 0,
        },
        c.started_at@ == match started_at {
            Some(s) => s@,
            None => Seq::<char>::empty(),
        },
        c.auto_indent == match auto_indent {
            Some(a) => a != 0,
            None => false,
        },
{
    let k = match keystrokes {
        Some(k) => k,
        None => 0,
    };
    let m = match misses {
        Some(m) => m,
        None => 0,
    };
    let e = match elapsed_ms {
        Some(e) => e,
        None => 0,
    };
    let started = match started_at {
        Some(s) => s,
        None => String::new(),
    };
    TypingCheckpoint {
        chunk_id,
        cursor: if cursor < 0 {
            0
        } else {
            cursor as usize
        },
        keystrokes: if k < 0 {
            0
        } else if k > 4294967295 {
            4294967295
        } else {
            k as u32
        },
        misses: if m < 0 {
            0
        } else if m > 4294967295 {
            4294967295
        } else {
            m as u32
        },
        elapsed_ms: if e < 0 {
            0
        } else {
            e as u64
        },
        started_at: started,
        auto_indent: match auto_indent {
            Some(a) => a != 0,
            None => false,
        },
    }
}

/// The day number (days from the common era, as chrono's
/// `Datelike::num_days_from_ce`) of an RFC 3339 timestamp, in the timestamp's
/// own offset; `None` when it does not parse. It depends on the text alone.
pub uninterp spec fn rfc3339_day(text: Seq<char>) -> Option<i32>;

/// The day number of a date read with chrono's format string `format`;
/// `None` when it does not parse. It depends on its arguments alone.
pub uninterp spec fn formatted_day(text: Seq<char>, format: Seq<char>) -> Option<i32>;

/// chrono's `DateTime::parse_from_rfc3339`, then `date_naive` and
/// `num_days_from_ce`.
#[verifier::external_body]
fn parse_rfc3339_day(text: &str) -> (r: Option<i32>)
    ensures
        r == rfc3339_day(text@),
{
    chrono::DateTime::parse_from_rfc3339(text).ok().map(|dt| dt.date_naive().num_days_from_ce())
}

/// chrono's `NaiveDate::parse_from_str`, then `num_days_from_ce`.
#[verifier::external_body]
fn parse_formatted_day(text: &str, format: &str) -> (r: Option<i32>)
    ensures
        r == formatted_day(text@, format@),
{
    chrono::NaiveDate::parse_from_str(text, format).ok().map(|d| d.num_days_from_ce())
}

/// The number of bytes of `c` in UTF-8.
pub open spec fn utf8_width(c: char) -> nat {
    if (c as u32) < 0x80 {
        1
    } else if (c as u32) < 0x800 {
        2
    } else if (c as u32) < 0x10000 {
        3
    } else {
        4
    }
}

/// The characters making up the first `bytes` bytes of `s` in UTF-8, when
/// that many bytes end on a character boundary.
pub open spec fn byte_prefix(s: Seq<char>, bytes: nat) -> Option<Seq<char>>
    decreases s.len(),
{
    if bytes == 0 {
        Some(Seq::empty())
    } else if s.len() == 0 || utf8_width(s[0]) > bytes {
        None
    } else {
        match byte_prefix(s.drop_first(), (bytes - utf8_width(s[0])) as nat) {
            Some(p) => Some(seq![s[0]] + p),
            None => None,
        }
    }
}

/// The calendar day of a stored session end: the RFC 3339 timestamp's day,
/// else the day of its leading `YYYY-MM-DD`. There is none when neither
/// reads, or the text is shorter than ten bytes, or the tenth byte ends
/// inside a character.
pub open spec fn session_day_spec(ended_at: Seq<char>) -> Option<i32> {
    match rfc3339_day(ended_at) {
        Some(d) => Some(d),
        None => match byte_prefix(ended_at, 10) {
            Some(p) => formatted_day(p, "%Y-%m-%d"@),
            None => None,
        },
    }
}

fn width_of(c: char) -> (n: usize)
    ensures
        n == utf8_width(c),
{
    let v = c as u32;
    if v < 0x80 {
        1
    } else if v < 0x800 {
        2
    } else if v < 0x10000 {
        3
    } else {
        4
    }
}

/// The characters of `s` that make up its first `bytes` bytes.
fn byte_prefix_of(s: &[char], bytes: usize) -> (r: Option<Vec<char>>)
    ensures
        match byte_prefix(s@, bytes as nat) {
            Some(p) => r matches Some(v) && v@ == p,
            None => r is None,
        },
    decreases s.len(),
{
    if bytes == 0 {
        return Some(Vec::new());
    }
    if s.len() == 0 {
        return None;
    }
    let w = width_of(s[0]);
    if w > bytes {
        return None;
    }
    let rest = crate::text::subrange(s, 1, s.len());
    assert(rest@ =~= s@.drop_first());
    match byte_prefix_of(rest.as_slice(), bytes - w) {
        Some(p) => {
            let mut v: Vec<char> = Vec::new();
            v.push(s[0]);
            let mut i: usize = 0;
            while i < p.len()
                invariant
                    i <= p@.len(),
                    v@ == seq![s@[0]] + p@.take(i as int),
                decreases p.len() - i,
            {
                v.push(p[i]);
                assert(p@.take(i + 1) =~= p@.take(i as int).push(p@[i as int]));
                assert(v@ =~= seq![s@[0]] + p@.take(i + 1));
                i += 1;
            }
            assert(p@.take(p@.len() as int) =~= p@);
            Some(v)
        },
        None => None,
    }
}

/// The calendar day (as a day number) of a stored session end.
pub fn session_day(ended_at: &str) -> (d: Option<i32>)
    ensures
        d == session_day_spec(ended_at@),
{
    match parse_rfc3339_day(ended_at) {
        Some(d) => return Some(d),
        None => {},
    }
    let cs = chars_of(ended_at);
    match byte_prefix_of(cs.as_slice(), 10) {
        Some(p) => {
            let head = crate::text::string_of(p.as_slice());
            parse_formatted_day(head.as_str(), "%Y-%m-%d")
        },
        None => None,
    }
}

/// Paths managed by repomonk that `--purge` may delete.
#[derive(Debug)]
pub struct DataPaths {
    pub cache_dir: PathBuf,
    pub data_dir: PathBuf,
    pub db_path: PathBuf,
}

/// What std's `Path::join` gives for `base` and `name`; it depends on the two
/// arguments alone.
pub uninterp spec fn joined_path(base: PathBuf, name: Seq<char>) -> PathBuf;

/// std's `Path::join`: `base` with the relative component `name` appended.
/// The contract names the result; what the joined path holds is not stated.
#[verifier::external_body]
fn join_path(base: &PathBuf, name: &str) -> (r: PathBuf)
    ensures
        r == joined_path(*base, name@),
{
    base.join(name)
}

impl DataPaths {
    /// The managed paths under the two roots; the database is `repomonk.db`
    /// in the data directory.
    pub fn from_roots(cache_dir: PathBuf, data_dir: PathBuf) -> (p: DataPaths)
        ensures
            p.cache_dir == cache_dir,
            p.data_dir == data_dir,
            p.db_path == joined_path(data_dir, "repomonk.db"@),
    {
        let db_path = join_path(&data_dir, "repomonk.db");
        DataPaths { cache_dir, data_dir, db_path }
    }
}

} // verus!
