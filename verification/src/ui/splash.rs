//! The splash logo and its reveal timing.

use vstd::prelude::*;

use crate::text::chars_of;

verus! {

/// Milliseconds between each revealed logo row.
pub const REVEAL_ROW_MS: u64 = 80;
/// Glow sweep start (after the logo is fully revealed).
pub const GLOW_START_MS: u64 = 480;
pub const GLOW_DURATION_MS: u64 = 800;
/// Tagline fade-in window.
pub const TAGLINE_START_MS: u64 = 700;
pub const TAGLINE_DURATION_MS: u64 = 400;
/// Total splash duration before auto-advancing to the tree.
pub const SPLASH_TOTAL_MS: u64 = 2000;
/// Rows of the logo.
pub const LOGO_ROWS: usize = 6;

/// The ASCII logo, row by row.
pub fn logo() -> (rows: [&'static str; 6])
    ensures
        forall|i: int| 0 <= i < 6 ==> (#[trigger] rows@[i])@.len() == 57,
{
    let rows = [
        "                                                    _    ",
        " _ __   ___  _ __    ___   _ __ ___    ___   _ __  | | __",
        "| '__| / _ \\| '_ \\  / _ \\ | '_ ` _ \\  / _ \\ | '_ \\ | |/ /",
        "| |   |  __/| |_) || (_) || | | | | || (_) || | | ||   < ",
        "|_|    \\___|| .__/  \\___/ |_| |_| |_| \\___/ |_| |_||_|\\_\\",
        "            |_|                                          ",
    ];
    proof {
        reveal_strlit("                                                    _    ");
        reveal_strlit(" _ __   ___  _ __    ___   _ __ ___    ___   _ __  | | __");
        reveal_strlit("| '__| / _ \\| '_ \\  / _ \\ | '_ ` _ \\  / _ \\ | '_ \\ | |/ /");
        reveal_strlit("| |   |  __/| |_) || (_) || | | | | || (_) || | | ||   < ");
        reveal_strlit("|_|    \\___|| .__/  \\___/ |_| |_| |_| \\___/ |_| |_||_|\\_\\");
        reveal_strlit("            |_|                                          ");
    }
    rows
}

/// Maximum logo width in characters (all rows share the same width).
pub fn logo_width() -> (w: usize)
    ensures
        w == 57,
{
    let rows = logo();
    let mut w: usize = 0;
    let mut i: usize = 0;
    while i < 6
        invariant
            i <= 6,
            forall|k: int| 0 <= k < 6 ==> (#[trigger] rows@[k])@.len() == 57,
            w == if i == 0 {
                0usize
            } else {
                57usize
            },
        decreases 6 - i,
    {
        let n = chars_of(rows[i]).len();
        if n > w {
            w = n;
        }
        i += 1;
    }
    w
}

/// The number of logo rows revealed after `elapsed_ms`: one at once, one
/// more every 80 ms, up to all of them.
pub fn visible_rows(elapsed_ms: u64) -> (n: usize)
    ensures
        n == if elapsed_ms / 80 + 1 < 6 {
            (elapsed_ms / 80 + 1) as usize
        } else {
            6usize
        },
{
    let k = elapsed_ms / 80 + 1;
    if k < 6 {
        k as usize
    } else {
        6
    }
}

/// Whether the splash has run its full length.
pub fn splash_done(elapsed_ms: u64) -> (b: bool)
    ensures
        b == (elapsed_ms >= 2000),
{
    elapsed_ms >= 2000
}

} // verus!
