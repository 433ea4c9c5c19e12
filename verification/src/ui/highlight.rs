//! Syntax colours for the source shown on the typing screen: one colour per
//! character of the text. They change how the text is drawn, never what is
//! typed. The tokenizing is done by syntect with its bundled syntaxes; which
//! syntax a file gets, the palette, and how tokens become per-character
//! colours are decided here.

use vstd::prelude::*;

use syntect::highlighting::{Color, ScopeSelectors, StyleModifier, Theme, ThemeItem, ThemeSettings};

use crate::text::{ascii_lower, ascii_lower_chars, chars_of, rsplit_once, rsplit_once_chars, string_of};

verus! {

#[verifier::external_type_specification]
#[verifier::external_body]
pub struct ExSyntaxSet(syntect::parsing::SyntaxSet);

#[verifier::external_type_specification]
#[verifier::external_body]
pub struct ExTheme(syntect::highlighting::Theme);

#[verifier::external_type_specification]
#[verifier::external_body]
pub struct ExSyntectColor(syntect::highlighting::Color);

/// The foreground colour, for text no scope colours.
pub open spec fn fg_color() -> (u8, u8, u8) {
    (0xc0u8, 0xcau8, 0xf5u8)
}

/// The background colour.
pub open spec fn bg_color() -> (u8, u8, u8) {
    (0x1au8, 0x1bu8, 0x26u8)
}

pub fn foreground() -> (c: (u8, u8, u8))
    ensures
        c == fg_color(),
{
    (0xc0u8, 0xcau8, 0xf5u8)
}

pub fn background() -> (c: (u8, u8, u8))
    ensures
        c == bg_color(),
{
    (0x1au8, 0x1bu8, 0x26u8)
}

/// The scope selectors and their colours, in the order they are tried.
pub open spec fn palette_spec() -> Seq<(Seq<char>, (u8, u8, u8))> {
    let muted = (0x56u8, 0x5fu8, 0x89u8);
    let green = (0x9eu8, 0xceu8, 0x6au8);
    let orange = (0xffu8, 0x9eu8, 0x64u8);
    let magenta = (0xbbu8, 0x9au8, 0xf7u8);
    let blue = (0x7au8, 0xa2u8, 0xf7u8);
    let cyan = (0x7du8, 0xcfu8, 0xffu8);
    let yellow = (0xe0u8, 0xafu8, 0x68u8);
    let red = (0xf7u8, 0x76u8, 0x8eu8);
    seq![
        ("comment"@, muted),
        ("string"@, green),
        ("constant.character"@, green),
        ("constant.numeric"@, orange),
        ("constant.language"@, magenta),
        ("keyword"@, magenta),
        ("storage"@, magenta),
        ("entity.name.function"@, blue),
        ("support.function"@, blue),
        ("entity.name.type"@, cyan),
        ("support.type"@, cyan),
        ("variable.parameter"@, yellow),
        ("invalid"@, red),
    ]
}

pub open spec fn palette_view(p: Seq<(&str, (u8, u8, u8))>) -> Seq<(Seq<char>, (u8, u8, u8))> {
    p.map_values(|e: (&str, (u8, u8, u8))| (e.0@, e.1))
}

/// The palette as values.
pub fn highlight_palette() -> (p: Vec<(&'static str, (u8, u8, u8))>)
    ensures
        palette_view(p@) == palette_spec(),
{
    let muted = (0x56u8, 0x5fu8, 0x89u8);
    let green = (0x9eu8, 0xceu8, 0x6au8);
    let orange = (0xffu8, 0x9eu8, 0x64u8);
    let magenta = (0xbbu8, 0x9au8, 0xf7u8);
    let blue = (0x7au8, 0xa2u8, 0xf7u8);
    let cyan = (0x7du8, 0xcfu8, 0xffu8);
    let yellow = (0xe0u8, 0xafu8, 0x68u8);
    let red = (0xf7u8, 0x76u8, 0x8eu8);
    let mut p: Vec<(&'static str, (u8, u8, u8))> = Vec::new();
    p.push(("comment", muted));
    p.push(("string", green));
    p.push(("constant.character", green));
    p.push(("constant.numeric", orange));
    p.push(("constant.language", magenta));
    p.push(("keyword", magenta));
    p.push(("storage", magenta));
    p.push(("entity.name.function", blue));
    p.push(("support.function", blue));
    p.push(("entity.name.type", cyan));
    p.push(("support.type", cyan));
    p.push(("variable.parameter", yellow));
    p.push(("invalid", red));
    assert(palette_view(p@) =~= palette_spec());
    p
}

/// Whether syntect's bundled syntaxes have one for the file extension `ext`
/// (`SyntaxSet::find_syntax_by_extension` on `load_defaults_newlines`). The
/// bundled set is fixed, so this depends on `ext` alone.
pub uninterp spec fn syntax_known(ext: Seq<char>) -> bool;

/// What syntect makes of `text` in the syntax for `ext`, highlighted with a
/// theme of the given scope colours, foreground and background: for each
/// token in order, its colour and its number of characters; `None` when
/// there is no syntax for `ext` or highlighting a line fails. It depends on
/// its arguments alone.
pub uninterp spec fn syntect_tokens(
    palette: Seq<(Seq<char>, (u8, u8, u8))>,
    foreground: (u8, u8, u8),
    background: (u8, u8, u8),
    ext: Seq<char>,
    text: Seq<char>,
) -> Option<Seq<((u8, u8, u8), nat)>>;

/// A theme, with the colours it was made from. Only `build_theme` makes one.
struct PaletteTheme {
    theme: syntect::highlighting::Theme,
    palette: Ghost<Seq<(Seq<char>, (u8, u8, u8))>>,
    foreground: (u8, u8, u8),
    background: (u8, u8, u8),
}

/// The bundled syntaxes and a theme. Only `highlighter` makes one.
struct Highlighter {
    set: syntect::parsing::SyntaxSet,
    theme: PaletteTheme,
}

/// syntect's `Color` of the red, green and blue values, opaque.
#[verifier::external_body]
fn syntect_color(c: (u8, u8, u8)) -> Color {
    Color { r: c.0, g: c.1, b: c.2, a: 0xff }
}

/// A syntect `Theme` whose settings hold the foreground and background and
/// whose scope items give each selector of the palette (parsed by
/// `ScopeSelectors::from_str`; one that does not parse is left out) its
/// foreground colour.
#[verifier::external_body]
fn build_theme(palette: &Vec<(&'static str, (u8, u8, u8))>, foreground: (u8, u8, u8), background: (u8, u8, u8)) -> (t: PaletteTheme)
    ensures
        t.palette@ == palette_view(palette@),
        t.foreground == foreground,
        t.background == background,
{
    let scopes = palette.iter().filter_map(|(s, c)| {
        let style = StyleModifier { foreground: Some(syntect_color(*c)), ..StyleModifier::default() };
        Some(ThemeItem { scope: s.parse::<ScopeSelectors>().ok()?, style })
    }).collect();
    let fg = Some(syntect_color(foreground));
    let settings = ThemeSettings { foreground: fg, background: Some(syntect_color(background)), ..ThemeSettings::default() };
    let theme = Theme { settings, scopes, ..Theme::default() };
    PaletteTheme { theme, palette: Ghost(palette_view(palette@)), foreground, background }
}

/// syntect's bundled syntaxes, `SyntaxSet::load_defaults_newlines`, with a theme.
#[verifier::external_body]
fn highlighter(theme: PaletteTheme) -> (h: Highlighter)
    ensures
        h.theme == theme,
{
    Highlighter { set: syntect::parsing::SyntaxSet::load_defaults_newlines(), theme }
}

/// `SyntaxSet::find_syntax_by_extension(ext).is_some()` on the bundled syntaxes.
#[verifier::external_body]
fn has_syntax(h: &Highlighter, ext: &str) -> (b: bool)
    ensures
        b == syntax_known(ext@),
{
    h.set.find_syntax_by_extension(ext).is_some()
}

/// `HighlightLines::highlight_line` over the lines of `text` (with their
/// endings), in the syntax for `ext`: each token's colour and character count.
#[verifier::external_body]
fn highlight_tokens(h: &Highlighter, ext: &str, text: &str) -> (r: Option<Vec<((u8, u8, u8), usize)>>)
    ensures
        match r {
            Some(v) => syntect_tokens(h.theme.palette@, h.theme.foreground, h.theme.background, ext@, text@)
                == Some(tokens_view(v@)),
            None => syntect_tokens(h.theme.palette@, h.theme.foreground, h.theme.background, ext@, text@)
                is None,
        },
{
    let syntax = h.set.find_syntax_by_extension(ext)?;
    let mut lines = syntect::easy::HighlightLines::new(syntax, &h.theme.theme);
    let mut out = Vec::new();
    for line in syntect::util::LinesWithEndings::from(text) {
        for (style, token) in lines.highlight_line(line, &h.set).ok()? {
            let c = style.foreground;
            out.push(((c.r, c.g, c.b), token.chars().count()));
        }
    }
    Some(out)
}

pub open spec fn tokens_view(t: Seq<((u8, u8, u8), usize)>) -> Seq<((u8, u8, u8), nat)> {
    t.map_values(|e: ((u8, u8, u8), usize)| (e.0, e.1 as nat))
}

/// Another extension whose syntax stands in for `ext`.
pub open spec fn fallback_ext(ext: Seq<char>) -> Option<Seq<char>> {
    if ext == "cjs"@ || ext == "jsx"@ || ext == "mjs"@ || ext == "ts"@ || ext == "tsx"@ {
        Some("js"@)
    } else if ext == "pyi"@ {
        Some("py"@)
    } else {
        None
    }
}

/// The lowercased text after the last `.` of the path.
pub open spec fn highlight_ext(path: Seq<char>) -> Option<Seq<char>> {
    match rsplit_once(path, "."@) {
        Some((_, e)) => Some(ascii_lower(e)),
        None => None,
    }
}

/// The extension whose syntax colours the file: its own, else its fallback.
pub open spec fn chosen_syntax(path: Seq<char>) -> Option<Seq<char>> {
    match highlight_ext(path) {
        None => None,
        Some(e) => if syntax_known(e) {
            Some(e)
        } else {
            match fallback_ext(e) {
                Some(f) => if syntax_known(f) {
                    Some(f)
                } else {
                    None
                },
                None => None,
            }
        },
    }
}

/// The colours of the tokens, each repeated over its characters.
pub open spec fn expand_tokens(t: Seq<((u8, u8, u8), nat)>) -> Seq<(u8, u8, u8)>
    decreases t.len(),
{
    if t.len() == 0 {
        Seq::empty()
    } else {
        expand_tokens(t.drop_last()) + Seq::new(t.last().1, |i: int| t.last().0)
    }
}

/// Every character in the foreground colour.
pub open spec fn plain_colors(n: nat) -> Seq<(u8, u8, u8)> {
    Seq::new(n, |i: int| fg_color())
}

/// The colour of each character of `text`: the syntect token colours when the
/// file has a syntax and the tokens cover the text exactly, else the
/// foreground everywhere.
pub open spec fn highlight_spec(path: Seq<char>, text: Seq<char>) -> Seq<(u8, u8, u8)> {
    match chosen_syntax(path) {
        None => plain_colors(text.len()),
        Some(e) => match syntect_tokens(palette_spec(), fg_color(), bg_color(), e, text) {
            Some(t) => if expand_tokens(t).len() == text.len() {
                expand_tokens(t)
            } else {
                plain_colors(text.len())
            },
            None => plain_colors(text.len()),
        },
    }
}

proof fn lemma_expand_prefix(t: Seq<((u8, u8, u8), nat)>, k: int)
    requires
        0 <= k <= t.len(),
    ensures
        expand_tokens(t.take(k)).len() <= expand_tokens(t).len(),
    decreases t.len(),
{
    if k < t.len() {
        assert(t.drop_last().take(k) =~= t.take(k));
        lemma_expand_prefix(t.drop_last(), k);
    } else {
        assert(t.take(k) =~= t);
    }
}

fn plain(n: usize) -> (v: Vec<(u8, u8, u8)>)
    ensures
        v@ == plain_colors(n as nat),
{
    let mut v: Vec<(u8, u8, u8)> = Vec::new();
    let mut i: usize = 0;
    while i < n
        invariant
            i <= n,
            v@ == plain_colors(i as nat),
        decreases n - i,
    {
        v.push(foreground());
        assert(v@ =~= plain_colors((i + 1) as nat));
        i += 1;
    }
    v
}

fn lit_is(s: &[char], l: &str) -> (b: bool)
    ensures
        b == (s@ == l@),
{
    let v = chars_of(l);
    crate::text::eq_chars(s, v.as_slice())
}

fn fallback_of(ext: &[char]) -> (r: Option<&'static str>)
    ensures
        match fallback_ext(ext@) {
            Some(f) => r matches Some(x) && x@ == f,
            None => r is None,
        },
{
    if lit_is(ext, "cjs") || lit_is(ext, "jsx") || lit_is(ext, "mjs") || lit_is(ext, "ts") || lit_is(ext, "tsx") {
        Some("js")
    } else if lit_is(ext, "pyi") {
        Some("py")
    } else {
        None
    }
}

/// The extension whose syntax colours the file.
fn choose_syntax(h: &Highlighter, relative_path: &str) -> (r: Option<String>)
    ensures
        match chosen_syntax(relative_path@) {
            Some(e) => r matches Some(x) && x@ == e,
            None => r is None,
        },
{
    let p = chars_of(relative_path);
    let e = match rsplit_once_chars(p.as_slice(), ".") {
        Some((_, e)) => e,
        None => return None,
    };
    let lower = ascii_lower_chars(e.as_slice());
    let own = string_of(lower.as_slice());
    if has_syntax(h, own.as_str()) {
        return Some(own);
    }
    match fallback_of(lower.as_slice()) {
        Some(f) => if has_syntax(h, f) {
            Some(string_of(chars_of(f).as_slice()))
        } else {
            None
        },
        None => None,
    }
}

/// One colour per character of `text`: the syntax colours of the file when
/// syntect can tokenize it, else the foreground colour everywhere.
pub fn highlight_chars(relative_path: &str, text: &str) -> (colors: Vec<(u8, u8, u8)>)
    ensures
        colors@.len() == text@.len(),
        colors@ == highlight_spec(relative_path@, text@),
{
    let n = chars_of(text).len();
    let palette = highlight_palette();
    let h = highlighter(build_theme(&palette, foreground(), background()));
    let ext = match choose_syntax(&h, relative_path) {
        Some(e) => e,
        None => return plain(n),
    };
    let tokens = match highlight_tokens(&h, ext.as_str(), text) {
        Some(t) => t,
        None => return plain(n),
    };
    let ghost tv = tokens_view(tokens@);
    assert(highlight_spec(relative_path@, text@) == (if expand_tokens(tv).len() == n {
        expand_tokens(tv)
    } else {
        plain_colors(n as nat)
    }));
    let mut out: Vec<(u8, u8, u8)> = Vec::new();
    let mut k: usize = 0;
    while k < tokens.len()
        invariant
            k <= tokens@.len(),
            tv == tokens_view(tokens@),
            n == text@.len(),
            highlight_spec(relative_path@, text@) == (if expand_tokens(tv).len() == n {
                expand_tokens(tv)
            } else {
                plain_colors(n as nat)
            }),
            out@ == expand_tokens(tv.take(k as int)),
            out@.len() <= n,
        decreases tokens.len() - k,
    {
        let (color, count) = tokens[k];
        assert(tv.take(k + 1).drop_last() =~= tv.take(k as int));
        assert(tv.take(k + 1).last() == (color, count as nat));
        if count > n - out.len() {
            proof {
                lemma_expand_prefix(tv, k + 1);
            }
            return plain(n);
        }
        let ghost before = out@;
        let mut j: usize = 0;
        while j < count
            invariant
                j <= count,
                out@ == before + Seq::new(j as nat, |i: int| color),
                before.len() + count <= n,
            decreases count - j,
        {
            out.push(color);
            assert(out@ =~= before + Seq::new((j + 1) as nat, |i: int| color));
            j += 1;
        }
        assert(out@ =~= expand_tokens(tv.take(k + 1)));
        k += 1;
    }
    assert(tv.take(tokens@.len() as int) =~= tv);
    if out.len() == n {
        out
    } else {
        plain(n)
    }
}

} // verus!
