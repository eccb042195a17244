//! Colours: 24-bit RGB values, hexadecimal notation, the 256-colour palette
//! and the theme through which cell colours are resolved.

use vstd::prelude::*;
use vstd::string::*;
use vstd::utf8::is_ascii_chars;

verus! {

/// A 24-bit colour.
#[derive(Debug, Clone, Copy, PartialEq, Eq, Structural, Hash)]
pub struct RgbColor {
    pub r: u8,
    pub g: u8,
    pub b: u8,
}

/// Value of one hexadecimal digit, if `c` is one.
pub open spec fn hex_digit(c: char) -> Option<int> {
    if '0' <= c && c <= '9' {
        Some(c as int - '0' as int)
    } else if 'a' <= c && c <= 'f' {
        Some(c as int - 'a' as int + 10)
    } else if 'A' <= c && c <= 'F' {
        Some(c as int - 'A' as int + 10)
    } else {
        None
    }
}

/// Value of a two-character channel: two hex digits give `16 * hi + lo`.
pub open spec fn hex_pair(hi: char, lo: char) -> Option<int> {
    match (hex_digit(hi), hex_digit(lo)) {
        (Some(h), Some(l)) => Some(16 * h + l),
        _ => None,
    }
}

/// `s` without its leading `#` characters.
pub open spec fn strip_hashes(s: Seq<char>) -> Seq<char>
    decreases s.len(),
{
    if s.len() > 0 && s[0] == '#' {
        strip_hashes(s.subrange(1, s.len() as int))
    } else {
        s
    }
}

/// The colour written by six characters, if they are three valid channels.
pub open spec fn parse_channels(s: Seq<char>) -> Option<RgbColor> {
    if s.len() != 6 {
        None
    } else {
        match (hex_pair(s[0], s[1]), hex_pair(s[2], s[3]), hex_pair(s[4], s[5])) {
            (Some(r), Some(g), Some(b)) => Some(RgbColor { r: r as u8, g: g as u8, b: b as u8 }),
            _ => None,
        }
    }
}

/// The colour that a hexadecimal notation denotes: any number of leading `#`,
/// then exactly six ASCII characters forming three channels.
pub open spec fn parse_hex(s: Seq<char>) -> Option<RgbColor> {
    if is_ascii_chars(s) {
        parse_channels(strip_hashes(s))
    } else {
        None
    }
}

/// The lower-case hexadecimal digit for a value below sixteen.
pub open spec fn digit_char(v: int) -> char {
    if v < 10 {
        ((v + '0' as int) as u8) as char
    } else {
        ((v - 10 + 'a' as int) as u8) as char
    }
}

/// The canonical notation of a colour: `#rrggbb` in lower case.
pub open spec fn hex_text(c: RgbColor) -> Seq<char> {
    seq![
        '#',
        digit_char(c.r as int / 16),
        digit_char(c.r as int % 16),
        digit_char(c.g as int / 16),
        digit_char(c.g as int % 16),
        digit_char(c.b as int / 16),
        digit_char(c.b as int % 16),
    ]
}

/// Two-thirds of a channel, rounded down.
pub open spec fn dim_channel(v: u8) -> u8 {
    (v as int * 2 / 3) as u8
}

/// A colour at two-thirds intensity.
pub open spec fn dimmed(c: RgbColor) -> RgbColor {
    RgbColor { r: dim_channel(c.r), g: dim_channel(c.g), b: dim_channel(c.b) }
}

/// One axis of the 6x6x6 colour cube: level 0 is 0, level n is 55 + 40 n.
pub open spec fn cube_level(level: int) -> int {
    if level == 0 {
        0
    } else {
        55 + 40 * level
    }
}

/// The fixed part of the 256-colour palette. Indices below 16 belong to the
/// theme and give black here; 16 to 231 are the colour cube; 232 to 255 are
/// the grey ramp `8 + 10 (idx - 232)`.
pub open spec fn palette_256(idx: u8) -> RgbColor {
    if idx < 16 {
        RgbColor { r: 0, g: 0, b: 0 }
    } else if idx < 232 {
        let i = idx as int - 16;
        RgbColor {
            r: cube_level((i / 36) % 6) as u8,
            g: cube_level((i / 6) % 6) as u8,
            b: cube_level(i % 6) as u8,
        }
    } else {
        let v = (8 + 10 * (idx as int - 232)) as u8;
        RgbColor { r: v, g: v, b: v }
    }
}

/// Appends one character to a `String` with `String::push`: the text grows
/// by exactly that character.
#[verifier::external_body]
pub(crate) fn push_char(s: &mut String, c: char)
    ensures
        final(s)@ == old(s)@.push(c),
{
    s.push(c);
}

fn digit_value(b: u8) -> (r: Option<u8>)
    ensures
        match (r, hex_digit(b as char)) {
            (Some(v), Some(d)) => v as int == d && v < 16,
            (None, None) => true,
            _ => false,
        },
{
    if b >= 48 && b <= 57 {
        Some(b - 48)
    } else if b >= 97 && b <= 102 {
        Some(b - 97 + 10)
    } else if b >= 65 && b <= 70 {
        Some(b - 65 + 10)
    } else {
        None
    }
}

fn pair_value(hi: u8, lo: u8) -> (r: Option<u8>)
    ensures
        match (r, hex_pair(hi as char, lo as char)) {
            (Some(v), Some(d)) => v as int == d,
            (None, None) => true,
            _ => false,
        },
{
    match (digit_value(hi), digit_value(lo)) {
        (Some(h), Some(l)) => Some(16 * h + l),
        _ => None,
    }
}

fn digit_of(v: u8) -> (c: char)
    requires
        v < 16,
    ensures
        c == digit_char(v as int),
{
    if v < 10 {
        (v + 48) as char
    } else {
        (v - 10 + 97) as char
    }
}

/// `strip_hashes` skips a run of `#` at the front.
proof fn lemma_strip_prefix(s: Seq<char>, k: int)
    requires
        0 <= k <= s.len(),
        forall|i: int| 0 <= i < k ==> s[i] == '#',
    ensures
        strip_hashes(s) == strip_hashes(s.subrange(k, s.len() as int)),
    decreases k,
{
    if k == 0 {
        assert(s.subrange(0, s.len() as int) =~= s);
    } else {
        let t = s.subrange(1, s.len() as int);
        assert(t.subrange(k - 1, t.len() as int) =~= s.subrange(k, s.len() as int));
        lemma_strip_prefix(t, k - 1);
    }
}

impl RgbColor {
    pub fn new(r: u8, g: u8, b: u8) -> (c: Self)
        ensures
            c == (RgbColor { r, g, b }),
    {
        RgbColor { r, g, b }
    }

    /// Reads a colour from hexadecimal notation such as `#ff5b56`.
    pub fn from_hex(hex: &str) -> (r: Option<Self>)
        ensures
            r == parse_hex(hex@),
    {
        broadcast use is_ascii_spec_bytes;

        if !hex.is_ascii() {
            return None;
        }
        let bytes = hex.as_bytes();
        let n = bytes.len();
        let mut k: usize = 0;
        while k < n && bytes[k] == 35
            invariant
                n == bytes@.len(),
                k <= n,
                forall|i: int| 0 <= i < k ==> bytes@[i] == 35u8,
            decreases n - k,
        {
            k += 1;
        }
        proof {
            assert(bytes@.len() == hex@.len());
            assert forall|i: int| 0 <= i < hex@.len() implies hex@[i] as u8 == bytes@[i]
                && (hex@[i] as u32) < 128 by {
                assert(is_ascii_chars(hex@));
            }
            assert forall|i: int| 0 <= i < k implies hex@[i] == '#' by {
                assert(bytes@[i] == 35u8);
            }
            lemma_strip_prefix(hex@, k as int);
            let rest = hex@.subrange(k as int, n as int);
            if rest.len() > 0 && rest[0] == '#' {
                assert(bytes@[k as int] == 35u8);
            }
            assert(strip_hashes(rest) == rest);
        }
        if n - k != 6 {
            return None;
        }
        let ghost rest = hex@.subrange(k as int, n as int);
        proof {
            assert forall|i: int| 0 <= i < 6 implies bytes@[k + i] as char == #[trigger] rest[i] by {
                assert(rest[i] == hex@[k + i]);
            }
            assert(rest[0] == bytes@[k + 0] as char);
        }
        let r = pair_value(bytes[k], bytes[k + 1]);
        let g = pair_value(bytes[k + 2], bytes[k + 3]);
        let b = pair_value(bytes[k + 4], bytes[k + 5]);
        match (r, g, b) {
            (Some(r), Some(g), Some(b)) => Some(RgbColor { r, g, b }),
            _ => None,
        }
    }

    /// Writes the colour as `#rrggbb` in lower case.
    pub fn to_hex(&self) -> (s: String)
        ensures
            s@ == hex_text(*self),
    {
        let mut s = String::new();
        push_char(&mut s, '#');
        push_char(&mut s, digit_of(self.r / 16));
        push_char(&mut s, digit_of(self.r % 16));
        push_char(&mut s, digit_of(self.g / 16));
        push_char(&mut s, digit_of(self.g % 16));
        push_char(&mut s, digit_of(self.b / 16));
        push_char(&mut s, digit_of(self.b % 16));
        assert(s@ =~= hex_text(*self));
        s
    }
}

/// Reading back the canonical notation of a colour gives that colour.
pub proof fn lemma_hex_round_trip(c: RgbColor)
    ensures
        parse_hex(hex_text(c)) == Some(c),
{
    let s = hex_text(c);
    let t = s.subrange(1, 7);
    assert(forall|v: int| 0 <= v < 16 ==> hex_digit(#[trigger] digit_char(v)) == Some(v)
        && digit_char(v) != '#' && digit_char(v) != '+' && (digit_char(v) as u32) < 128);
    assert(is_ascii_chars(s)) by {
        assert forall|i: int| 0 <= i < s.len() implies (s[i] as u32) < 128 by {}
    }
    assert(strip_hashes(s) == strip_hashes(t));
    assert(t[0] == digit_char(c.r as int / 16));
    assert(strip_hashes(t) == t);
    assert(t.len() == 6);
    assert(hex_pair(t[0], t[1]) == Some(c.r as int));
    assert(hex_pair(t[2], t[3]) == Some(c.g as int));
    assert(hex_pair(t[4], t[5]) == Some(c.b as int));
}

/// Dims a colour to two-thirds of its intensity.
pub fn dim_color(c: RgbColor) -> (d: RgbColor)
    ensures
        d == dimmed(c),
{
    RgbColor {
        r: (c.r as u16 * 2 / 3) as u8,
        g: (c.g as u16 * 2 / 3) as u8,
        b: (c.b as u16 * 2 / 3) as u8,
    }
}

fn cube_value(level: u8) -> (v: u8)
    requires
        level < 6,
    ensures
        v as int == cube_level(level as int),
{
    if level == 0 {
        0
    } else {
        55 + 40 * level
    }
}

/// The colour of an index of the 256-colour palette that the theme does not
/// define.
pub fn index_256_to_rgb(idx: u8) -> (c: RgbColor)
    ensures
        c == palette_256(idx),
{
    if idx < 16 {
        RgbColor { r: 0, g: 0, b: 0 }
    } else if idx < 232 {
        let i: u8 = idx - 16;
        RgbColor { r: cube_value((i / 36) % 6), g: cube_value((i / 6) % 6), b: cube_value(i % 6) }
    } else {
        let v: u8 = 8 + 10 * (idx - 232);
        RgbColor { r: v, g: v, b: v }
    }
}


/// The colours of a theme.
#[derive(Debug, Clone)]
pub struct ThemeColors {
    pub background: RgbColor,
    pub foreground: RgbColor,
    pub cursor: RgbColor,
    pub selection_bg: RgbColor,
    pub selection_fg: RgbColor,
    /// The sixteen ANSI colours: eight normal, eight bright.
    pub ansi: [RgbColor; 16],
}

/// A named set of colours.
#[derive(Debug, Clone)]
pub struct Theme {
    pub name: String,
    pub colors: ThemeColors,
}

/// The sixteen ANSI colours of the default theme.
pub open spec fn default_ansi() -> Seq<RgbColor> {
    seq![
        RgbColor { r: 0x00, g: 0x00, b: 0x00 },
        RgbColor { r: 0xff, g: 0x5b, b: 0x56 },
        RgbColor { r: 0x5a, g: 0xf7, b: 0x8d },
        RgbColor { r: 0xf3, g: 0xf9, b: 0x9c },
        RgbColor { r: 0x57, g: 0xc7, b: 0xfe },
        RgbColor { r: 0xff, g: 0x69, b: 0xc0 },
        RgbColor { r: 0x9a, g: 0xec, b: 0xfe },
        RgbColor { r: 0xf1, g: 0xf1, b: 0xf0 },
        RgbColor { r: 0x68, g: 0x67, b: 0x67 },
        RgbColor { r: 0xff, g: 0x5b, b: 0x56 },
        RgbColor { r: 0x5a, g: 0xf7, b: 0x8d },
        RgbColor { r: 0xf3, g: 0xf9, b: 0x9c },
        RgbColor { r: 0x57, g: 0xc7, b: 0xfe },
        RgbColor { r: 0xff, g: 0x69, b: 0xc0 },
        RgbColor { r: 0x9a, g: 0xec, b: 0xfe },
        RgbColor { r: 0xf1, g: 0xf1, b: 0xf0 },
    ]
}

impl Default for ThemeColors {
    /// The colours of the default dark theme.
    fn default() -> (c: Self)
        ensures
            c.background == (RgbColor { r: 0x27, g: 0x29, b: 0x35 }),
            c.foreground == (RgbColor { r: 0xef, g: 0xf0, b: 0xea }),
            c.cursor == (RgbColor { r: 0xe9, g: 0xe9, b: 0xe9 }),
            c.selection_bg == (RgbColor { r: 0x92, g: 0xbb, b: 0xd0 }),
            c.selection_fg == (RgbColor { r: 0x00, g: 0x00, b: 0x00 }),
            c.ansi@ == default_ansi(),
    {
        let c = ThemeColors {
            background: RgbColor { r: 0x27, g: 0x29, b: 0x35 },
            foreground: RgbColor { r: 0xef, g: 0xf0, b: 0xea },
            cursor: RgbColor { r: 0xe9, g: 0xe9, b: 0xe9 },
            selection_bg: RgbColor { r: 0x92, g: 0xbb, b: 0xd0 },
            selection_fg: RgbColor { r: 0x00, g: 0x00, b: 0x00 },
            ansi: [
                RgbColor { r: 0x00, g: 0x00, b: 0x00 },
                RgbColor { r: 0xff, g: 0x5b, b: 0x56 },
                RgbColor { r: 0x5a, g: 0xf7, b: 0x8d },
                RgbColor { r: 0xf3, g: 0xf9, b: 0x9c },
                RgbColor { r: 0x57, g: 0xc7, b: 0xfe },
                RgbColor { r: 0xff, g: 0x69, b: 0xc0 },
                RgbColor { r: 0x9a, g: 0xec, b: 0xfe },
                RgbColor { r: 0xf1, g: 0xf1, b: 0xf0 },
                RgbColor { r: 0x68, g: 0x67, b: 0x67 },
                RgbColor { r: 0xff, g: 0x5b, b: 0x56 },
                RgbColor { r: 0x5a, g: 0xf7, b: 0x8d },
                RgbColor { r: 0xf3, g: 0xf9, b: 0x9c },
                RgbColor { r: 0x57, g: 0xc7, b: 0xfe },
                RgbColor { r: 0xff, g: 0x69, b: 0xc0 },
                RgbColor { r: 0x9a, g: 0xec, b: 0xfe },
                RgbColor { r: 0xf1, g: 0xf1, b: 0xf0 },
            ],
        };
        assert(c.ansi@ =~= default_ansi());
        c
    }
}

impl Default for Theme {
    /// The default dark theme.
    fn default() -> (t: Self)
        ensures
            t.name@ == "iterm2-default"@,
            t.colors.ansi@ == default_ansi(),
            t.colors.background == (RgbColor { r: 0x27, g: 0x29, b: 0x35 }),
            t.colors.foreground == (RgbColor { r: 0xef, g: 0xf0, b: 0xea }),
            t.colors.cursor == (RgbColor { r: 0xe9, g: 0xe9, b: 0xe9 }),
            t.colors.selection_bg == (RgbColor { r: 0x92, g: 0xbb, b: 0xd0 }),
            t.colors.selection_fg == (RgbColor { r: 0x00, g: 0x00, b: 0x00 }),
    {
        Theme { name: String::from_str("iterm2-default"), colors: ThemeColors::default() }
    }
}

/// The colour of a cell as the terminal records it.
#[derive(Debug, Clone, Copy, PartialEq, Eq, Structural)]
pub enum CellColor {
    /// A named colour, by its number: 0 to 15 are the ANSI colours, 256 the
    /// foreground, 257 the background, 258 the cursor, 259 to 266 the dim
    /// ANSI colours, 267 the bright and 268 the dim foreground.
    Named(u16),
    /// A colour given by its channels.
    Spec(u8, u8, u8),
    /// An index into the 256-colour palette.
    Indexed(u8),
}

pub const NAMED_FOREGROUND: u16 = 256;

pub const NAMED_BACKGROUND: u16 = 257;

pub const NAMED_CURSOR: u16 = 258;

pub const NAMED_DIM_BLACK: u16 = 259;

pub const NAMED_DIM_WHITE: u16 = 266;

pub const NAMED_BRIGHT_FOREGROUND: u16 = 267;

/// The colour that a theme gives to a cell colour. Named colours go through
/// the theme, the dim ones at two-thirds intensity, and any unknown name is
/// the foreground; palette indices below 16 are the theme's ANSI colours, the
/// others the fixed palette.
pub open spec fn resolved_color(color: CellColor, theme: Theme) -> RgbColor {
    match color {
        CellColor::Named(n) => if n == NAMED_FOREGROUND || n == NAMED_BRIGHT_FOREGROUND {
            theme.colors.foreground
        } else if n == NAMED_BACKGROUND {
            theme.colors.background
        } else if n == NAMED_CURSOR {
            theme.colors.cursor
        } else if NAMED_DIM_BLACK <= n <= NAMED_DIM_WHITE {
            dimmed(theme.colors.ansi@[n - NAMED_DIM_BLACK])
        } else if n < 16 {
            theme.colors.ansi@[n as int]
        } else {
            theme.colors.foreground
        },
        CellColor::Spec(r, g, b) => RgbColor { r, g, b },
        CellColor::Indexed(idx) => if idx < 16 {
            theme.colors.ansi@[idx as int]
        } else {
            palette_256(idx)
        },
    }
}

/// Resolves a cell colour through a theme.
pub fn alacritty_color_to_rgb(color: &CellColor, theme: &Theme) -> (c: RgbColor)
    ensures
        c == resolved_color(*color, *theme),
{
    match color {
        CellColor::Named(n) => {
            let n: u16 = *n;
            if n == NAMED_FOREGROUND || n == NAMED_BRIGHT_FOREGROUND {
                theme.colors.foreground
            } else if n == NAMED_BACKGROUND {
                theme.colors.background
            } else if n == NAMED_CURSOR {
                theme.colors.cursor
            } else if NAMED_DIM_BLACK <= n && n <= NAMED_DIM_WHITE {
                dim_color(theme.colors.ansi[(n - NAMED_DIM_BLACK) as usize])
            } else if n < 16 {
                theme.colors.ansi[n as usize]
            } else {
                theme.colors.foreground
            }
        },
        CellColor::Spec(r, g, b) => RgbColor { r: *r, g: *g, b: *b },
        CellColor::Indexed(idx) => {
            if *idx < 16 {
                theme.colors.ansi[*idx as usize]
            } else {
                index_256_to_rgb(*idx)
            }
        },
    }
}

} // verus!
