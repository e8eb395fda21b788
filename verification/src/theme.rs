//! Colours and the built-in themes: chrome tokens and schematic canvas
//! palettes.

use vstd::prelude::*;
use vstd::string::StringSliceAdditionalSpecFns;

verus! {

/// An RGBA colour.
#[derive(Debug, Clone, Copy, PartialEq, Eq, Hash, Structural)]
pub struct Color {
    pub r: u8,
    pub g: u8,
    pub b: u8,
    pub a: u8,
}

/// A leading byte of a character: `i` is the end of `t` or a byte that is
/// not a UTF-8 continuation byte.
pub open spec fn starts_char(t: Seq<u8>, i: int) -> bool {
    i == t.len() || (0 <= i < t.len() && !(0x80 <= t[i] && t[i] < 0xC0))
}

/// Number of leading `#` bytes.
pub open spec fn hash_prefix(b: Seq<u8>, i: int) -> int
    decreases b.len() - i,
{
    if 0 <= i < b.len() && b[i] == 0x23 {
        hash_prefix(b, i + 1)
    } else {
        i
    }
}

/// The bytes after the leading `#`s.
pub open spec fn hex_body(b: Seq<u8>) -> Seq<u8> {
    b.skip(hash_prefix(b, 0))
}

/// The value of a hexadecimal digit byte, if it is one.
pub open spec fn hex_digit_value(c: u8) -> Option<int> {
    if 0x30 <= c <= 0x39 {
        Some(c - 0x30)
    } else if 0x41 <= c <= 0x46 {
        Some(c - 0x41 + 10)
    } else if 0x61 <= c <= 0x66 {
        Some(c - 0x61 + 10)
    } else {
        None
    }
}

/// Two bytes read as a hexadecimal `u8` the way `u8::from_str_radix`
/// reads them: two digits, or `+` and one digit.
pub open spec fn hex_pair(c0: u8, c1: u8) -> Option<u8> {
    match (hex_digit_value(c0), hex_digit_value(c1)) {
        (Some(h), Some(l)) => Some((h * 16 + l) as u8),
        (None, Some(l)) => if c0 == 0x2B {
            Some(l as u8)
        } else {
            None
        },
        _ => None,
    }
}

pub open spec fn or_default(v: Option<u8>, d: u8) -> u8 {
    match v {
        Some(x) => x,
        None => d,
    }
}

/// `from_hex` can slice its input: after the leading `#`s there are at
/// least six bytes, and each two-byte field starts and ends on a
/// character.
pub open spec fn hex_slices_ok(b: Seq<u8>) -> bool {
    let t = hex_body(b);
    &&& t.len() >= 6
    &&& starts_char(t, 2)
    &&& starts_char(t, 4)
    &&& starts_char(t, 6)
    &&& t.len() >= 8 ==> starts_char(t, 8)
}

pub open spec fn from_hex_spec(b: Seq<u8>) -> Color {
    let t = hex_body(b);
    Color {
        r: or_default(hex_pair(t[0], t[1]), 0),
        g: or_default(hex_pair(t[2], t[3]), 0),
        b: or_default(hex_pair(t[4], t[5]), 0),
        a: if t.len() >= 8 {
            or_default(hex_pair(t[6], t[7]), 255)
        } else {
            255
        },
    }
}

/// The byte of hexadecimal digit `d`, in upper or lower case.
pub open spec fn hex_char_byte(d: int, upper: bool) -> u8 {
    if d < 10 {
        (0x30 + d) as u8
    } else if upper {
        (0x41 + d - 10) as u8
    } else {
        (0x61 + d - 10) as u8
    }
}

/// The two hexadecimal digits of a byte (as `{:02X}` or `{:02x}` writes
/// them).
pub open spec fn hex_byte_text(v: u8, upper: bool) -> Seq<u8> {
    seq![hex_char_byte((v / 16) as int, upper), hex_char_byte((v % 16) as int, upper)]
}

/// `#RRGGBB`, with `AA` after it when `with_alpha`.
pub open spec fn hex_color_text(c: Color, upper: bool, with_alpha: bool) -> Seq<u8> {
    seq![0x23u8] + hex_byte_text(c.r, upper) + hex_byte_text(c.g, upper) + hex_byte_text(c.b, upper) + if with_alpha {
        hex_byte_text(c.a, upper)
    } else {
        Seq::empty()
    }
}

proof fn lemma_hex_byte(v: u8, upper: bool)
    ensures
        hex_pair(hex_byte_text(v, upper)[0], hex_byte_text(v, upper)[1]) == Some(v),
        hex_byte_text(v, upper)[0] < 0x80 && hex_byte_text(v, upper)[1] < 0x80,
        hex_byte_text(v, upper)[0] != 0x23,
{
    let h = (v / 16) as int;
    let l = (v % 16) as int;
    assert(hex_digit_value(hex_char_byte(h, upper)) == Some(h));
    assert(hex_digit_value(hex_char_byte(l, upper)) == Some(l));
    assert(h * 16 + l == v);
}

/// A colour written as hexadecimal (`#RRGGBBAA`, or `#RRGGBB` for an
/// opaque one), in either case, reads back as the same colour.
pub proof fn lemma_hex_round_trip(c: Color, upper: bool, with_alpha: bool)
    requires
        with_alpha || c.a == 255,
    ensures
        hex_slices_ok(hex_color_text(c, upper, with_alpha)),
        from_hex_spec(hex_color_text(c, upper, with_alpha)) == c,
{
    let b = hex_color_text(c, upper, with_alpha);
    lemma_hex_byte(c.r, upper);
    lemma_hex_byte(c.g, upper);
    lemma_hex_byte(c.b, upper);
    lemma_hex_byte(c.a, upper);
    assert(b[1] == hex_byte_text(c.r, upper)[0]);
    assert(hash_prefix(b, 1) == 1);
    assert(hash_prefix(b, 0) == 1);
    let t = hex_body(b);
    assert(t =~= hex_byte_text(c.r, upper) + hex_byte_text(c.g, upper) + hex_byte_text(c.b, upper) + if with_alpha {
        hex_byte_text(c.a, upper)
    } else {
        Seq::empty()
    });
}

fn hex_digit(c: u8) -> (r: Option<u8>)
    ensures
        match hex_digit_value(c) {
            Some(v) => r == Some(v as u8),
            None => r is None,
        },
{
    if 0x30 <= c && c <= 0x39 {
        Some(c - 0x30)
    } else if 0x41 <= c && c <= 0x46 {
        Some(c - 0x41 + 10)
    } else if 0x61 <= c && c <= 0x66 {
        Some(c - 0x61 + 10)
    } else {
        None
    }
}

fn parse_hex_pair(c0: u8, c1: u8, default: u8) -> (r: u8)
    ensures
        r == or_default(hex_pair(c0, c1), default),
{
    match (hex_digit(c0), hex_digit(c1)) {
        (Some(h), Some(l)) => h * 16 + l,
        (None, Some(l)) => if c0 == 0x2B {
            l
        } else {
            default
        },
        _ => default,
    }
}

impl Color {
    pub fn new(r: u8, g: u8, b: u8, a: u8) -> (c: Color)
        ensures
            c == (Color { r, g, b, a }),
    {
        Color { r, g, b, a }
    }

    /// Parses `#RRGGBB` or `#RRGGBBAA` (any number of leading `#`). A field
    /// that is not hexadecimal reads as 0, a bad alpha as 255; alpha is 255
    /// when the input has fewer than eight digits.
    pub fn from_hex(hex: &str) -> (c: Color)
        requires
            hex_slices_ok(hex.spec_bytes()),
        ensures
            c == from_hex_spec(hex.spec_bytes()),
    {
        let b = hex.as_bytes();
        let mut i: usize = 0;
        while i < b.len() && b[i] == 0x23
            invariant
                i <= b@.len(),
                b@ == hex.spec_bytes(),
                hash_prefix(b@, i as int) == hash_prefix(b@, 0),
            decreases b.len() - i,
        {
            i += 1;
        }
        let ghost t = hex_body(b@);
        assert(t =~= b@.skip(i as int));
        assert(t[0] == b@[i as int] && t[1] == b@[i + 1] && t[2] == b@[i + 2]);
        assert(t[3] == b@[i + 3] && t[4] == b@[i + 4] && t[5] == b@[i + 5]);
        let r = parse_hex_pair(b[i], b[i + 1], 0);
        let g = parse_hex_pair(b[i + 2], b[i + 3], 0);
        let bl = parse_hex_pair(b[i + 4], b[i + 5], 0);
        let a = if b.len() - i >= 8 {
            assert(t[6] == b@[i + 6] && t[7] == b@[i + 7]);
            parse_hex_pair(b[i + 6], b[i + 7], 255)
        } else {
            255
        };
        Color { r, g, b: bl, a }
    }
}

/// The opaque colour `(r, g, b)`.
pub open spec fn rgb(r: u8, g: u8, b: u8) -> Color {
    Color { r, g, b, a: 0xFF }
}

/// An opaque colour.
pub fn c(r: u8, g: u8, b: u8) -> (col: Color)
    ensures
        col == rgb(r, g, b),
{
    Color { r, g, b, a: 0xFF }
}

/// The themes the application offers.
#[derive(Debug, Clone, Copy, PartialEq, Eq, Hash, Structural)]
pub enum ThemeId {
    CatppuccinMocha,
    VsCodeDark,
    Signex,
    /// Signex's chrome with a cyan accent.
    Alplab,
    GitHubDark,
    SolarizedLight,
    Nord,
    /// A user theme whose colours live in a `CustomThemeFile`.
    Custom,
}

pub open spec fn theme_label(id: ThemeId) -> Seq<char> {
    match id {
        ThemeId::CatppuccinMocha => "Catppuccin Mocha"@,
        ThemeId::VsCodeDark => "VS Code Dark"@,
        ThemeId::Signex => "Signex"@,
        ThemeId::Alplab => "Alp Lab"@,
        ThemeId::GitHubDark => "GitHub Dark"@,
        ThemeId::SolarizedLight => "Solarized Light"@,
        ThemeId::Nord => "Nord"@,
        ThemeId::Custom => "Custom"@,
    }
}

pub open spec fn builtins_spec() -> Seq<ThemeId> {
    seq![
        ThemeId::Signex,
        ThemeId::Alplab,
        ThemeId::VsCodeDark,
        ThemeId::CatppuccinMocha,
        ThemeId::GitHubDark,
        ThemeId::SolarizedLight,
        ThemeId::Nord,
    ]
}

impl ThemeId {
    /// The built-in themes, in menu order (every theme but `Custom`).
    pub fn builtins() -> (v: Vec<ThemeId>)
        ensures
            v@ == builtins_spec(),
    {
        let v = vec![
            ThemeId::Signex,
            ThemeId::Alplab,
            ThemeId::VsCodeDark,
            ThemeId::CatppuccinMocha,
            ThemeId::GitHubDark,
            ThemeId::SolarizedLight,
            ThemeId::Nord,
        ];
        assert(v@ =~= builtins_spec());
        v
    }

    /// The name shown for the theme.
    pub fn label(self) -> (r: &'static str)
        ensures
            r@ == theme_label(self),
    {
        match self {
            ThemeId::CatppuccinMocha => "Catppuccin Mocha",
            ThemeId::VsCodeDark => "VS Code Dark",
            ThemeId::Signex => "Signex",
            ThemeId::Alplab => "Alp Lab",
            ThemeId::GitHubDark => "GitHub Dark",
            ThemeId::SolarizedLight => "Solarized Light",
            ThemeId::Nord => "Nord",
            ThemeId::Custom => "Custom",
        }
    }
}

/// Panel chrome and widget colours.
#[derive(Debug, Clone, Copy, PartialEq, Eq, Structural)]
pub struct ThemeTokens {
    pub bg: Color,
    pub paper: Color,
    pub text: Color,
    pub text_secondary: Color,
    pub accent: Color,
    pub border: Color,
    pub panel_bg: Color,
    pub toolbar_bg: Color,
    pub statusbar_bg: Color,
    pub selection: Color,
    pub hover: Color,
    pub error: Color,
    pub warning: Color,
    pub success: Color,
}

/// The schematic canvas palette.
#[derive(Debug, Clone, Copy, PartialEq, Eq, Structural)]
pub struct CanvasColors {
    pub background: Color,
    pub paper: Color,
    pub wire: Color,
    pub junction: Color,
    pub body: Color,
    pub body_fill: Color,
    pub pin: Color,
    pub reference: Color,
    pub value: Color,
    pub net_label: Color,
    pub global_label: Color,
    pub hier_label: Color,
    pub no_connect: Color,
    pub power: Color,
    pub selection: Color,
    pub bus: Color,
    pub grid: Color,
    pub cursor: Color,
}

/// A user-defined theme: its name and full set of colours.
#[derive(Debug, Clone)]
pub struct CustomThemeFile {
    pub name: String,
    pub tokens: ThemeTokens,
    pub canvas: CanvasColors,
}

// ---------------------------------------------------------------------------
// Palettes
// ---------------------------------------------------------------------------

pub open spec fn catppuccin_mocha_tokens() -> ThemeTokens {
    ThemeTokens {
        bg: rgb(0x1E, 0x1E, 0x2E),
        paper: rgb(0x31, 0x32, 0x44),
        text: rgb(0xCD, 0xD6, 0xF4),
        text_secondary: rgb(0xA6, 0xAD, 0xC8),
        accent: rgb(0x89, 0xB4, 0xFA),
        border: rgb(0x45, 0x47, 0x5A),
        panel_bg: rgb(0x18, 0x18, 0x25),
        toolbar_bg: rgb(0x1E, 0x1E, 0x2E),
        statusbar_bg: rgb(0x18, 0x18, 0x25),
        selection: rgb(0x58, 0x5B, 0x70),
        hover: rgb(0x45, 0x47, 0x5A),
        error: rgb(0xF3, 0x8B, 0xA8),
        warning: rgb(0xFA, 0xB3, 0x87),
        success: rgb(0xA6, 0xE3, 0xA1),
    }
}

pub open spec fn catppuccin_mocha_canvas() -> CanvasColors {
    CanvasColors {
        background: rgb(0x1E, 0x1E, 0x2E),
        paper: rgb(0x31, 0x32, 0x44),
        wire: rgb(0xA6, 0xE3, 0xA1),
        junction: rgb(0xA6, 0xE3, 0xA1),
        body: rgb(0x89, 0xB4, 0xFA),
        body_fill: rgb(0x31, 0x32, 0x44),
        pin: rgb(0xCD, 0xD6, 0xF4),
        reference: rgb(0x89, 0xB4, 0xFA),
        value: rgb(0xF5, 0xC2, 0xE7),
        net_label: rgb(0x94, 0xE2, 0xD5),
        global_label: rgb(0xF9, 0xE2, 0xAF),
        hier_label: rgb(0xFA, 0xB3, 0x87),
        no_connect: rgb(0xF3, 0x8B, 0xA8),
        power: rgb(0xF3, 0x8B, 0xA8),
        selection: rgb(0xF5, 0xE0, 0xDC),
        bus: rgb(0x89, 0xDC, 0xEB),
        grid: rgb(0x45, 0x47, 0x5A),
        cursor: rgb(0xF5, 0xE0, 0xDC),
    }
}

pub open spec fn vscode_dark_tokens() -> ThemeTokens {
    ThemeTokens {
        bg: rgb(0x1E, 0x1E, 0x1E),
        paper: rgb(0x25, 0x25, 0x26),
        text: rgb(0xD4, 0xD4, 0xD4),
        text_secondary: rgb(0x80, 0x80, 0x80),
        accent: rgb(0x00, 0x7A, 0xCC),
        border: rgb(0x3C, 0x3C, 0x3C),
        panel_bg: rgb(0x18, 0x18, 0x18),
        toolbar_bg: rgb(0x33, 0x33, 0x33),
        statusbar_bg: rgb(0x00, 0x7A, 0xCC),
        selection: rgb(0x26, 0x4F, 0x78),
        hover: rgb(0x2A, 0x2D, 0x2E),
        error: rgb(0xF4, 0x44, 0x47),
        warning: rgb(0xFF, 0x8C, 0x00),
        success: rgb(0x6A, 0x99, 0x55),
    }
}

pub open spec fn vscode_dark_canvas() -> CanvasColors {
    CanvasColors {
        background: rgb(0x1E, 0x1E, 0x1E),
        paper: rgb(0x25, 0x25, 0x26),
        wire: rgb(0x6A, 0x99, 0x55),
        junction: rgb(0x6A, 0x99, 0x55),
        body: rgb(0x56, 0x9C, 0xD6),
        body_fill: rgb(0x25, 0x25, 0x26),
        pin: rgb(0xD4, 0xD4, 0xD4),
        reference: rgb(0x56, 0x9C, 0xD6),
        value: rgb(0xCE, 0x91, 0x78),
        net_label: rgb(0x4E, 0xC9, 0xB0),
        global_label: rgb(0xDC, 0xDC, 0xAA),
        hier_label: rgb(0xFF, 0x8C, 0x00),
        no_connect: rgb(0xF4, 0x44, 0x47),
        power: rgb(0xF4, 0x44, 0x47),
        selection: rgb(0xFF, 0xFF, 0xFF),
        bus: rgb(0x9C, 0xDC, 0xFE),
        grid: rgb(0x3C, 0x3C, 0x3C),
        cursor: rgb(0xFF, 0xFF, 0xFF),
    }
}

pub open spec fn signex_tokens() -> ThemeTokens {
    ThemeTokens {
        bg: rgb(0x2D, 0x2D, 0x30),
        paper: rgb(0x1E, 0x1E, 0x1E),
        text: rgb(0xDC, 0xDC, 0xDC),
        text_secondary: rgb(0x9B, 0x9B, 0x9B),
        accent: rgb(0xE8, 0x91, 0x2D),
        border: rgb(0x3F, 0x3F, 0x46),
        panel_bg: rgb(0x25, 0x25, 0x28),
        toolbar_bg: rgb(0x2D, 0x2D, 0x30),
        statusbar_bg: rgb(0x25, 0x25, 0x28),
        selection: rgb(0x51, 0x51, 0x55),
        hover: rgb(0x3F, 0x3F, 0x46),
        error: rgb(0xF4, 0x4E, 0x4E),
        warning: rgb(0xE8, 0x91, 0x2D),
        success: rgb(0x57, 0xA6, 0x4A),
    }
}

pub open spec fn signex_canvas() -> CanvasColors {
    CanvasColors {
        background: rgb(0x50, 0x50, 0x50),
        paper: rgb(0xFF, 0xFF, 0xE0),
        wire: rgb(0x00, 0x00, 0x80),
        junction: rgb(0x00, 0x00, 0x80),
        body: rgb(0x80, 0x60, 0x00),
        body_fill: rgb(0xFF, 0xFF, 0x80),
        pin: rgb(0x00, 0x00, 0x00),
        reference: rgb(0x80, 0x00, 0x00),
        value: rgb(0x00, 0x00, 0x80),
        net_label: rgb(0x80, 0x00, 0x00),
        global_label: rgb(0x80, 0x00, 0x00),
        hier_label: rgb(0x80, 0x00, 0x00),
        no_connect: rgb(0x80, 0x00, 0x00),
        power: rgb(0x80, 0x00, 0x00),
        selection: rgb(0x00, 0x78, 0xD4),
        bus: rgb(0x00, 0x00, 0x80),
        grid: rgb(0xC0, 0xC0, 0xC0),
        cursor: rgb(0x00, 0x00, 0x00),
    }
}

pub open spec fn alplab_tokens() -> ThemeTokens {
    ThemeTokens {
        bg: rgb(0x2D, 0x2D, 0x30),
        paper: rgb(0x1E, 0x1E, 0x1E),
        text: rgb(0xDC, 0xDC, 0xDC),
        text_secondary: rgb(0x9B, 0x9B, 0x9B),
        accent: rgb(0x08, 0x91, 0xB2),
        border: rgb(0x3F, 0x3F, 0x46),
        panel_bg: rgb(0x25, 0x25, 0x28),
        toolbar_bg: rgb(0x2D, 0x2D, 0x30),
        statusbar_bg: rgb(0x25, 0x25, 0x28),
        selection: rgb(0x51, 0x51, 0x55),
        hover: rgb(0x3F, 0x3F, 0x46),
        error: rgb(0xF4, 0x4E, 0x4E),
        warning: rgb(0xE8, 0x91, 0x2D),
        success: rgb(0x57, 0xA6, 0x4A),
    }
}

pub open spec fn github_dark_tokens() -> ThemeTokens {
    ThemeTokens {
        bg: rgb(0x0D, 0x11, 0x17),
        paper: rgb(0x16, 0x1B, 0x22),
        text: rgb(0xE6, 0xED, 0xF3),
        text_secondary: rgb(0x8B, 0x94, 0x9E),
        accent: rgb(0x58, 0xA6, 0xFF),
        border: rgb(0x30, 0x36, 0x3D),
        panel_bg: rgb(0x01, 0x04, 0x09),
        toolbar_bg: rgb(0x16, 0x1B, 0x22),
        statusbar_bg: rgb(0x01, 0x04, 0x09),
        selection: rgb(0x38, 0x8B, 0xFD),
        hover: rgb(0x17, 0x1B, 0x22),
        error: rgb(0xFF, 0x7B, 0x72),
        warning: rgb(0xD2, 0x9A, 0x22),
        success: rgb(0x3F, 0xB9, 0x50),
    }
}

pub open spec fn github_dark_canvas() -> CanvasColors {
    CanvasColors {
        background: rgb(0x0D, 0x11, 0x17),
        paper: rgb(0x16, 0x1B, 0x22),
        wire: rgb(0x3F, 0xB9, 0x50),
        junction: rgb(0x3F, 0xB9, 0x50),
        body: rgb(0x58, 0xA6, 0xFF),
        body_fill: rgb(0x16, 0x1B, 0x22),
        pin: rgb(0xE6, 0xED, 0xF3),
        reference: rgb(0x58, 0xA6, 0xFF),
        value: rgb(0xD2, 0xA8, 0xFF),
        net_label: rgb(0x7E, 0xE7, 0x87),
        global_label: rgb(0xD2, 0x9A, 0x22),
        hier_label: rgb(0xFE, 0xA5, 0x5F),
        no_connect: rgb(0xFF, 0x7B, 0x72),
        power: rgb(0xFF, 0x7B, 0x72),
        selection: rgb(0xFF, 0xFF, 0xFF),
        bus: rgb(0x79, 0xC0, 0xFF),
        grid: rgb(0x30, 0x36, 0x3D),
        cursor: rgb(0xFF, 0xFF, 0xFF),
    }
}

pub open spec fn solarized_light_tokens() -> ThemeTokens {
    ThemeTokens {
        bg: rgb(0xFD, 0xF6, 0xE3),
        paper: rgb(0xEE, 0xE8, 0xD5),
        text: rgb(0x65, 0x7B, 0x83),
        text_secondary: rgb(0x93, 0xA1, 0xA1),
        accent: rgb(0x26, 0x8B, 0xD2),
        border: rgb(0x93, 0xA1, 0xA1),
        panel_bg: rgb(0xFD, 0xF6, 0xE3),
        toolbar_bg: rgb(0xEE, 0xE8, 0xD5),
        statusbar_bg: rgb(0xEE, 0xE8, 0xD5),
        selection: rgb(0x26, 0x8B, 0xD2),
        hover: rgb(0xEE, 0xE8, 0xD5),
        error: rgb(0xDC, 0x32, 0x2F),
        warning: rgb(0xCB, 0x4B, 0x16),
        success: rgb(0x85, 0x99, 0x00),
    }
}

pub open spec fn solarized_light_canvas() -> CanvasColors {
    CanvasColors {
        background: rgb(0xFD, 0xF6, 0xE3),
        paper: rgb(0xEE, 0xE8, 0xD5),
        wire: rgb(0x85, 0x99, 0x00),
        junction: rgb(0x85, 0x99, 0x00),
        body: rgb(0x26, 0x8B, 0xD2),
        body_fill: rgb(0xEE, 0xE8, 0xD5),
        pin: rgb(0x65, 0x7B, 0x83),
        reference: rgb(0x26, 0x8B, 0xD2),
        value: rgb(0xD3, 0x36, 0x82),
        net_label: rgb(0x2A, 0xA1, 0x98),
        global_label: rgb(0xB5, 0x89, 0x00),
        hier_label: rgb(0xCB, 0x4B, 0x16),
        no_connect: rgb(0xDC, 0x32, 0x2F),
        power: rgb(0xDC, 0x32, 0x2F),
        selection: rgb(0x00, 0x2B, 0x36),
        bus: rgb(0x6C, 0x71, 0xC4),
        grid: rgb(0x93, 0xA1, 0xA1),
        cursor: rgb(0x00, 0x2B, 0x36),
    }
}

pub open spec fn nord_tokens() -> ThemeTokens {
    ThemeTokens {
        bg: rgb(0x2E, 0x34, 0x40),
        paper: rgb(0x3B, 0x42, 0x52),
        text: rgb(0xEC, 0xEF, 0xF4),
        text_secondary: rgb(0xD8, 0xDE, 0xE9),
        accent: rgb(0x88, 0xC0, 0xD0),
        border: rgb(0x4C, 0x56, 0x6A),
        panel_bg: rgb(0x2E, 0x34, 0x40),
        toolbar_bg: rgb(0x3B, 0x42, 0x52),
        statusbar_bg: rgb(0x2E, 0x34, 0x40),
        selection: rgb(0x43, 0x4C, 0x5E),
        hover: rgb(0x43, 0x4C, 0x5E),
        error: rgb(0xBF, 0x61, 0x6A),
        warning: rgb(0xEB, 0xCB, 0x8B),
        success: rgb(0xA3, 0xBE, 0x8C),
    }
}

pub open spec fn nord_canvas() -> CanvasColors {
    CanvasColors {
        background: rgb(0x2E, 0x34, 0x40),
        paper: rgb(0x3B, 0x42, 0x52),
        wire: rgb(0xA3, 0xBE, 0x8C),
        junction: rgb(0xA3, 0xBE, 0x8C),
        body: rgb(0x88, 0xC0, 0xD0),
        body_fill: rgb(0x3B, 0x42, 0x52),
        pin: rgb(0xEC, 0xEF, 0xF4),
        reference: rgb(0x88, 0xC0, 0xD0),
        value: rgb(0xB4, 0x8E, 0xAD),
        net_label: rgb(0x8F, 0xBC, 0xBB),
        global_label: rgb(0xEB, 0xCB, 0x8B),
        hier_label: rgb(0xD0, 0x87, 0x70),
        no_connect: rgb(0xBF, 0x61, 0x6A),
        power: rgb(0xBF, 0x61, 0x6A),
        selection: rgb(0xEC, 0xEF, 0xF4),
        bus: rgb(0x81, 0xA1, 0xC1),
        grid: rgb(0x4C, 0x56, 0x6A),
        cursor: rgb(0xEC, 0xEF, 0xF4),
    }
}

fn catppuccin_mocha_tokens_palette() -> (p: ThemeTokens)
    ensures
        p == catppuccin_mocha_tokens(),
{
    ThemeTokens {
        bg: c(0x1E, 0x1E, 0x2E),
        paper: c(0x31, 0x32, 0x44),
        text: c(0xCD, 0xD6, 0xF4),
        text_secondary: c(0xA6, 0xAD, 0xC8),
        accent: c(0x89, 0xB4, 0xFA),
        border: c(0x45, 0x47, 0x5A),
        panel_bg: c(0x18, 0x18, 0x25),
        toolbar_bg: c(0x1E, 0x1E, 0x2E),
        statusbar_bg: c(0x18, 0x18, 0x25),
        selection: c(0x58, 0x5B, 0x70),
        hover: c(0x45, 0x47, 0x5A),
        error: c(0xF3, 0x8B, 0xA8),
        warning: c(0xFA, 0xB3, 0x87),
        success: c(0xA6, 0xE3, 0xA1),
    }
}

fn catppuccin_mocha_canvas_palette() -> (p: CanvasColors)
    ensures
        p == catppuccin_mocha_canvas(),
{
    CanvasColors {
        background: c(0x1E, 0x1E, 0x2E),
        paper: c(0x31, 0x32, 0x44),
        wire: c(0xA6, 0xE3, 0xA1),
        junction: c(0xA6, 0xE3, 0xA1),
        body: c(0x89, 0xB4, 0xFA),
        body_fill: c(0x31, 0x32, 0x44),
        pin: c(0xCD, 0xD6, 0xF4),
        reference: c(0x89, 0xB4, 0xFA),
        value: c(0xF5, 0xC2, 0xE7),
        net_label: c(0x94, 0xE2, 0xD5),
        global_label: c(0xF9, 0xE2, 0xAF),
        hier_label: c(0xFA, 0xB3, 0x87),
        no_connect: c(0xF3, 0x8B, 0xA8),
        power: c(0xF3, 0x8B, 0xA8),
        selection: c(0xF5, 0xE0, 0xDC),
        bus: c(0x89, 0xDC, 0xEB),
        grid: c(0x45, 0x47, 0x5A),
        cursor: c(0xF5, 0xE0, 0xDC),
    }
}

fn vscode_dark_tokens_palette() -> (p: ThemeTokens)
    ensures
        p == vscode_dark_tokens(),
{
    ThemeTokens {
        bg: c(0x1E, 0x1E, 0x1E),
        paper: c(0x25, 0x25, 0x26),
        text: c(0xD4, 0xD4, 0xD4),
        text_secondary: c(0x80, 0x80, 0x80),
        accent: c(0x00, 0x7A, 0xCC),
        border: c(0x3C, 0x3C, 0x3C),
        panel_bg: c(0x18, 0x18, 0x18),
        toolbar_bg: c(0x33, 0x33, 0x33),
        statusbar_bg: c(0x00, 0x7A, 0xCC),
        selection: c(0x26, 0x4F, 0x78),
        hover: c(0x2A, 0x2D, 0x2E),
        error: c(0xF4, 0x44, 0x47),
        warning: c(0xFF, 0x8C, 0x00),
        success: c(0x6A, 0x99, 0x55),
    }
}

fn vscode_dark_canvas_palette() -> (p: CanvasColors)
    ensures
        p == vscode_dark_canvas(),
{
    CanvasColors {
        background: c(0x1E, 0x1E, 0x1E),
        paper: c(0x25, 0x25, 0x26),
        wire: c(0x6A, 0x99, 0x55),
        junction: c(0x6A, 0x99, 0x55),
        body: c(0x56, 0x9C, 0xD6),
        body_fill: c(0x25, 0x25, 0x26),
        pin: c(0xD4, 0xD4, 0xD4),
        reference: c(0x56, 0x9C, 0xD6),
        value: c(0xCE, 0x91, 0x78),
        net_label: c(0x4E, 0xC9, 0xB0),
        global_label: c(0xDC, 0xDC, 0xAA),
        hier_label: c(0xFF, 0x8C, 0x00),
        no_connect: c(0xF4, 0x44, 0x47),
        power: c(0xF4, 0x44, 0x47),
        selection: c(0xFF, 0xFF, 0xFF),
        bus: c(0x9C, 0xDC, 0xFE),
        grid: c(0x3C, 0x3C, 0x3C),
        cursor: c(0xFF, 0xFF, 0xFF),
    }
}

fn signex_tokens_palette() -> (p: ThemeTokens)
    ensures
        p == signex_tokens(),
{
    ThemeTokens {
        bg: c(0x2D, 0x2D, 0x30),
        paper: c(0x1E, 0x1E, 0x1E),
        text: c(0xDC, 0xDC, 0xDC),
        text_secondary: c(0x9B, 0x9B, 0x9B),
        accent: c(0xE8, 0x91, 0x2D),
        border: c(0x3F, 0x3F, 0x46),
        panel_bg: c(0x25, 0x25, 0x28),
        toolbar_bg: c(0x2D, 0x2D, 0x30),
        statusbar_bg: c(0x25, 0x25, 0x28),
        selection: c(0x51, 0x51, 0x55),
        hover: c(0x3F, 0x3F, 0x46),
        error: c(0xF4, 0x4E, 0x4E),
        warning: c(0xE8, 0x91, 0x2D),
        success: c(0x57, 0xA6, 0x4A),
    }
}

fn signex_canvas_palette() -> (p: CanvasColors)
    ensures
        p == signex_canvas(),
{
    CanvasColors {
        background: c(0x50, 0x50, 0x50),
        paper: c(0xFF, 0xFF, 0xE0),
        wire: c(0x00, 0x00, 0x80),
        junction: c(0x00, 0x00, 0x80),
        body: c(0x80, 0x60, 0x00),
        body_fill: c(0xFF, 0xFF, 0x80),
        pin: c(0x00, 0x00, 0x00),
        reference: c(0x80, 0x00, 0x00),
        value: c(0x00, 0x00, 0x80),
        net_label: c(0x80, 0x00, 0x00),
        global_label: c(0x80, 0x00, 0x00),
        hier_label: c(0x80, 0x00, 0x00),
        no_connect: c(0x80, 0x00, 0x00),
        power: c(0x80, 0x00, 0x00),
        selection: c(0x00, 0x78, 0xD4),
        bus: c(0x00, 0x00, 0x80),
        grid: c(0xC0, 0xC0, 0xC0),
        cursor: c(0x00, 0x00, 0x00),
    }
}

fn alplab_tokens_palette() -> (p: ThemeTokens)
    ensures
        p == alplab_tokens(),
{
    ThemeTokens {
        bg: c(0x2D, 0x2D, 0x30),
        paper: c(0x1E, 0x1E, 0x1E),
        text: c(0xDC, 0xDC, 0xDC),
        text_secondary: c(0x9B, 0x9B, 0x9B),
        accent: c(0x08, 0x91, 0xB2),
        border: c(0x3F, 0x3F, 0x46),
        panel_bg: c(0x25, 0x25, 0x28),
        toolbar_bg: c(0x2D, 0x2D, 0x30),
        statusbar_bg: c(0x25, 0x25, 0x28),
        selection: c(0x51, 0x51, 0x55),
        hover: c(0x3F, 0x3F, 0x46),
        error: c(0xF4, 0x4E, 0x4E),
        warning: c(0xE8, 0x91, 0x2D),
        success: c(0x57, 0xA6, 0x4A),
    }
}

fn github_dark_tokens_palette() -> (p: ThemeTokens)
    ensures
        p == github_dark_tokens(),
{
    ThemeTokens {
        bg: c(0x0D, 0x11, 0x17),
        paper: c(0x16, 0x1B, 0x22),
        text: c(0xE6, 0xED, 0xF3),
        text_secondary: c(0x8B, 0x94, 0x9E),
        accent: c(0x58, 0xA6, 0xFF),
        border: c(0x30, 0x36, 0x3D),
        panel_bg: c(0x01, 0x04, 0x09),
        toolbar_bg: c(0x16, 0x1B, 0x22),
        statusbar_bg: c(0x01, 0x04, 0x09),
        selection: c(0x38, 0x8B, 0xFD),
        hover: c(0x17, 0x1B, 0x22),
        error: c(0xFF, 0x7B, 0x72),
        warning: c(0xD2, 0x9A, 0x22),
        success: c(0x3F, 0xB9, 0x50),
    }
}

fn github_dark_canvas_palette() -> (p: CanvasColors)
    ensures
        p == github_dark_canvas(),
{
    CanvasColors {
        background: c(0x0D, 0x11, 0x17),
        paper: c(0x16, 0x1B, 0x22),
        wire: c(0x3F, 0xB9, 0x50),
        junction: c(0x3F, 0xB9, 0x50),
        body: c(0x58, 0xA6, 0xFF),
        body_fill: c(0x16, 0x1B, 0x22),
        pin: c(0xE6, 0xED, 0xF3),
        reference: c(0x58, 0xA6, 0xFF),
        value: c(0xD2, 0xA8, 0xFF),
        net_label: c(0x7E, 0xE7, 0x87),
        global_label: c(0xD2, 0x9A, 0x22),
        hier_label: c(0xFE, 0xA5, 0x5F),
        no_connect: c(0xFF, 0x7B, 0x72),
        power: c(0xFF, 0x7B, 0x72),
        selection: c(0xFF, 0xFF, 0xFF),
        bus: c(0x79, 0xC0, 0xFF),
        grid: c(0x30, 0x36, 0x3D),
        cursor: c(0xFF, 0xFF, 0xFF),
    }
}

fn solarized_light_tokens_palette() -> (p: ThemeTokens)
    ensures
        p == solarized_light_tokens(),
{
    ThemeTokens {
        bg: c(0xFD, 0xF6, 0xE3),
        paper: c(0xEE, 0xE8, 0xD5),
        text: c(0x65, 0x7B, 0x83),
        text_secondary: c(0x93, 0xA1, 0xA1),
        accent: c(0x26, 0x8B, 0xD2),
        border: c(0x93, 0xA1, 0xA1),
        panel_bg: c(0xFD, 0xF6, 0xE3),
        toolbar_bg: c(0xEE, 0xE8, 0xD5),
        statusbar_bg: c(0xEE, 0xE8, 0xD5),
        selection: c(0x26, 0x8B, 0xD2),
        hover: c(0xEE, 0xE8, 0xD5),
        error: c(0xDC, 0x32, 0x2F),
        warning: c(0xCB, 0x4B, 0x16),
        success: c(0x85, 0x99, 0x00),
    }
}

fn solarized_light_canvas_palette() -> (p: CanvasColors)
    ensures
        p == solarized_light_canvas(),
{
    CanvasColors {
        background: c(0xFD, 0xF6, 0xE3),
        paper: c(0xEE, 0xE8, 0xD5),
        wire: c(0x85, 0x99, 0x00),
        junction: c(0x85, 0x99, 0x00),
        body: c(0x26, 0x8B, 0xD2),
        body_fill: c(0xEE, 0xE8, 0xD5),
        pin: c(0x65, 0x7B, 0x83),
        reference: c(0x26, 0x8B, 0xD2),
        value: c(0xD3, 0x36, 0x82),
        net_label: c(0x2A, 0xA1, 0x98),
        global_label: c(0xB5, 0x89, 0x00),
        hier_label: c(0xCB, 0x4B, 0x16),
        no_connect: c(0xDC, 0x32, 0x2F),
        power: c(0xDC, 0x32, 0x2F),
        selection: c(0x00, 0x2B, 0x36),
        bus: c(0x6C, 0x71, 0xC4),
        grid: c(0x93, 0xA1, 0xA1),
        cursor: c(0x00, 0x2B, 0x36),
    }
}

fn nord_tokens_palette() -> (p: ThemeTokens)
    ensures
        p == nord_tokens(),
{
    ThemeTokens {
        bg: c(0x2E, 0x34, 0x40),
        paper: c(0x3B, 0x42, 0x52),
        text: c(0xEC, 0xEF, 0xF4),
        text_secondary: c(0xD8, 0xDE, 0xE9),
        accent: c(0x88, 0xC0, 0xD0),
        border: c(0x4C, 0x56, 0x6A),
        panel_bg: c(0x2E, 0x34, 0x40),
        toolbar_bg: c(0x3B, 0x42, 0x52),
        statusbar_bg: c(0x2E, 0x34, 0x40),
        selection: c(0x43, 0x4C, 0x5E),
        hover: c(0x43, 0x4C, 0x5E),
        error: c(0xBF, 0x61, 0x6A),
        warning: c(0xEB, 0xCB, 0x8B),
        success: c(0xA3, 0xBE, 0x8C),
    }
}

fn nord_canvas_palette() -> (p: CanvasColors)
    ensures
        p == nord_canvas(),
{
    CanvasColors {
        background: c(0x2E, 0x34, 0x40),
        paper: c(0x3B, 0x42, 0x52),
        wire: c(0xA3, 0xBE, 0x8C),
        junction: c(0xA3, 0xBE, 0x8C),
        body: c(0x88, 0xC0, 0xD0),
        body_fill: c(0x3B, 0x42, 0x52),
        pin: c(0xEC, 0xEF, 0xF4),
        reference: c(0x88, 0xC0, 0xD0),
        value: c(0xB4, 0x8E, 0xAD),
        net_label: c(0x8F, 0xBC, 0xBB),
        global_label: c(0xEB, 0xCB, 0x8B),
        hier_label: c(0xD0, 0x87, 0x70),
        no_connect: c(0xBF, 0x61, 0x6A),
        power: c(0xBF, 0x61, 0x6A),
        selection: c(0xEC, 0xEF, 0xF4),
        bus: c(0x81, 0xA1, 0xC1),
        grid: c(0x4C, 0x56, 0x6A),
        cursor: c(0xEC, 0xEF, 0xF4),
    }
}

pub open spec fn theme_tokens_spec(id: ThemeId) -> ThemeTokens {
    match id {
        ThemeId::CatppuccinMocha => catppuccin_mocha_tokens(),
        ThemeId::VsCodeDark => vscode_dark_tokens(),
        ThemeId::Signex => signex_tokens(),
        ThemeId::Alplab => alplab_tokens(),
        ThemeId::GitHubDark => github_dark_tokens(),
        ThemeId::SolarizedLight => solarized_light_tokens(),
        ThemeId::Nord => nord_tokens(),
        ThemeId::Custom => signex_tokens(),
    }
}

pub open spec fn canvas_colors_spec(id: ThemeId) -> CanvasColors {
    match id {
        ThemeId::CatppuccinMocha => catppuccin_mocha_canvas(),
        ThemeId::VsCodeDark => vscode_dark_canvas(),
        ThemeId::Signex => signex_canvas(),
        ThemeId::Alplab => signex_canvas(),
        ThemeId::GitHubDark => github_dark_canvas(),
        ThemeId::SolarizedLight => solarized_light_canvas(),
        ThemeId::Nord => nord_canvas(),
        ThemeId::Custom => signex_canvas(),
    }
}

/// The chrome tokens of a theme; `Custom` falls back to Signex's (its own
/// colours live in its `CustomThemeFile`).
pub fn theme_tokens(id: ThemeId) -> (t: ThemeTokens)
    ensures
        t == theme_tokens_spec(id),
{
    match id {
        ThemeId::CatppuccinMocha => catppuccin_mocha_tokens_palette(),
        ThemeId::VsCodeDark => vscode_dark_tokens_palette(),
        ThemeId::Signex => signex_tokens_palette(),
        ThemeId::Alplab => alplab_tokens_palette(),
        ThemeId::GitHubDark => github_dark_tokens_palette(),
        ThemeId::SolarizedLight => solarized_light_tokens_palette(),
        ThemeId::Nord => nord_tokens_palette(),
        ThemeId::Custom => signex_tokens_palette(),
    }
}

/// The canvas palette of a theme; Alp Lab and `Custom` use Signex's.
pub fn canvas_colors(id: ThemeId) -> (p: CanvasColors)
    ensures
        p == canvas_colors_spec(id),
{
    match id {
        ThemeId::CatppuccinMocha => catppuccin_mocha_canvas_palette(),
        ThemeId::VsCodeDark => vscode_dark_canvas_palette(),
        ThemeId::Signex => signex_canvas_palette(),
        ThemeId::Alplab => signex_canvas_palette(),
        ThemeId::GitHubDark => github_dark_canvas_palette(),
        ThemeId::SolarizedLight => solarized_light_canvas_palette(),
        ThemeId::Nord => nord_canvas_palette(),
        ThemeId::Custom => signex_canvas_palette(),
    }
}

/// Alp Lab is Signex with a different accent: every other chrome token and
/// the whole canvas palette are Signex's.
pub proof fn lemma_alplab_is_signex_but_accent()
    ensures
        theme_tokens_spec(ThemeId::Alplab) == (ThemeTokens {
            accent: theme_tokens_spec(ThemeId::Alplab).accent,
            ..theme_tokens_spec(ThemeId::Signex)
        }),
        theme_tokens_spec(ThemeId::Alplab).accent != theme_tokens_spec(ThemeId::Signex).accent,
        canvas_colors_spec(ThemeId::Alplab) == canvas_colors_spec(ThemeId::Signex),
{
}

/// A custom theme looks like Signex wherever its own file is not used.
pub proof fn lemma_custom_falls_back_to_signex()
    ensures
        theme_tokens_spec(ThemeId::Custom) == theme_tokens_spec(ThemeId::Signex),
        canvas_colors_spec(ThemeId::Custom) == canvas_colors_spec(ThemeId::Signex),
{
}

/// Every built-in theme has a label of its own, and `Custom` is not among
/// the built-ins.
pub proof fn lemma_builtins_distinct()
    ensures
        forall|i: int, j: int|
            0 <= i < j < builtins_spec().len() ==> builtins_spec()[i] != builtins_spec()[j],
        !builtins_spec().contains(ThemeId::Custom),
        builtins_spec().len() == 7,
{
    assert(builtins_spec()[6] != ThemeId::Custom);
    assert forall|k: int| 0 <= k < builtins_spec().len() implies builtins_spec()[k] != ThemeId::Custom by {}
}

} // verus!
