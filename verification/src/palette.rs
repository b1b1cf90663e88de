//! Colours of the terminal: palettes for dark and light themes, and which glyphs need the
//! CJK font.

use vstd::prelude::*;

use crate::text::to_chars;
use crate::vt::VtColor;

verus! {

/// 16-colour ANSI palette for **dark** terminals (VS Code "Dark+" values).
pub const ANSI16_DARK: [(u8, u8, u8); 16] = [
    (0x00, 0x00, 0x00), // 0  black
    (0xcd, 0x31, 0x31), // 1  red
    (0x0d, 0xbc, 0x79), // 2  green
    (0xe5, 0xe5, 0x10), // 3  yellow
    (0x24, 0x72, 0xc8), // 4  blue
    (0xbc, 0x3f, 0xbc), // 5  magenta
    (0x11, 0xa8, 0xcd), // 6  cyan
    (0xe5, 0xe5, 0xe5), // 7  white        (light grey on dark bg)
    (0x66, 0x66, 0x66), // 8  bright black
    (0xf1, 0x4c, 0x4c), // 9  bright red
    (0x23, 0xd1, 0x8b), // 10 bright green
    (0xf5, 0xf5, 0x43), // 11 bright yellow
    (0x3b, 0x8e, 0xea), // 12 bright blue
    (0xd6, 0x70, 0xd6), // 13 bright magenta
    (0x29, 0xb8, 0xdb), // 14 bright cyan
    (0xff, 0xff, 0xff), // 15 bright white
];

/// 16-colour ANSI palette for **light** terminal **foreground** (text) use.
///
/// On a near-white (#fafafa) background, the standard "white" (slot 7) and "bright white"
/// (slot 15) are nearly invisible. They map to dark greys, so that tools that use colour 7
/// for regular text stay readable. Saturated hues are darkened for contrast.
pub const ANSI16_LIGHT: [(u8, u8, u8); 16] = [
    (0x1c, 0x1c, 0x1e), // 0  black        → Apple near-black
    (0xc0, 0x39, 0x2b), // 1  red
    (0x1a, 0x7f, 0x37), // 2  green        → darker for white bg
    (0x85, 0x64, 0x04), // 3  yellow       → dark amber, readable
    (0x04, 0x51, 0xa5), // 4  blue         → VS Code light blue
    (0x80, 0x00, 0x80), // 5  magenta
    (0x0e, 0x72, 0x5c), // 6  cyan         → darker teal
    (0x3a, 0x3a, 0x3c), // 7  white        → dark grey (0xe5e5e5 is near-invisible)
    (0x55, 0x55, 0x55), // 8  bright black
    (0xe7, 0x4c, 0x3c), // 9  bright red
    (0x27, 0xae, 0x60), // 10 bright green
    (0xd4, 0xac, 0x0d), // 11 bright yellow
    (0x2e, 0x86, 0xc1), // 12 bright blue
    (0x9b, 0x59, 0xb6), // 13 bright magenta
    (0x1a, 0xbc, 0x9c), // 14 bright cyan
    (0x2c, 0x2c, 0x2e), // 15 bright white → dark (0xffffff is near-invisible)
];

/// 16-colour ANSI palette for **light** terminal **background** (fill) use.
///
/// When TUI programs (btop, htop, vim) paint cell backgrounds in light mode, each colour maps
/// to a light-tinted variant so that the overall UI feels light. Foreground text always uses
/// `ANSI16_LIGHT`.
pub const ANSI16_LIGHT_BG: [(u8, u8, u8); 16] = [
    (0xe8, 0xe8, 0xed), // 0  black        → Apple system-grey-6 (very light)
    (0xff, 0xd5, 0xd5), // 1  red          → light rose
    (0xd5, 0xf5, 0xd5), // 2  green        → light mint
    (0xff, 0xf8, 0xd5), // 3  yellow       → light cream
    (0xd5, 0xe8, 0xf8), // 4  blue         → light sky
    (0xf5, 0xd5, 0xf5), // 5  magenta      → light lilac
    (0xd5, 0xf5, 0xf8), // 6  cyan         → light aqua
    (0xf5, 0xf5, 0xf7), // 7  white        → Apple bg (near-white)
    (0xd1, 0xd1, 0xd6), // 8  bright black → Apple system-grey-4
    (0xff, 0xbe, 0xbe), // 9  bright red   → light salmon
    (0xbe, 0xf5, 0xbe), // 10 bright green
    (0xf5, 0xf5, 0xbe), // 11 bright yellow
    (0xbe, 0xdd, 0xff), // 12 bright blue  → light periwinkle
    (0xf0, 0xbe, 0xff), // 13 bright magenta → light violet
    (0xbe, 0xf5, 0xff), // 14 bright cyan
    (0xff, 0xff, 0xff), // 15 bright white → white
];

// ---- The 256-colour palette -----------------------------------------------

/// One axis of the 6x6x6 colour cube.
pub open spec fn cube_level(v: int) -> u8 {
    if v == 0 {
        0
    } else {
        (55 + v * 40) as u8
    }
}

/// The xterm-256 palette above the 16 ANSI colours: a 6x6x6 cube, then 24 greys.
pub open spec fn extended_color(i: u8) -> (u8, u8, u8) {
    if i < 232 {
        let n = i - 16;
        (cube_level(n / 36), cube_level((n / 6) % 6), cube_level(n % 6))
    } else {
        let v = (8 + (i - 232) * 10) as u8;
        (v, v, v)
    }
}

/// The palette slot for a text colour: bold turns the eight base colours bright.
pub open spec fn text_slot(i: u8, bold: bool) -> u8 {
    if bold && i < 8 {
        (i + 8) as u8
    } else {
        i
    }
}

/// The text colour for a palette index.
pub open spec fn text_color(i: u8, bold: bool, is_dark: bool) -> (u8, u8, u8) {
    let slot = text_slot(i, bold);
    if slot >= 16 {
        extended_color(slot)
    } else if is_dark {
        ANSI16_DARK[slot as int]
    } else {
        ANSI16_LIGHT[slot as int]
    }
}

/// The fill colour for a palette index.
pub open spec fn fill_color(i: u8, is_dark: bool) -> (u8, u8, u8) {
    if !is_dark && i < 16 {
        ANSI16_LIGHT_BG[i as int]
    } else {
        text_color(i, false, is_dark)
    }
}

/// One axis of the 6x6x6 colour cube.
fn to_level(v: u8) -> (r: u8)
    requires
        v < 6,
    ensures
        r == cube_level(v as int),
{
    if v == 0 {
        0
    } else {
        55 + v * 40
    }
}

/// Map an xterm-256 palette index to RGB (16 ANSI + 6x6x6 cube + grayscale).
pub fn idx_to_rgb(i: u8, bold: bool, is_dark: bool) -> (r: (u8, u8, u8))
    ensures
        r == text_color(i, bold, is_dark),
{
    let i: u8 = if bold && i < 8 {
        i + 8
    } else {
        i
    };
    if i < 16 {
        if is_dark {
            ANSI16_DARK[i as usize]
        } else {
            ANSI16_LIGHT[i as usize]
        }
    } else if i < 232 {
        let n: u8 = i - 16;
        (to_level(n / 36), to_level((n % 36) / 6), to_level(n % 6))
    } else {
        let v: u8 = 8 + (i - 232) * 10;
        (v, v, v)
    }
}

/// Same as [`idx_to_rgb`] but for **background** fills: in light mode the 16 ANSI base colours
/// use `ANSI16_LIGHT_BG` (light pastels). The colour cube and greys are used as they are.
pub fn idx_to_rgb_bg(i: u8, is_dark: bool) -> (r: (u8, u8, u8))
    ensures
        r == fill_color(i, is_dark),
{
    if !is_dark && i < 16 {
        return ANSI16_LIGHT_BG[i as usize];
    }
    idx_to_rgb(i, false, is_dark)
}

// ---- Colours as painted ---------------------------------------------------

/// A colour to paint with. `Darkened` and `Lightened` stand for the shade that keeps the hue
/// of the given red, green and blue but moves its lightness into the theme's readable range.
#[derive(Clone, Copy, Debug, PartialEq, Eq, Structural)]
pub enum Shade {
    Clear,
    Opaque(u8, u8, u8),
    Darkened(u8, u8, u8),
    Lightened(u8, u8, u8),
}

/// The greatest of three channels.
pub open spec fn brightest(r: u8, g: u8, b: u8) -> u8 {
    let m = if r >= g {
        r
    } else {
        g
    };
    if m >= b {
        m
    } else {
        b
    }
}

/// The least of three channels.
pub open spec fn darkest(r: u8, g: u8, b: u8) -> u8 {
    let m = if r <= g {
        r
    } else {
        g
    };
    if m <= b {
        m
    } else {
        b
    }
}

/// HSL lightness as a count of 510ths: the sum of the greatest and the least channel.
pub open spec fn lightness(r: u8, g: u8, b: u8) -> int {
    brightest(r, g, b) + darkest(r, g, b)
}

/// HSL lightness as a count of 510ths.
fn lightness_of(r: u8, g: u8, b: u8) -> (l: u32)
    ensures
        l == lightness(r, g, b),
{
    let mut max: u8 = if r >= g {
        r
    } else {
        g
    };
    if b > max {
        max = b;
    }
    let mut min: u8 = if r <= g {
        r
    } else {
        g
    };
    if b < min {
        min = b;
    }
    max as u32 + min as u32
}

/// In light mode, light true-colour foregrounds are darkened so that they are readable on a
/// near-white background. Colours already dark (lightness under 0.55) pass through unchanged.
pub fn darken_light_fg(r: u8, g: u8, b: u8) -> (s: Shade)
    ensures
        s == (if lightness(r, g, b) * 100 < 55 * 510 {
            Shade::Opaque(r, g, b)
        } else {
            Shade::Darkened(r, g, b)
        }),
        s == text_shade(VtColor::Rgb(r, g, b), false, false),
{
    if lightness_of(r, g, b) * 100 < 55 * 510 {
        Shade::Opaque(r, g, b)
    } else {
        Shade::Darkened(r, g, b)
    }
}

/// In light mode, dark true-colour backgrounds are remapped to light pastels. Colours whose
/// lightness is already 0.45 or more pass through unchanged (the program chose a light colour
/// deliberately).
pub fn lighten_dark_bg(r: u8, g: u8, b: u8) -> (s: Shade)
    ensures
        s == (if lightness(r, g, b) * 100 >= 45 * 510 {
            Shade::Opaque(r, g, b)
        } else {
            Shade::Lightened(r, g, b)
        }),
        s == fill_shade(VtColor::Rgb(r, g, b), false),
{
    if lightness_of(r, g, b) * 100 >= 45 * 510 {
        Shade::Opaque(r, g, b)
    } else {
        Shade::Lightened(r, g, b)
    }
}

/// An opaque colour.
pub open spec fn opaque(c: (u8, u8, u8)) -> Shade {
    Shade::Opaque(c.0, c.1, c.2)
}

/// What a terminal colour is painted with as text.
pub open spec fn text_shade(color: VtColor, bold: bool, is_dark: bool) -> Shade {
    match color {
        VtColor::Default => if is_dark {
            Shade::Opaque(0xd4, 0xd4, 0xd4)
        } else {
            Shade::Opaque(0x2d, 0x2d, 0x2f)
        },
        VtColor::Idx(i) => opaque(text_color(i, bold, is_dark)),
        VtColor::Rgb(r, g, b) => if is_dark || lightness(r, g, b) * 100 < 55 * 510 {
            Shade::Opaque(r, g, b)
        } else {
            Shade::Darkened(r, g, b)
        },
    }
}

/// What a terminal colour is painted with as background.
pub open spec fn fill_shade(color: VtColor, is_dark: bool) -> Shade {
    match color {
        VtColor::Default => Shade::Clear,
        VtColor::Idx(i) => opaque(fill_color(i, is_dark)),
        VtColor::Rgb(r, g, b) => if is_dark || lightness(r, g, b) * 100 >= 45 * 510 {
            Shade::Opaque(r, g, b)
        } else {
            Shade::Lightened(r, g, b)
        },
    }
}

/// Convert a terminal foreground colour (+ bold) to the shade to paint. Bold + a base colour
/// (0-7) maps to the bright variant (8-15), as terminals render `ls --color`.
///
/// In light mode, true-colour foregrounds that are light (HSL lightness of 0.55 or more) are
/// darkened so that they remain readable on a near-white background.
pub fn vt_color_to_slint(color: VtColor, bold: bool, is_dark: bool) -> (s: Shade)
    ensures
        s == text_shade(color, bold, is_dark),
{
    match color {
        VtColor::Default => if is_dark {
            Shade::Opaque(0xd4, 0xd4, 0xd4)
        } else {
            Shade::Opaque(0x2d, 0x2d, 0x2f)
        },
        VtColor::Idx(i) => {
            let (r, g, b) = idx_to_rgb(i, bold, is_dark);
            Shade::Opaque(r, g, b)
        },
        VtColor::Rgb(r, g, b) => if is_dark {
            Shade::Opaque(r, g, b)
        } else {
            darken_light_fg(r, g, b)
        },
    }
}

/// Convert a terminal *background* colour to the shade to paint. The default background maps to
/// fully transparent, so that no fill is painted over the terminal's own. Other backgrounds
/// (btop/htop bars, selected rows) are opaque.
///
/// In light mode the 16 ANSI colours use `ANSI16_LIGHT_BG`, and true-colour backgrounds that
/// are dark (HSL lightness under 0.45) are remapped to light pastels.
pub fn vt_bg_to_slint(color: VtColor, is_dark: bool) -> (s: Shade)
    ensures
        s == fill_shade(color, is_dark),
{
    match color {
        VtColor::Default => Shade::Clear,
        VtColor::Idx(i) => {
            let (r, g, b) = idx_to_rgb_bg(i, is_dark);
            Shade::Opaque(r, g, b)
        },
        VtColor::Rgb(r, g, b) => if is_dark {
            Shade::Opaque(r, g, b)
        } else {
            lighten_dark_bg(r, g, b)
        },
    }
}

// ---- CJK ------------------------------------------------------------------

/// Whether a character is CJK: ideograph, kana, bopomofo, punctuation or full-width form.
pub open spec fn is_cjk(c: char) -> bool {
    let n = c as u32;
    ||| 0x2e80 <= n <= 0x2eff  // CJK radicals
    ||| 0x3000 <= n <= 0x312f  // CJK symbols and punctuation, kana, bopomofo
    ||| 0x3400 <= n <= 0x4dbf  // CJK extension A
    ||| 0x4e00 <= n <= 0x9fff  // CJK unified ideographs
    ||| 0xf900 <= n <= 0xfaff  // CJK compatibility ideographs
    ||| 0xff00 <= n <= 0xffef  // full-width and half-width forms
    ||| 0x20000 <= n <= 0x2fa1f  // CJK extensions B to F and compatibility supplement
}

/// Whether a text holds a CJK character.
pub open spec fn has_cjk(s: Seq<char>) -> bool {
    exists|i: int| 0 <= i < s.len() && is_cjk(#[trigger] s[i])
}

/// True if a terminal span contains any CJK character: ideograph, kana, or CJK punctuation.
/// The mono terminal font has no CJK glyphs, and isolated CJK punctuation has no fallback, so
/// these spans are drawn with the CJK-capable UI font. Box-drawing and powerline glyphs are
/// excluded so that they keep the aligned monospace font.
pub fn contains_cjk(s: &str) -> (r: bool)
    ensures
        r == has_cjk(s@),
{
    let chars = to_chars(s);
    let mut i: usize = 0;
    while i < chars.len()
        invariant
            i <= chars@.len(),
            chars@ == s@,
            forall|j: int| 0 <= j < i ==> !is_cjk(#[trigger] s@[j]),
        decreases chars@.len() - i,
    {
        let n: u32 = chars[i] as u32;
        if (0x2e80 <= n && n <= 0x2eff) || (0x3000 <= n && n <= 0x312f) || (0x3400 <= n && n
            <= 0x4dbf) || (0x4e00 <= n && n <= 0x9fff) || (0xf900 <= n && n <= 0xfaff) || (0xff00
            <= n && n <= 0xffef) || (0x20000 <= n && n <= 0x2fa1f) {
            assert(is_cjk(s@[i as int]));
            return true;
        }
        i += 1;
    }
    false
}

// ---- Laws -----------------------------------------------------------------

/// Bold changes only the eight base colours.
pub proof fn law_bold_brightens_base_colours_only(i: u8, is_dark: bool)
    ensures
        i >= 8 ==> text_color(i, true, is_dark) == text_color(i, false, is_dark),
        i < 8 ==> text_color(i, true, is_dark) == text_color((i + 8) as u8, false, is_dark),
{
}

/// Above the 16 ANSI colours the palette is the same for text and fill, dark and light.
pub proof fn law_extended_colours_have_no_theme(i: u8, bold: bool, dark: bool)
    requires
        i >= 16,
    ensures
        text_color(i, bold, dark) == extended_color(i),
        fill_color(i, dark) == extended_color(i),
{
}

/// In dark mode every true colour is painted as the program gave it.
pub proof fn law_dark_mode_keeps_true_colour(r: u8, g: u8, b: u8, bold: bool)
    ensures
        text_shade(VtColor::Rgb(r, g, b), bold, true) == Shade::Opaque(r, g, b),
        fill_shade(VtColor::Rgb(r, g, b), true) == Shade::Opaque(r, g, b),
{
}

/// Only the default background is left unpainted.
pub proof fn law_only_default_fill_is_clear(color: VtColor, is_dark: bool)
    ensures
        fill_shade(color, is_dark) == Shade::Clear <==> color == VtColor::Default,
{
}

/// The colour cube counts red, green and blue in six steps each, blue fastest: a step of none is
/// black in that channel, and the others rise evenly to full. The greys after it rise evenly.
pub proof fn law_cube_and_greys(r: int, g: int, b: int, k: int)
    requires
        0 <= r < 6,
        0 <= g < 6,
        0 <= b < 6,
        0 <= k < 24,
    ensures
        ({
            let c = extended_color((16 + 36 * r + 6 * g + b) as u8);
            &&& c.0 == if r == 0 {
                0
            } else {
                255 - 40 * (5 - r)
            }
            &&& c.1 == if g == 0 {
                0
            } else {
                255 - 40 * (5 - g)
            }
            &&& c.2 == if b == 0 {
                0
            } else {
                255 - 40 * (5 - b)
            }
        }),
        ({
            let c = extended_color((232 + k) as u8);
            c.0 == 8 + 10 * k && c.1 == c.0 && c.2 == c.0
        }),
{
    let n = 36 * r + 6 * g + b;
    assert(n / 36 == r && (n / 6) % 6 == g && n % 6 == b) by (nonlinear_arith)
        requires
            n == 36 * r + 6 * g + b,
            0 <= r < 6,
            0 <= g < 6,
            0 <= b < 6,
    ;
}

/// Whether a colour has the hue of one of the base slots: grey, red, green, yellow, blue,
/// magenta, cyan, grey, in this order and once more.
pub open spec fn has_hue(slot: int, c: (u8, u8, u8)) -> bool {
    let s = slot % 8;
    if s == 0 || s == 7 {
        c.0 == c.1 && c.1 <= c.2 <= c.1 + 5
    } else {
        &&& (s == 1 || s == 3 || s == 5) ==> c.0 > c.1 || c.0 > c.2
        &&& (s == 2 || s == 3 || s == 6) ==> c.1 > c.0 || c.1 > c.2
        &&& (s == 4 || s == 5 || s == 6) ==> c.2 > c.0 || c.2 > c.1
        &&& s == 1 ==> c.0 > c.1 && c.0 > c.2
        &&& s == 2 ==> c.1 > c.0 && c.1 > c.2
        &&& s == 4 ==> c.2 > c.0 && c.2 > c.1
        &&& s == 3 ==> c.2 < c.0 && c.2 < c.1
        &&& s == 5 ==> c.1 < c.0 && c.1 < c.2
        &&& s == 6 ==> c.0 < c.1 && c.0 < c.2
    }
}

/// The base colours keep their hue in either theme, as text and as fill. On a light background
/// text is dark and fill is light; on a dark one the bright half is brighter than the other.
pub proof fn law_base_colours(i: u8)
    requires
        i < 16,
    ensures
        has_hue(i as int, text_color(i, false, true)),
        has_hue(i as int, text_color(i, false, false)),
        has_hue(i as int, fill_color(i, true)),
        has_hue(i as int, fill_color(i, false)),
        ({
            let t = text_color(i, false, false);
            let f = fill_color(i, false);
            lightness(t.0, t.1, t.2) < 300 && lightness(f.0, f.1, f.2) > 400
        }),
        i < 8 ==> ({
            let base = text_color(i, false, true);
            let bright = text_color((i + 8) as u8, false, true);
            lightness(base.0, base.1, base.2) < lightness(bright.0, bright.1, bright.2)
        }),
        fill_color(i, true) == text_color(i, false, true),
{
    assert(ANSI16_DARK@.len() == 16);
}

/// On a light background true-colour text is kept while the mean of its brightest and its darkest
/// channel is under fifty-five hundredths of full, and is darkened otherwise; a fill is kept from
/// forty-five hundredths on, and is lightened otherwise.
pub proof fn law_light_mode_keeps_what_is_legible(
    r: u8,
    g: u8,
    b: u8,
    high: u8,
    low: u8,
    bold: bool,
)
    requires
        high >= r && high >= g && high >= b,
        high == r || high == g || high == b,
        low <= r && low <= g && low <= b,
        low == r || low == g || low == b,
    ensures
        text_shade(VtColor::Rgb(r, g, b), bold, false) == if 10 * (high + low) < 2805 {
            Shade::Opaque(r, g, b)
        } else {
            Shade::Darkened(r, g, b)
        },
        fill_shade(VtColor::Rgb(r, g, b), false) == if 10 * (high + low) >= 2295 {
            Shade::Opaque(r, g, b)
        } else {
            Shade::Lightened(r, g, b)
        },
{
}

/// A colour of the palette is shown as the palette has it: bold moves text from the dim half of
/// the base colours to the bright one, and never changes a fill.
pub proof fn law_palette_colours_are_opaque(i: u8, bold: bool, is_dark: bool)
    ensures
        ({
            let t = if bold && i < 8 {
                text_color((i + 8) as u8, false, is_dark)
            } else {
                text_color(i, false, is_dark)
            };
            let f = fill_color(i, is_dark);
            &&& text_shade(VtColor::Idx(i), bold, is_dark) == Shade::Opaque(t.0, t.1, t.2)
            &&& fill_shade(VtColor::Idx(i), is_dark) == Shade::Opaque(f.0, f.1, f.2)
        }),
{
}

/// Text without a colour of its own is a grey that stands out against its background, whether or
/// not it is bold.
pub proof fn law_default_text_stands_out(bold: bool)
    ensures
        text_shade(VtColor::Default, bold, true) matches Shade::Opaque(r, g, b) && r >= 200 && g
            >= 200 && b >= 200,
        text_shade(VtColor::Default, bold, false) matches Shade::Opaque(r, g, b) && r <= 50 && g
            <= 50 && b <= 50,
{
}

/// What is taken for CJK are whole blocks: the radicals, the symbols with kana and bopomofo, the
/// unified ideographs with their extensions, the compatibility ideographs, and the full-width and
/// half-width forms; nothing before, between or after them is. A text is CJK as soon as one of its
/// characters is.
pub proof fn law_what_is_cjk(c: char, before: Seq<char>, after: Seq<char>)
    ensures
        ({
            let block = (c as u32) / 0x10;
            &&& block < 0x2e8 ==> !is_cjk(c)
            &&& 0x2e8 <= block <= 0x2ef ==> is_cjk(c)
            &&& 0x2f0 <= block <= 0x2ff ==> !is_cjk(c)
            &&& 0x300 <= block <= 0x312 ==> is_cjk(c)
            &&& 0x313 <= block <= 0x33f ==> !is_cjk(c)
            &&& 0x340 <= block <= 0x4db ==> is_cjk(c)
            &&& 0x4dc <= block <= 0x4df ==> !is_cjk(c)
            &&& 0x4e0 <= block <= 0x9ff ==> is_cjk(c)
            &&& 0xa00 <= block <= 0xf8f ==> !is_cjk(c)
            &&& 0xf90 <= block <= 0xfaf ==> is_cjk(c)
            &&& 0xfb0 <= block <= 0xfef ==> !is_cjk(c)
            &&& 0xff0 <= block <= 0xffe ==> is_cjk(c)
            &&& 0xfff <= block <= 0x1fff ==> !is_cjk(c)
            &&& 0x2000 <= block <= 0x2fa1 ==> is_cjk(c)
            &&& 0x2fa2 <= block ==> !is_cjk(c)
        }),
        is_cjk(c) ==> has_cjk(before + seq![c] + after),
        has_cjk(before + after) <==> has_cjk(before) || has_cjk(after),
        !has_cjk(Seq::<char>::empty()),
{
    let s = before + seq![c] + after;
    if is_cjk(c) {
        assert(s[before.len() as int] == c);
    }
    let t = before + after;
    if has_cjk(before) {
        let i = choose|i: int| 0 <= i < before.len() && is_cjk(#[trigger] before[i]);
        assert(t[i] == before[i]);
    }
    if has_cjk(after) {
        let i = choose|i: int| 0 <= i < after.len() && is_cjk(#[trigger] after[i]);
        assert(t[before.len() + i] == after[i]);
    }
    if has_cjk(t) {
        let i = choose|i: int| 0 <= i < t.len() && is_cjk(#[trigger] t[i]);
        if i < before.len() {
            assert(is_cjk(before[i]));
        } else {
            assert(is_cjk(after[i - before.len()]));
        }
    }
}

} // verus!
