//! Deterministic mapping from a label character to a display color.
//!
//! Every label character gets a hue of its own by multiplying its code point
//! with a fixed large prime and reducing modulo 360. Saturation, lightness and
//! alpha are fixed; the hover variant of a color only raises the lightness.

use vstd::prelude::*;

verus! {

/// An HSL color with an alpha channel, held as plain integers: the hue in
/// degrees, the other three channels in percent.
#[derive(Clone, Copy, Debug, PartialEq, Eq, Structural)]
pub struct HslColor {
    /// Hue in degrees, always below 360.
    pub hue_deg: u16,
    /// Saturation in percent.
    pub saturation_pct: u8,
    /// Lightness in percent.
    pub lightness_pct: u8,
    /// Alpha in percent.
    pub alpha_pct: u8,
}

/// The hue assigned to a character: its code point times a fixed large prime,
/// reduced modulo 360.
pub open spec fn hue_of(c: char) -> int {
    (c as int * 10007) % 360
}

/// The color a label character is normally shown in.
pub open spec fn base_color_of(c: char) -> HslColor {
    HslColor {
        hue_deg: hue_of(c) as u16,
        saturation_pct: 100,
        lightness_pct: 50,
        alpha_pct: 100,
    }
}

/// The color a label character is shown in while hovered: the same hue and
/// saturation, at a higher lightness.
pub open spec fn hover_color_of(c: char) -> HslColor {
    HslColor {
        hue_deg: hue_of(c) as u16,
        saturation_pct: 100,
        lightness_pct: 80,
        alpha_pct: 100,
    }
}

/// The normal display color of a label character.
pub fn char_to_color(c: char) -> (col: HslColor)
    ensures
        col == base_color_of(c),
        col.hue_deg < 360,
{
    let code: u64 = c as u64;
    let hue: u64 = (code * 10007) % 360;
    proof {
        assert(code * 10007 <= 0x10FFFFu64 * 10007) by (nonlinear_arith)
            requires
                code <= 0x10FFFF,
        ;
    }
    HslColor { hue_deg: hue as u16, saturation_pct: 100, lightness_pct: 50, alpha_pct: 100 }
}

/// The hover display color of a label character.
pub fn hover_color(c: char) -> (col: HslColor)
    ensures
        col == hover_color_of(c),
        col.hue_deg < 360,
{
    let base = char_to_color(c);
    HslColor {
        hue_deg: base.hue_deg,
        saturation_pct: base.saturation_pct,
        lightness_pct: 80,
        alpha_pct: base.alpha_pct,
    }
}

/// Law: characters with adjacent code points never share a hue, so neighbours
/// in the alphabet are always told apart by color.
pub proof fn lemma_adjacent_hues_differ(a: char, b: char)
    requires
        b as int == a as int + 1,
    ensures
        hue_of(a) != hue_of(b),
{
    let m: int = a as int * 10007;
    assert(b as int * 10007 == m + 10007) by (nonlinear_arith)
        requires
            b as int == a as int + 1,
            m == a as int * 10007,
    ;
    assert(m >= 0) by (nonlinear_arith)
        requires
            a as int >= 0,
            m == a as int * 10007,
    ;
    vstd::arithmetic::div_mod::lemma_add_mod_noop(m, 10007, 360);
    assert(10007int % 360 == 287);
    let r: int = m % 360;
    vstd::arithmetic::div_mod::lemma_mod_bound(m, 360);
    if r + 287 < 360 {
        vstd::arithmetic::div_mod::lemma_small_mod((r + 287) as nat, 360);
    } else {
        vstd::arithmetic::div_mod::lemma_mod_sub_multiples_vanish(r + 287, 360);
        vstd::arithmetic::div_mod::lemma_small_mod((r + 287 - 360) as nat, 360);
    }
}

} // verus!
