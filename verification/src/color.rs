//! Methylation-to-color mapping. The hue is interpolated between green
//! (no methylation, 120 degrees) and red (full methylation, 0 degrees) and
//! converted to RGB in HSV space, so that the midpoint is a true bright
//! yellow rather than the dull brown an RGB interpolation would give.

use vstd::prelude::*;

use crate::decimal::Decimal;
use crate::digits::lemma_pow10_monotone;
use crate::digits::lemma_pow10_values;
use crate::digits::pow10;
use crate::digits::spec_pow10;
use crate::records::RgbWithDisplay;

verus! {

/// The top of the hue range: 120 degrees is green, 0 degrees is red.
pub const ENCODE_HSV_MAX_HUE: i64 = 120;

/// The red, green and blue bytes that palette produces for the hue
/// `num / den` degrees at full saturation and value.
pub uninterp spec fn hue_rgb_bytes(num: int, den: int) -> (u8, u8, u8);

/// Relies on palette's `From<Hsv> for Rgb` (the HSV sector formula over
/// the linear color space, followed by the sRGB transfer encoding) and on
/// `Rgb::into_format`, which rescales each channel to a byte, rounding to
/// nearest and clamping. Together they map a hue at full saturation and
/// value to three display bytes, and the result depends on the hue alone.
#[verifier::external_body]
fn hsv_rgb_bytes(hue_num: i64, hue_den: i64) -> (rgb: (u8, u8, u8))
    requires
        1 <= hue_den,
    ensures
        rgb == hue_rgb_bytes(hue_num as int, hue_den as int),
{
    let num = num_traits::ToPrimitive::to_f32(&hue_num).unwrap();
    let den = num_traits::ToPrimitive::to_f32(&hue_den).unwrap();
    let hue: palette::RgbHue = palette::RgbHue::from_degrees(num / den);
    let one = num_traits::One::one();
    let rgb: palette::rgb::Rgb = palette::Hsv::new(hue, one, one).into();
    rgb.into_format::<u8>().into_components()
}

/// Numerator of the hue for a methylation percentage `m / 10^s`: the hue
/// is `(1 - percent/100) * 120` degrees, which over the common denominator
/// `10^(s+1)` has numerator `120 * 10^(s+1) - 12 * m`.
pub open spec fn spec_hue_num(pct: Decimal) -> int {
    (ENCODE_HSV_MAX_HUE as int) * spec_pow10((pct.scale + 1) as nat) - 12 * pct.mantissa
}

/// Denominator of the hue for a methylation percentage.
pub open spec fn spec_hue_den(pct: Decimal) -> int {
    spec_pow10((pct.scale + 1) as nat) as int
}

/// The display color for a methylation percentage.
pub open spec fn spec_rgb_from_methylation(pct: Decimal) -> RgbWithDisplay {
    let rgb = hue_rgb_bytes(spec_hue_num(pct), spec_hue_den(pct));
    RgbWithDisplay { red: rgb.0, green: rgb.1, blue: rgb.2 }
}

/// Map a methylation percentage to its display color: green at 0, yellow
/// at 50, red at 100. Percentages outside the 0 to 100 range are the
/// caller's responsibility to avoid; no clamping is applied.
pub fn rgb_from_methylation(pct: &Decimal) -> (c: RgbWithDisplay)
    requires
        pct.wf(),
    ensures
        c == spec_rgb_from_methylation(*pct),
{
    proof {
        lemma_pow10_values();
        lemma_pow10_monotone((pct.scale + 1) as nat, 16);
    }
    let den_u = pow10(pct.scale + 1);
    let num: i64 = ENCODE_HSV_MAX_HUE * (den_u as i64) - 12 * (pct.mantissa as i64);
    let den: i64 = den_u as i64;
    let (r, g, b) = hsv_rgb_bytes(num, den);
    RgbWithDisplay { red: r, green: g, blue: b }
}

} // verus!
