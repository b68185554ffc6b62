//! The HSL model of one pixel.
//!
//! Channels are bytes, read as multiples of 1/255. In those units a colour's
//! lightness is half of `max + min` (the "lightness sum" below), its chroma is
//! `max - min`, and its saturation is the chroma divided by the largest chroma
//! that the lightness allows. All of it is exact: nothing is rounded before the
//! final byte.
use vstd::prelude::*;
use vstd::arithmetic::div_mod::lemma_fundamental_div_mod_converse;

verus! {

/// Largest of three integers.
pub open spec fn max3(a: int, b: int, c: int) -> int {
    if a >= b && a >= c {
        a
    } else if b >= c {
        b
    } else {
        c
    }
}

/// Smallest of three integers.
pub open spec fn min3(a: int, b: int, c: int) -> int {
    if a <= b && a <= c {
        a
    } else if b <= c {
        b
    } else {
        c
    }
}

/// `max + min` of the channels: twice the HSL lightness, in units of 1/255.
pub open spec fn lightness_sum(r: u8, g: u8, b: u8) -> int {
    max3(r as int, g as int, b as int) + min3(r as int, g as int, b as int)
}

/// `max - min` of the channels: the HSL chroma, in units of 1/255.
pub open spec fn chroma(r: u8, g: u8, b: u8) -> int {
    max3(r as int, g as int, b as int) - min3(r as int, g as int, b as int)
}

/// The chroma of a fully saturated colour whose lightness sum is `l2`.
pub open spec fn chroma_limit(l2: int) -> int {
    if l2 <= 255 {
        l2
    } else {
        510 - l2
    }
}

/// The chroma after the saturation is multiplied by four and clamped to one.
pub open spec fn boosted_chroma(l2: int, c: int) -> int {
    if 4 * c <= chroma_limit(l2) {
        4 * c
    } else {
        chroma_limit(l2)
    }
}

/// `n / d` rounded to the nearest integer, halves upwards (for `d > 0`).
pub open spec fn round_ratio(n: int, d: int) -> int {
    (2 * n + d) / (2 * d)
}

/// One channel of the HSL colour with lightness sum `l2` and chroma `c`,
/// whose hue places the channel at `w / q` of the way from the colour's
/// minimum to its maximum: `l2 / 2 + (w / q - 1 / 2) * c`, rounded.
pub open spec fn hsl_channel(l2: int, c: int, w: int, q: int) -> int {
    round_ratio(l2 * q + (2 * w - q) * c, 2 * q)
}

/// The bounds under which `hsl_channel` is a byte.
pub open spec fn channel_inputs_ok(l2: int, c: int, w: int, q: int) -> bool {
    &&& 0 <= l2 <= 510
    &&& 0 <= c <= chroma_limit(l2)
    &&& 0 <= w <= q
    &&& 0 < q <= 65535
}

/// Computes `hsl_channel(l2, c, w, q)`.
pub fn channel(l2: u32, c: u32, w: u32, q: u32) -> (x: u8)
    requires
        channel_inputs_ok(l2 as int, c as int, w as int, q as int),
    ensures
        x as int == hsl_channel(l2 as int, c as int, w as int, q as int),
{
    proof {
        assert(l2 * q <= 510 * 65535) by (nonlinear_arith)
            requires
                l2 <= 510,
                q <= 65535,
        ;
        assert(2 * w * c <= 2 * 65535 * 510) by (nonlinear_arith)
            requires
                w <= 65535,
                c <= 510,
        ;
        assert(q * c <= l2 * q) by (nonlinear_arith)
            requires
                c <= l2,
                0 < q,
        ;
        assert(2 * w * c <= 2 * q * c) by (nonlinear_arith)
            requires
                w <= q,
                0 <= c,
        ;
        assert(l2 * q + 2 * w * c - q * c == l2 * q + (2 * w - q) * c) by (nonlinear_arith);
        assert(l2 * q + 2 * w * c - q * c <= q * 510) by (nonlinear_arith)
            requires
                2 * w * c <= 2 * q * c,
                c + l2 <= 510,
                0 < q,
        ;
    }
    let n: u32 = l2 * q + 2 * w * c - q * c;
    let x: u32 = (2 * n + 2 * q) / (4 * q);
    proof {
        assert(x <= 255) by (nonlinear_arith)
            requires
                x == (2 * n + 2 * q) / (4 * q),
                n <= q * 510,
                0 < q,
        ;
    }
    x as u8
}

/// A hue: the fraction `num / (6 * den)` of a full turn, so that each sixth
/// of the turn (red to yellow, yellow to green, ...) spans `den` units.
/// Zero is red.
#[derive(Clone, Copy, Debug, PartialEq, Eq)]
pub struct Hue {
    pub num: u32,
    pub den: u16,
}

impl Hue {
    /// A hue in the canonical range, of a denominator that is not zero.
    pub open spec fn wf(self) -> bool {
        0 < self.den && self.num < 6 * self.den
    }
}

/// Hue units in one sixth of a turn for hues given in minutes of arc.
pub const ARC_MINUTES_PER_SIXTH: u16 = 3600;

/// Minutes of arc in a full turn.
pub const ARC_MINUTES_PER_TURN: u32 = 21600;

/// The hue at `minutes` minutes of arc, taken modulo a full turn.
pub open spec fn hue_from_minutes(minutes: u32) -> Hue {
    Hue { num: minutes % ARC_MINUTES_PER_TURN, den: ARC_MINUTES_PER_SIXTH }
}

/// The hue half a turn away.
pub open spec fn rotated_half_turn(h: Hue) -> Hue {
    Hue { num: ((h.num + 3 * h.den) % (6 * h.den as int)) as u32, den: h.den }
}

/// The HSL hue of a colour whose chroma is not zero, with the chroma as
/// denominator: the standard six-sector formula, read exactly.
pub open spec fn hue_of(r: u8, g: u8, b: u8) -> Hue {
    let d = chroma(r, g, b);
    let n = if r > g {
        if b > r {
            4 * d + r - g
        } else {
            g - b
        }
    } else {
        if b > g {
            4 * d + r - g
        } else {
            2 * d + b - r
        }
    };
    Hue { num: (if n < 0 { n + 6 * d } else { n }) as u32, den: d as u16 }
}

/// Where the hue places each of red, green and blue between the colour's
/// minimum (0) and its maximum (`h.den`).
pub open spec fn hue_weights(h: Hue) -> (int, int, int) {
    let d = h.den as int;
    let s = h.num as int / d;
    let f = h.num as int % d;
    if s == 0 {
        (d, f, 0)
    } else if s == 1 {
        (d - f, d, 0)
    } else if s == 2 {
        (0, d, f)
    } else if s == 3 {
        (0, d - f, d)
    } else if s == 4 {
        (f, 0, d)
    } else {
        (d, 0, d - f)
    }
}

/// The colour of hue `h`, lightness sum `l2` and chroma `c`, channel by
/// channel rounded to bytes.
pub open spec fn hsl_rgb(h: Hue, l2: int, c: int) -> (int, int, int) {
    let w = hue_weights(h);
    let q = h.den as int;
    (hsl_channel(l2, c, w.0, q), hsl_channel(l2, c, w.1, q), hsl_channel(l2, c, w.2, q))
}

/// Triples of integers as bytes.
pub open spec fn as_bytes3(t: (int, int, int)) -> (u8, u8, u8) {
    (t.0 as u8, t.1 as u8, t.2 as u8)
}

/// A pixel with its hue turned half a turn and its saturation multiplied by
/// four (clamped to one); lightness is kept. A grey pixel stays as it is.
pub open spec fn rotate_saturate_rgb(r: u8, g: u8, b: u8) -> (u8, u8, u8) {
    let l2 = lightness_sum(r, g, b);
    let c = chroma(r, g, b);
    if c == 0 {
        (r, g, b)
    } else {
        as_bytes3(hsl_rgb(rotated_half_turn(hue_of(r, g, b)), l2, boosted_chroma(l2, c)))
    }
}

/// A pixel given the hue at `minutes` minutes of arc and its saturation
/// multiplied by four (clamped to one); lightness is kept. A grey pixel stays
/// as it is.
pub open spec fn rehue_saturate_rgb(r: u8, g: u8, b: u8, minutes: u32) -> (u8, u8, u8) {
    let l2 = lightness_sum(r, g, b);
    let c = chroma(r, g, b);
    if c == 0 {
        (r, g, b)
    } else {
        as_bytes3(hsl_rgb(hue_from_minutes(minutes), l2, boosted_chroma(l2, c)))
    }
}

/// The hue of a pixel with some chroma lies in the canonical range.
pub proof fn lemma_hue_of_wf(r: u8, g: u8, b: u8)
    requires
        chroma(r, g, b) > 0,
    ensures
        hue_of(r, g, b).wf(),
        hue_of(r, g, b).den as int == chroma(r, g, b),
{
}

/// Computes the hue of a pixel, or `None` for a grey one, whose hue is
/// undefined.
pub fn pixel_hue(r: u8, g: u8, b: u8) -> (h: Option<Hue>)
    ensures
        h == (if chroma(r, g, b) == 0 {
            None
        } else {
            Some(hue_of(r, g, b))
        }),
        h matches Some(hh) ==> hh.wf(),
{
    let max: u8 = if r >= g && r >= b {
        r
    } else if g >= b {
        g
    } else {
        b
    };
    let min: u8 = if r <= g && r <= b {
        r
    } else if g <= b {
        g
    } else {
        b
    };
    if max == min {
        return None;
    }
    proof {
        lemma_hue_of_wf(r, g, b);
    }
    let d: u32 = (max - min) as u32;
    let (r, g, b) = (r as u32, g as u32, b as u32);
    let num: u32 = if r > g {
        if b > r {
            4 * d + r - g
        } else if g >= b {
            g - b
        } else {
            6 * d + g - b
        }
    } else {
        if b > g {
            4 * d + r - g
        } else {
            2 * d + b - r
        }
    };
    Some(Hue { num, den: d as u16 })
}

/// Computes `hue_weights(h)`.
fn weights(h: Hue) -> (w: (u32, u32, u32))
    requires
        h.wf(),
    ensures
        (w.0 as int, w.1 as int, w.2 as int) == hue_weights(h),
        w.0 <= h.den && w.1 <= h.den && w.2 <= h.den,
{
    let d: u32 = h.den as u32;
    let s: u32 = h.num / d;
    let f: u32 = h.num % d;
    proof {
        assert(s < 6) by (nonlinear_arith)
            requires
                s == h.num / d,
                h.num < 6 * d,
                0 < d,
        ;
    }
    if s == 0 {
        (d, f, 0)
    } else if s == 1 {
        (d - f, d, 0)
    } else if s == 2 {
        (0, d, f)
    } else if s == 3 {
        (0, d - f, d)
    } else if s == 4 {
        (f, 0, d)
    } else {
        (d, 0, d - f)
    }
}

/// Computes `hsl_rgb(h, l2, c)`: the colour of a hue, a lightness sum and a
/// chroma that the lightness allows.
pub fn hsl_to_rgb(h: Hue, l2: u32, c: u32) -> (rgb: (u8, u8, u8))
    requires
        h.wf(),
        l2 <= 510,
        c <= chroma_limit(l2 as int),
    ensures
        (rgb.0 as int, rgb.1 as int, rgb.2 as int) == hsl_rgb(h, l2 as int, c as int),
{
    let w = weights(h);
    let q: u32 = h.den as u32;
    (channel(l2, c, w.0, q), channel(l2, c, w.1, q), channel(l2, c, w.2, q))
}

/// The lightness sum and boosted chroma of a pixel, as `hsl_to_rgb` takes them.
fn lightness_and_boosted_chroma(r: u8, g: u8, b: u8) -> (lc: (u32, u32))
    ensures
        lc.0 as int == lightness_sum(r, g, b),
        lc.1 as int == boosted_chroma(lightness_sum(r, g, b), chroma(r, g, b)),
        lc.0 <= 510,
        lc.1 <= chroma_limit(lc.0 as int),
{
    let max: u32 = if r >= g && r >= b {
        r as u32
    } else if g >= b {
        g as u32
    } else {
        b as u32
    };
    let min: u32 = if r <= g && r <= b {
        r as u32
    } else if g <= b {
        g as u32
    } else {
        b as u32
    };
    let l2: u32 = max + min;
    let limit: u32 = if l2 <= 255 {
        l2
    } else {
        510 - l2
    };
    let c4: u32 = 4 * (max - min);
    (l2, if c4 <= limit {
        c4
    } else {
        limit
    })
}

/// Turns a pixel's hue half a turn and multiplies its saturation by four,
/// clamped to one, keeping its lightness.
pub fn rotate_saturate_pixel(r: u8, g: u8, b: u8) -> (out: (u8, u8, u8))
    ensures
        out == rotate_saturate_rgb(r, g, b),
{
    match pixel_hue(r, g, b) {
        None => (r, g, b),
        Some(h) => {
            let (l2, c) = lightness_and_boosted_chroma(r, g, b);
            let den: u32 = h.den as u32;
            let turned = Hue { num: (h.num + 3 * den) % (6 * den), den: h.den };
            hsl_to_rgb(turned, l2, c)
        },
    }
}

/// Gives a pixel the hue at `minutes` minutes of arc and multiplies its
/// saturation by four, clamped to one, keeping its lightness. A grey pixel
/// stays as it is.
pub fn rehue_saturate_pixel(r: u8, g: u8, b: u8, minutes: u32) -> (out: (u8, u8, u8))
    ensures
        out == rehue_saturate_rgb(r, g, b, minutes),
{
    match pixel_hue(r, g, b) {
        None => (r, g, b),
        Some(_) => {
            let (l2, c) = lightness_and_boosted_chroma(r, g, b);
            let h = Hue { num: minutes % ARC_MINUTES_PER_TURN, den: ARC_MINUTES_PER_SIXTH };
            hsl_to_rgb(h, l2, c)
        },
    }
}

/// `num` lies in sector `s` of width `d`.
proof fn lemma_sector(num: int, d: int, s: int)
    requires
        0 < d,
        s * d <= num < s * d + d,
    ensures
        num / d == s,
        num % d == num - s * d,
{
    lemma_fundamental_div_mod_converse(num, d, s, num - s * d);
}

/// A channel placed exactly at its own distance from the minimum comes back
/// unchanged: `l2 / 2 + (x - m - c / 2)` is `x` when `l2 = max + min` and
/// `c = max - min`.
proof fn lemma_channel_exact(l2: int, c: int, x: int, m: int)
    requires
        0 < c,
        l2 == 2 * m + c,
        m <= x,
    ensures
        hsl_channel(l2, c, x - m, c) == x,
{
    assert(l2 * c + (2 * (x - m) - c) * c == 2 * c * x) by (nonlinear_arith)
        requires
            l2 == 2 * m + c,
    ;
    assert(2 * (2 * c * x) + 2 * c == x * (4 * c) + 2 * c) by (nonlinear_arith);
    lemma_fundamental_div_mod_converse(2 * (2 * c * x) + 2 * c, 4 * c, x, 2 * c);
}

/// The weights of a pixel's hue are its channels' distances from its minimum.
pub proof fn lemma_weights_of_hue(r: u8, g: u8, b: u8)
    requires
        chroma(r, g, b) > 0,
    ensures
        ({
            let m = min3(r as int, g as int, b as int);
            hue_weights(hue_of(r, g, b)) == (r - m, g - m, b - m)
        }),
{
    let d = chroma(r, g, b);
    let num = hue_of(r, g, b).num as int;
    if r > g {
        if b > r {
            lemma_sector(num, d, 4);
        } else if g >= b {
            lemma_sector(num, d, 0);
        } else {
            lemma_sector(num, d, 5);
        }
    } else {
        if b > g {
            if r == g {
                lemma_sector(num, d, 4);
            } else {
                lemma_sector(num, d, 3);
            }
        } else if b >= r {
            if b - r == d {
                lemma_sector(num, d, 3);
            } else {
                lemma_sector(num, d, 2);
            }
        } else {
            lemma_sector(num, d, 1);
        }
    }
}

/// The model loses nothing: a pixel rebuilt from its own hue, lightness and
/// chroma is the pixel itself, byte for byte.
pub proof fn lemma_hsl_round_trip(r: u8, g: u8, b: u8)
    requires
        chroma(r, g, b) > 0,
    ensures
        hsl_rgb(hue_of(r, g, b), lightness_sum(r, g, b), chroma(r, g, b)) == (r as int, g as int, b as int),
{
    let m = min3(r as int, g as int, b as int);
    let l2 = lightness_sum(r, g, b);
    let c = chroma(r, g, b);
    lemma_weights_of_hue(r, g, b);
    lemma_channel_exact(l2, c, r as int, m);
    lemma_channel_exact(l2, c, g as int, m);
    lemma_channel_exact(l2, c, b as int, m);
}

/// Turning a hue half a turn twice gives the hue back.
pub proof fn lemma_half_turn_twice(h: Hue)
    requires
        h.wf(),
    ensures
        rotated_half_turn(rotated_half_turn(h)) == h,
        rotated_half_turn(h).wf(),
{
    let d = h.den as int;
    let n = h.num as int;
    if n < 3 * d {
        lemma_fundamental_div_mod_converse(n + 3 * d, 6 * d, 0, n + 3 * d);
        lemma_fundamental_div_mod_converse(n + 6 * d, 6 * d, 1, n);
    } else {
        lemma_fundamental_div_mod_converse(n + 3 * d, 6 * d, 1, n - 3 * d);
        lemma_fundamental_div_mod_converse(n, 6 * d, 0, n);
    }
}

/// Half a turn of hue swaps each channel's weight `w` for `den - w`.
proof fn lemma_weights_half_turn(h: Hue)
    requires
        h.wf(),
    ensures
        ({
            let w = hue_weights(h);
            let d = h.den as int;
            hue_weights(rotated_half_turn(h)) == (d - w.0, d - w.1, d - w.2)
        }),
{
    let d = h.den as int;
    let n = h.num as int;
    let s = n / d;
    let f = n % d;
    vstd::arithmetic::div_mod::lemma_fundamental_div_mod(n, d);
    vstd::arithmetic::div_mod::lemma_mod_bound(n, d);
    assert(n == s * d + f && 0 <= f < d) by (nonlinear_arith)
        requires
            n == d * (n / d) + n % d,
            0 <= n % d < d,
            s == n / d,
            f == n % d,
    ;
    assert(0 <= s < 6) by (nonlinear_arith)
        requires
            n == s * d + f,
            0 <= f < d,
            0 <= n < 6 * d,
    ;
    if s < 3 {
        assert(s * d <= 2 * d) by (nonlinear_arith)
            requires
                0 < d,
                s <= 2,
        ;
        assert((s + 3) * d == s * d + 3 * d) by (nonlinear_arith);
        lemma_fundamental_div_mod_converse(n + 3 * d, 6 * d, 0, n + 3 * d);
        lemma_sector(n + 3 * d, d, s + 3);
    } else {
        assert(s * d >= 3 * d) by (nonlinear_arith)
            requires
                0 < d,
                s >= 3,
        ;
        assert((s - 3) * d == s * d - 3 * d) by (nonlinear_arith);
        lemma_fundamental_div_mod_converse(n + 3 * d, 6 * d, 1, n - 3 * d);
        lemma_sector(n - 3 * d, d, s - 3);
    }
}

/// Half a turn of hue, with lightness and chroma kept, reflects each channel
/// between the colour's maximum and minimum: `x` becomes `max + min - x`.
pub proof fn lemma_half_turn_reflects(r: u8, g: u8, b: u8)
    requires
        chroma(r, g, b) > 0,
    ensures
        ({
            let l2 = lightness_sum(r, g, b);
            hsl_rgb(rotated_half_turn(hue_of(r, g, b)), l2, chroma(r, g, b)) == (
                l2 - r,
                l2 - g,
                l2 - b,
            )
        }),
{
    let m = min3(r as int, g as int, b as int);
    let l2 = lightness_sum(r, g, b);
    let c = chroma(r, g, b);
    lemma_hue_of_wf(r, g, b);
    lemma_weights_of_hue(r, g, b);
    lemma_weights_half_turn(hue_of(r, g, b));
    lemma_channel_exact(l2, c, l2 - r, m);
    lemma_channel_exact(l2, c, l2 - g, m);
    lemma_channel_exact(l2, c, l2 - b, m);
}

/// The rotate-and-saturate transform applied twice: in the HSL model the hue
/// comes back (turned half a turn twice, with the lightness and chroma kept,
/// the pixel is rebuilt exactly), but the saturation, multiplied by four
/// twice, comes back only for a colour that was already fully saturated.
pub proof fn lemma_rotate_saturate_twice(r: u8, g: u8, b: u8)
    requires
        chroma(r, g, b) > 0,
    ensures
        ({
            let h = hue_of(r, g, b);
            let l2 = lightness_sum(r, g, b);
            let c = chroma(r, g, b);
            &&& rotated_half_turn(rotated_half_turn(h)) == h
            &&& hsl_rgb(rotated_half_turn(rotated_half_turn(h)), l2, c) == (r as int, g as int, b as int)
            &&& (boosted_chroma(l2, boosted_chroma(l2, c)) == c <==> c == chroma_limit(l2))
        }),
{
    lemma_hue_of_wf(r, g, b);
    lemma_half_turn_twice(hue_of(r, g, b));
    lemma_hsl_round_trip(r, g, b);
}

/// A grey pixel, black and white included, is left as it is by both
/// transforms, whatever hue the stretch picks.
pub proof fn lemma_grey_fixed(v: u8, minutes: u32)
    ensures
        rotate_saturate_rgb(v, v, v) == (v, v, v),
        rehue_saturate_rgb(v, v, v, minutes) == (v, v, v),
{
}

/// `(2 q a) / (4 q)` is `a / 2`.
proof fn lemma_half_of_multiple(q: int, a: int)
    requires
        q > 0,
        a >= 0,
    ensures
        (2 * q * a) / (4 * q) == a / 2,
{
    let k = a / 2;
    let r = a % 2;
    vstd::arithmetic::div_mod::lemma_fundamental_div_mod(a, 2);
    assert(2 * q * a == k * (4 * q) + 2 * q * r && 0 <= 2 * q * r < 4 * q) by (nonlinear_arith)
        requires
            a == 2 * k + r,
            0 <= r < 2,
            q > 0,
    ;
    lemma_fundamental_div_mod_converse(2 * q * a, 4 * q, k, 2 * q * r);
}

/// The channels at the colour's maximum and minimum: `(l2 + c) / 2` and
/// `(l2 - c) / 2`, rounded.
proof fn lemma_channel_ends(l2: int, c: int, q: int)
    requires
        q > 0,
        0 <= c <= l2,
    ensures
        hsl_channel(l2, c, q, q) == (l2 + c + 1) / 2,
        hsl_channel(l2, c, 0, q) == (l2 - c + 1) / 2,
{
    assert(2 * (l2 * q + (2 * q - q) * c) + 2 * q == 2 * q * (l2 + c + 1)) by (nonlinear_arith);
    assert(2 * (l2 * q + (2 * 0 - q) * c) + 2 * q == 2 * q * (l2 - c + 1)) by (nonlinear_arith);
    lemma_half_of_multiple(q, l2 + c + 1);
    lemma_half_of_multiple(q, l2 - c + 1);
}

/// A channel's value grows with its weight.
proof fn lemma_channel_order(l2: int, c: int, q: int, wa: int, wb: int)
    requires
        q > 0,
        c >= 0,
    ensures
        wa <= wb ==> hsl_channel(l2, c, wa, q) <= hsl_channel(l2, c, wb, q),
        wb <= wa ==> hsl_channel(l2, c, wb, q) <= hsl_channel(l2, c, wa, q),
{
    if wa <= wb {
        assert((2 * wa - q) * c <= (2 * wb - q) * c) by (nonlinear_arith)
            requires
                wa <= wb,
                c >= 0,
        ;
        vstd::arithmetic::div_mod::lemma_div_is_ordered(
            2 * (l2 * q + (2 * wa - q) * c) + 2 * q,
            2 * (l2 * q + (2 * wb - q) * c) + 2 * q,
            4 * q,
        );
    } else {
        assert((2 * wb - q) * c <= (2 * wa - q) * c) by (nonlinear_arith)
            requires
                wb <= wa,
                c >= 0,
        ;
        vstd::arithmetic::div_mod::lemma_div_is_ordered(
            2 * (l2 * q + (2 * wb - q) * c) + 2 * q,
            2 * (l2 * q + (2 * wa - q) * c) + 2 * q,
            4 * q,
        );
    }
}

/// Every colour's chroma is within what its lightness allows.
proof fn lemma_chroma_within_limit(r: u8, g: u8, b: u8)
    ensures
        0 <= chroma(r, g, b) <= chroma_limit(lightness_sum(r, g, b)),
        0 <= lightness_sum(r, g, b) <= 510,
{
}

/// The boosted chroma of a colour is within what its lightness allows.
proof fn lemma_boosted_within_limit(l2: int, c: int)
    requires
        0 <= c <= chroma_limit(l2),
    ensures
        c <= boosted_chroma(l2, c) <= chroma_limit(l2),
        0 < c < chroma_limit(l2) ==> c < boosted_chroma(l2, c),
{
}

/// The rotate-and-saturate transform gives a pixel with some chroma exactly
/// the boosted chroma, byte for byte.
proof fn lemma_rotated_chroma(r: u8, g: u8, b: u8)
    requires
        chroma(r, g, b) > 0,
    ensures
        ({
            let o = rotate_saturate_rgb(r, g, b);
            let l2 = lightness_sum(r, g, b);
            let c = chroma(r, g, b);
            let bc = boosted_chroma(l2, c);
            let big = max3(r as int, g as int, b as int);
            &&& chroma(o.0, o.1, o.2) == bc
            &&& min3(o.0 as int, o.1 as int, o.2 as int) == hsl_channel(l2, bc, 0, c)
            &&& o.0 as int == hsl_channel(l2, bc, big - r, c)
            &&& o.1 as int == hsl_channel(l2, bc, big - g, c)
            &&& o.2 as int == hsl_channel(l2, bc, big - b, c)
        }),
{
    let l2 = lightness_sum(r, g, b);
    let c = chroma(r, g, b);
    let bc = boosted_chroma(l2, c);
    let big = max3(r as int, g as int, b as int);
    let h = hue_of(r, g, b);
    lemma_hue_of_wf(r, g, b);
    lemma_weights_of_hue(r, g, b);
    lemma_weights_half_turn(h);
    lemma_chroma_within_limit(r, g, b);
    lemma_boosted_within_limit(l2, c);
    let (wr, wg, wb) = (big - r, big - g, big - b);
    assert(hue_weights(rotated_half_turn(h)) == (wr, wg, wb));
    lemma_channel_ends(l2, bc, c);
    lemma_channel_order(l2, bc, c, wr, wg);
    lemma_channel_order(l2, bc, c, wg, wb);
    lemma_channel_order(l2, bc, c, wr, wb);
    lemma_channel_byte(l2, bc, wr, c);
    lemma_channel_byte(l2, bc, wg, c);
    lemma_channel_byte(l2, bc, wb, c);
}

/// Under `channel_inputs_ok`, a channel is a byte.
proof fn lemma_channel_byte(l2: int, c: int, w: int, q: int)
    requires
        channel_inputs_ok(l2, c, w, q),
    ensures
        0 <= hsl_channel(l2, c, w, q) <= 255,
{
    let n = l2 * q + (2 * w - q) * c;
    assert(0 <= n <= q * 510) by (nonlinear_arith)
        requires
            n == l2 * q + (2 * w - q) * c,
            0 <= w <= q,
            0 <= c <= l2,
            c + l2 <= 510,
            0 < q,
    ;
    assert(0 <= (2 * n + 2 * q) / (4 * q) <= 255) by (nonlinear_arith)
        requires
            0 <= n <= q * 510,
            0 < q,
    ;
}

/// Byte for byte, the rotate-and-saturate transform applied twice gives a
/// pixel back exactly when the pixel is grey or fully saturated: half a turn
/// twice restores the hue, but saturation multiplied by four twice does not
/// come back.
pub proof fn lemma_rotate_saturate_twice_bytes(r: u8, g: u8, b: u8)
    ensures
        ({
            let o = rotate_saturate_rgb(r, g, b);
            let c = chroma(r, g, b);
            rotate_saturate_rgb(o.0, o.1, o.2) == (r, g, b) <==> (c == 0 || c == chroma_limit(
                lightness_sum(r, g, b),
            ))
        }),
{
    let l2 = lightness_sum(r, g, b);
    let c = chroma(r, g, b);
    let o = rotate_saturate_rgb(r, g, b);
    if c == 0 {
    } else if c == chroma_limit(l2) {
        lemma_half_turn_reflects(r, g, b);
        assert(o == ((l2 - r) as u8, (l2 - g) as u8, (l2 - b) as u8));
        assert(lightness_sum(o.0, o.1, o.2) == l2);
        assert(chroma(o.0, o.1, o.2) == c);
        lemma_half_turn_reflects(o.0, o.1, o.2);
    } else {
        lemma_chroma_within_limit(r, g, b);
        lemma_boosted_within_limit(l2, c);
        lemma_rotated_chroma(r, g, b);
        let c1 = chroma(o.0, o.1, o.2);
        assert(c1 > c);
        lemma_chroma_within_limit(o.0, o.1, o.2);
        lemma_boosted_within_limit(lightness_sum(o.0, o.1, o.2), c1);
        lemma_rotated_chroma(o.0, o.1, o.2);
        let o2 = rotate_saturate_rgb(o.0, o.1, o.2);
        assert(chroma(o2.0, o2.1, o2.2) >= c1);
    }
}


/// `|x| < bound`.
pub open spec fn within(x: int, bound: int) -> bool {
    -bound < x && x < bound
}

/// A rounded channel sits `w / q` of the chroma above the rounded channel of
/// weight zero, to within one byte.
proof fn lemma_channel_near(l2: int, c: int, w: int, q: int)
    requires
        q > 0,
        0 <= c,
        0 <= w <= q,
    ensures
        within((hsl_channel(l2, c, w, q) - hsl_channel(l2, c, 0, q)) * q - w * c, q),
{
    let x = 2 * (l2 * q + (2 * w - q) * c) + 2 * q;
    let x0 = 2 * (l2 * q + (2 * 0 - q) * c) + 2 * q;
    let o = x / (4 * q);
    let o0 = x0 / (4 * q);
    vstd::arithmetic::div_mod::lemma_fundamental_div_mod(x, 4 * q);
    vstd::arithmetic::div_mod::lemma_mod_bound(x, 4 * q);
    vstd::arithmetic::div_mod::lemma_fundamental_div_mod(x0, 4 * q);
    vstd::arithmetic::div_mod::lemma_mod_bound(x0, 4 * q);
    assert(x - x0 == 4 * w * c) by (nonlinear_arith)
        requires
            x == 2 * (l2 * q + (2 * w - q) * c) + 2 * q,
            x0 == 2 * (l2 * q + (2 * 0 - q) * c) + 2 * q,
    ;
    assert(within((o - o0) * q - w * c, q)) by (nonlinear_arith)
        requires
            x == 4 * q * o + x % (4 * q),
            x0 == 4 * q * o0 + x0 % (4 * q),
            0 <= x % (4 * q) < 4 * q,
            0 <= x0 % (4 * q) < 4 * q,
            x - x0 == 4 * w * c,
            q > 0,
    ;
}

/// Byte for byte, the rotate-and-saturate transform places each channel
/// where the half-turned hue puts it, to within one byte: the rotated
/// weight `(o - min o) / chroma(o)` of a channel differs from the exact
/// `(max - x) / (max - min)` by less than `1 / chroma(o)`.
pub proof fn lemma_rotate_saturate_hue_bytes(r: u8, g: u8, b: u8)
    requires
        chroma(r, g, b) > 0,
    ensures
        ({
            let o = rotate_saturate_rgb(r, g, b);
            let d = chroma(r, g, b);
            let c1 = chroma(o.0, o.1, o.2);
            let lo = min3(o.0 as int, o.1 as int, o.2 as int);
            let big = max3(r as int, g as int, b as int);
            &&& c1 > 0
            &&& within((o.0 - lo) * d - (big - r) * c1, d)
            &&& within((o.1 - lo) * d - (big - g) * c1, d)
            &&& within((o.2 - lo) * d - (big - b) * c1, d)
        }),
{
    let l2 = lightness_sum(r, g, b);
    let c = chroma(r, g, b);
    let bc = boosted_chroma(l2, c);
    let big = max3(r as int, g as int, b as int);
    lemma_rotated_chroma(r, g, b);
    lemma_chroma_within_limit(r, g, b);
    lemma_boosted_within_limit(l2, c);
    lemma_channel_near(l2, bc, big - r, c);
    lemma_channel_near(l2, bc, big - g, c);
    lemma_channel_near(l2, bc, big - b, c);
}

/// The drifts of two passes add up: where one pass places a weight within
/// `1 / c1` of the exact half turn, and the next pass within `1 / c2` of the
/// exact half turn of that, the two together bring it back within
/// `1 / c1 + 1 / c2` of where it started.
proof fn lemma_two_pass_drift(u: int, v: int, x: int, m: int, big: int, c1: int, c2: int)
    requires
        big > m,
        c1 > 0,
        c2 > 0,
        within(u * c1 - (c1 - v) * c2, c1),
        within(v * (big - m) - (big - x) * c1, big - m),
    ensures
        within(u * (big - m) * c1 - (x - m) * c2 * c1, (big - m) * c1 + (big - m) * c2),
{
    let d = big - m;
    let a = u * c1 - (c1 - v) * c2;
    let bb = v * d - (big - x) * c1;
    assert(d * a == d * u * c1 - d * c1 * c2 + d * v * c2) by (nonlinear_arith)
        requires
            a == u * c1 - (c1 - v) * c2,
    ;
    assert(c2 * bb == c2 * v * d - c2 * big * c1 + c2 * x * c1) by (nonlinear_arith)
        requires
            bb == v * d - (big - x) * c1,
    ;
    assert(d * c1 * c2 == big * c1 * c2 - m * c1 * c2) by (nonlinear_arith)
        requires
            d == big - m,
    ;
    assert((x - m) * c2 * c1 == x * c2 * c1 - m * c1 * c2) by (nonlinear_arith);
    assert(d * v * c2 == c2 * v * d && c2 * big * c1 == big * c1 * c2 && c2 * x * c1 == x * c2
        * c1 && d * u * c1 == u * d * c1) by (nonlinear_arith);
    assert(within(d * a, d * c1)) by (nonlinear_arith)
        requires
            within(a, c1),
            d > 0,
    ;
    assert(within(c2 * bb, d * c2)) by (nonlinear_arith)
        requires
            within(bb, d),
            c2 > 0,
    ;
}

/// Rotating twice brings the hue back to within the byte grid: after two
/// passes, with chromas `c1` and then `c2`, each channel's weight
/// `(x'' - min x'') / c2` differs from the original `(x - min) / (max - min)`
/// by less than `1 / c1 + 1 / c2`.
pub proof fn lemma_rotate_saturate_twice_hue_bytes(r: u8, g: u8, b: u8)
    requires
        chroma(r, g, b) > 0,
    ensures
        ({
            let o = rotate_saturate_rgb(r, g, b);
            let o2 = rotate_saturate_rgb(o.0, o.1, o.2);
            let d = chroma(r, g, b);
            let m = min3(r as int, g as int, b as int);
            let c1 = chroma(o.0, o.1, o.2);
            let c2 = chroma(o2.0, o2.1, o2.2);
            let lo2 = min3(o2.0 as int, o2.1 as int, o2.2 as int);
            &&& 0 < c1 <= c2
            &&& within((o2.0 - lo2) * d * c1 - (r - m) * c2 * c1, d * c1 + d * c2)
            &&& within((o2.1 - lo2) * d * c1 - (g - m) * c2 * c1, d * c1 + d * c2)
            &&& within((o2.2 - lo2) * d * c1 - (b - m) * c2 * c1, d * c1 + d * c2)
        }),
{
    let o = rotate_saturate_rgb(r, g, b);
    let o2 = rotate_saturate_rgb(o.0, o.1, o.2);
    let m = min3(r as int, g as int, b as int);
    let big = max3(r as int, g as int, b as int);
    let lo = min3(o.0 as int, o.1 as int, o.2 as int);
    let hi = max3(o.0 as int, o.1 as int, o.2 as int);
    let c1 = chroma(o.0, o.1, o.2);
    let c2 = chroma(o2.0, o2.1, o2.2);
    lemma_rotate_saturate_hue_bytes(r, g, b);
    lemma_rotate_saturate_hue_bytes(o.0, o.1, o.2);
    lemma_rotated_chroma(o.0, o.1, o.2);
    lemma_chroma_within_limit(o.0, o.1, o.2);
    lemma_boosted_within_limit(lightness_sum(o.0, o.1, o.2), c1);
    assert(hi - o.0 == c1 - (o.0 - lo));
    lemma_two_pass_drift(o2.0 - min3(o2.0 as int, o2.1 as int, o2.2 as int), o.0 - lo, r as int, m, big, c1, c2);
    lemma_two_pass_drift(o2.1 - min3(o2.0 as int, o2.1 as int, o2.2 as int), o.1 - lo, g as int, m, big, c1, c2);
    lemma_two_pass_drift(o2.2 - min3(o2.0 as int, o2.1 as int, o2.2 as int), o.2 - lo, b as int, m, big, c1, c2);
}


/// Minutes of arc of the hue 216 degrees, three fifths of a turn.
pub open spec fn reference_minutes() -> u32 {
    12960
}

/// At the hue 216 degrees, any pixel of lightness one half whose saturation
/// is at least a quarter (so that four times it is clamped to one) becomes
/// the fully saturated blue (0, 102, 255): red at the minimum, blue at the
/// maximum, green two fifths of the way between.
pub proof fn lemma_reference_hue_at_half_lightness(r: u8, g: u8, b: u8)
    requires
        lightness_sum(r, g, b) == 255,
        4 * chroma(r, g, b) >= 255,
    ensures
        rehue_saturate_rgb(r, g, b, reference_minutes()) == (0u8, 102u8, 255u8),
{
    let h = hue_from_minutes(reference_minutes());
    assert(h.num == 12960 && h.den == 3600);
    assert(12960int / 3600int == 3 && 12960int % 3600int == 2160) by (nonlinear_arith);
    assert(hue_weights(h) == (0int, 1440int, 3600int));
    assert(boosted_chroma(255, chroma(r, g, b)) == 255);
    assert(hsl_channel(255, 255, 0, 3600) == 0) by (nonlinear_arith);
    assert(hsl_channel(255, 255, 1440, 3600) == 102) by (nonlinear_arith);
    assert(hsl_channel(255, 255, 3600, 3600) == 255) by (nonlinear_arith);
}

} // verus!
