//! Colors and point lights.
//!
//! A [`Color`] holds three channels, each a fixed-point value clamped to
//! `[0, SCALE]` (zero to one).  The clamp is applied at every construction,
//! so it is an invariant of every color in existence, intermediate sums and
//! products included.

use vstd::prelude::*;
use crate::fixed::{fmul, lemma_mul_abs_bound, sabs, SCALE};
use crate::vector::{bounded3, sv_normalize, sv_sub, Vector3};
use vstd::arithmetic::div_mod::{lemma_div_by_multiple, lemma_div_is_ordered, lemma_div_pos_is_pos};

verus! {

/// A channel value forced into the representable range `[0, SCALE]`.
pub open spec fn clamp_channel(x: int) -> int {
    if x < 0 {
        0
    } else if x > SCALE as int {
        SCALE as int
    } else {
        x
    }
}

/// A channel in `[0, SCALE]` rendered as one 8-bit value, by truncation.
pub open spec fn channel_byte(c: int) -> int {
    c * 255 / (SCALE as int)
}

/// The mathematical value of a color: its three channels over `int`.
pub struct ColorV {
    pub red: int,
    pub green: int,
    pub blue: int,
}

/// All three channels lie in `[0, SCALE]`.
pub open spec fn clamped(c: ColorV) -> bool {
    0 <= c.red <= SCALE as int && 0 <= c.green <= SCALE as int && 0 <= c.blue <= SCALE as int
}

/// Construction clamps each channel.
pub open spec fn sc_new(red: int, green: int, blue: int) -> ColorV {
    ColorV { red: clamp_channel(red), green: clamp_channel(green), blue: clamp_channel(blue) }
}

/// Channelwise sum, clamped.
pub open spec fn sc_add(a: ColorV, b: ColorV) -> ColorV {
    sc_new(a.red + b.red, a.green + b.green, a.blue + b.blue)
}

/// Channelwise fixed-point product, clamped.
pub open spec fn sc_mul(a: ColorV, b: ColorV) -> ColorV {
    sc_new(fmul(a.red, b.red), fmul(a.green, b.green), fmul(a.blue, b.blue))
}

/// Scaling of every channel by one fixed-point factor, clamped.
pub open spec fn sc_scale(a: ColorV, t: int) -> ColorV {
    sc_new(fmul(a.red, t), fmul(a.green, t), fmul(a.blue, t))
}

/// A color with red, green and blue channels, each clamped to `[0, SCALE]`.
#[derive(Clone, Copy, PartialEq, Eq, Structural, Debug)]
pub struct Color {
    red: i64,
    green: i64,
    blue: i64,
}

impl View for Color {
    type V = ColorV;

    closed spec fn view(&self) -> ColorV {
        ColorV { red: self.red as int, green: self.green as int, blue: self.blue as int }
    }
}

/// Left fold of a sequence of colors under the clamped sum, from black.
pub open spec fn sc_sum(s: Seq<Color>) -> ColorV
    decreases s.len(),
{
    if s.len() == 0 {
        sc_new(0, 0, 0)
    } else {
        sc_add(sc_sum(s.drop_last()), s.last()@)
    }
}

/// A clamped channel value.
fn clamp_exec(x: i64) -> (r: i64)
    ensures
        r == clamp_channel(x as int),
{
    if x < 0 {
        0
    } else if x > SCALE {
        SCALE
    } else {
        x
    }
}

/// One channel as an 8-bit value, by truncation (not rounding).
fn byte_exec(c: i64) -> (r: u8)
    requires
        0 <= c <= SCALE,
    ensures
        r == channel_byte(c as int),
{
    proof {
        lemma_div_is_ordered((c as int) * 255, (SCALE as int) * 255, SCALE as int);
        lemma_div_by_multiple(255, SCALE as int);
        lemma_div_pos_is_pos((c as int) * 255, SCALE as int);
    }
    (((c as u64) * 255) / 65536) as u8
}

impl Color {
    /// Channels are clamped at every construction point, so this holds of
    /// every color in existence.
    #[verifier::type_invariant]
    spec fn channels_clamped(self) -> bool {
        clamped(self@)
    }

    /// Builds a color, forcing each channel into `[0, SCALE]`.
    pub fn new(red: i64, green: i64, blue: i64) -> (r: Color)
        ensures
            r@ == sc_new(red as int, green as int, blue as int),
    {
        Color { red: clamp_exec(red), green: clamp_exec(green), blue: clamp_exec(blue) }
    }

    /// Pure black: all channels zero.
    pub fn new_black() -> (r: Color)
        ensures
            r@ == sc_new(0, 0, 0),
    {
        Color::new(0, 0, 0)
    }

    /// The red channel.
    pub fn red(&self) -> (r: i64)
        ensures
            r == self@.red,
            0 <= r <= SCALE,
    {
        proof {
            use_type_invariant(&*self);
        }
        self.red
    }

    /// The green channel.
    pub fn green(&self) -> (r: i64)
        ensures
            r == self@.green,
            0 <= r <= SCALE,
    {
        proof {
            use_type_invariant(&*self);
        }
        self.green
    }

    /// The blue channel.
    pub fn blue(&self) -> (r: i64)
        ensures
            r == self@.blue,
            0 <= r <= SCALE,
    {
        proof {
            use_type_invariant(&*self);
        }
        self.blue
    }

    /// The three channels as 8-bit values, each truncated (`channel * 255`
    /// rescaled and rounded toward zero), in red, green, blue order.
    pub fn as_8_bit_array(&self) -> (r: [u8; 3])
        ensures
            r[0] == channel_byte(self@.red),
            r[1] == channel_byte(self@.green),
            r[2] == channel_byte(self@.blue),
    {
        proof {
            use_type_invariant(&*self);
        }
        [byte_exec(self.red), byte_exec(self.green), byte_exec(self.blue)]
    }

    /// Channelwise sum; each channel of the result is clamped.
    pub fn add(&self, o: &Color) -> (r: Color)
        ensures
            r@ == sc_add(self@, o@),
    {
        proof {
            use_type_invariant(&*self);
            use_type_invariant(&*o);
        }
        Color::new(self.red + o.red, self.green + o.green, self.blue + o.blue)
    }

    /// Channelwise fixed-point product; stays in range, clamp included for
    /// uniformity with every other construction point.
    pub fn mul(&self, o: &Color) -> (r: Color)
        ensures
            r@ == sc_mul(self@, o@),
    {
        proof {
            use_type_invariant(&*self);
            use_type_invariant(&*o);
            lemma_mul_abs_bound(self@.red, o@.red, SCALE as int, SCALE as int);
            lemma_mul_abs_bound(self@.green, o@.green, SCALE as int, SCALE as int);
            lemma_mul_abs_bound(self@.blue, o@.blue, SCALE as int, SCALE as int);
        }
        Color::new(
            crate::fixed::fp_mul(self.red, o.red),
            crate::fixed::fp_mul(self.green, o.green),
            crate::fixed::fp_mul(self.blue, o.blue),
        )
    }

    /// Scales every channel by one fixed-point factor and clamps.
    pub fn scale(&self, t: i64) -> (r: Color)
        requires
            t > i64::MIN,
        ensures
            r@ == sc_scale(self@, t as int),
    {
        proof {
            use_type_invariant(&*self);
            lemma_mul_abs_bound(self@.red, t as int, SCALE as int, i64::MAX as int);
            lemma_mul_abs_bound(self@.green, t as int, SCALE as int, i64::MAX as int);
            lemma_mul_abs_bound(self@.blue, t as int, SCALE as int, i64::MAX as int);
        }
        Color::new(
            crate::fixed::fp_mul(self.red, t),
            crate::fixed::fp_mul(self.green, t),
            crate::fixed::fp_mul(self.blue, t),
        )
    }

    /// Reduces a sequence of colors by the clamped sum; an empty sequence
    /// sums to pure black.
    pub fn sum(colors: &Vec<Color>) -> (r: Color)
        ensures
            r@ == sc_sum(colors@),
    {
        let mut acc: Color = Color::new_black();
        assert(colors@.subrange(0, 0) =~= Seq::<Color>::empty());
        let mut i: usize = 0;
        while i < colors.len()
            invariant
                i <= colors.len(),
                acc@ == sc_sum(colors@.subrange(0, i as int)),
            decreases colors.len() - i,
        {
            proof {
                use_type_invariant(acc);
            }
            let next: Color = acc.add(&colors[i]);
            proof {
                assert(colors@.subrange(0, i + 1).drop_last() =~= colors@.subrange(0, i as int));
            }
            acc = next;
            i = i + 1;
        }
        proof {
            assert(colors@.subrange(0, colors@.len() as int) =~= colors@);
        }
        acc
    }
}

/// Every color channel lies between zero and one (in fixed point), whatever
/// the constructor inputs were, valid or out of range; the sum, product and
/// scaling of clamped colors stay clamped.  Together with the type invariant
/// on [`Color`] this holds of every color in existence.
pub proof fn lemma_color_clamp_invariant(red: int, green: int, blue: int, a: ColorV, t: int)
    ensures
        clamped(sc_new(red, green, blue)),
        clamped(sc_add(a, sc_new(red, green, blue))),
        clamped(sc_mul(a, sc_new(red, green, blue))),
        clamped(sc_scale(a, t)),
{
}

/// The clamped sum of any sequence of colors is itself clamped.
pub proof fn lemma_color_sum_clamped(s: Seq<Color>)
    ensures
        clamped(sc_sum(s)),
    decreases s.len(),
{
    if s.len() != 0 {
        lemma_color_sum_clamped(s.drop_last());
    }
}

/// A point light: a position and a color.  It contributes to every shading
/// computation; only its direction matters, there is no falloff by distance
/// and no shadow test.
pub struct Light {
    pub position: Vector3,
    pub color: Color,
}

impl Light {
    /// The unit direction from `point` toward the light.
    pub fn direction_from(&self, point: &Vector3) -> (r: Vector3)
        requires
            bounded3(sv_sub(self.position@, point@), crate::vector::NORM_IN as int),
        ensures
            r@ == sv_normalize(sv_sub(self.position@, point@)),
            bounded3(r@, SCALE as int),
    {
        self.position.sub(point).normalize()
    }
}

} // verus!
