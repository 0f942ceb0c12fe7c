//! The color-space conversion layer.
//!
//! A color model is one of a closed set of color spaces, each declaring a
//! name and an ordered list of scalar input names. Conversion takes the
//! inputs positionally, maps them into RGB, and packs the result as a
//! 32-bit RGBA value: bits 31-24 red, 23-16 green, 15-8 blue, 7-0 alpha,
//! with alpha fixed at `0xff`.
//!
//! Out-of-range inputs are never an error: the hue wraps around the
//! circle and the other channels clamp to the unit range, because
//! generated expressions routinely leave the nominal domain.

use vstd::prelude::*;

use crate::scalar::Scalar;
use crate::vars::VarMap;

verus! {

/// Clamps a fixed-point value to the unit interval `[0, 1000]`.
pub open spec fn clamp_unit(v: int) -> int {
    if v < 0 {
        0
    } else if v > 1000 {
        1000
    } else {
        v
    }
}

/// Wraps a fixed-point hue in milli-degrees onto `[0, 360000)`.
pub open spec fn wrap_hue(h: int) -> int {
    h % 360000
}

/// Maps a unit-range channel to its 8-bit value, rounding to nearest.
pub open spec fn chan_byte(ch: int) -> int {
    (ch * 255 + 500) / 1000
}

/// Packs three 8-bit channels with a full alpha byte.
pub open spec fn pack_rgba(r: int, g: int, b: int) -> int {
    r * 0x1000000 + g * 0x10000 + b * 0x100 + 0xff
}

/// The RGBA value of fixed-point HSV inputs: hue in milli-degrees
/// (wrapped), saturation and value in milli-units (clamped).
pub open spec fn spec_hsv_rgba(h: int, s: int, v: int) -> int {
    let hw = wrap_hue(h);
    let sc = clamp_unit(s);
    let vc = clamp_unit(v);
    let c = vc * sc / 1000;
    let sector = hw / 60000;
    let f = (hw % 60000) / 60;
    let x = if sector % 2 == 0 {
        c * f / 1000
    } else {
        c * (1000 - f) / 1000
    };
    let m = vc - c;
    let r1 = if sector == 0 || sector == 5 {
        c
    } else if sector == 1 || sector == 4 {
        x
    } else {
        0
    };
    let g1 = if sector == 0 || sector == 3 {
        x
    } else if sector == 1 || sector == 2 {
        c
    } else {
        0
    };
    let b1 = if sector == 2 || sector == 5 {
        x
    } else if sector == 3 || sector == 4 {
        c
    } else {
        0
    };
    pack_rgba(chan_byte(r1 + m), chan_byte(g1 + m), chan_byte(b1 + m))
}

/// A color model: one of the supported color spaces. The set is closed,
/// so new spaces are added here without touching the binding table or
/// the renderer.
#[derive(Clone, Copy, PartialEq, Eq, Structural, Debug)]
pub enum ColorModel {
    /// Hue, saturation, value.
    Hsv,
}

/// The user-facing name of a model.
pub open spec fn model_name(m: ColorModel) -> Seq<char> {
    "hsv"@
}

/// The ordered input names of a model; the order is the positional
/// contract of conversion and never changes.
pub open spec fn model_inputs(m: ColorModel) -> Seq<Seq<char>> {
    seq!["h"@, "s"@, "v"@]
}

/// The RGBA value of a model applied to its inputs in order.
pub open spec fn spec_convert(m: ColorModel, vals: Seq<int>) -> int
    recommends
        vals.len() == model_inputs(m).len(),
{
    spec_hsv_rgba(vals[0], vals[1], vals[2])
}

/// A name's value under a mapping, with absent names reading as zero.
pub open spec fn lookup_or_zero(ctx: Map<Seq<char>, int>, name: Seq<char>) -> int {
    if ctx.contains_key(name) {
        ctx[name]
    } else {
        0
    }
}

/// The ordered input values a named mapping provides to a model.
pub open spec fn named_vals(m: ColorModel, ctx: Map<Seq<char>, int>) -> Seq<int> {
    model_inputs(m).map_values(|n: Seq<char>| lookup_or_zero(ctx, n))
}

/// The RGBA value of a model applied to a named mapping: inputs are read
/// by name, in the model's order, and an absent input reads as zero.
pub open spec fn spec_convert_named(m: ColorModel, ctx: Map<Seq<char>, int>) -> int {
    spec_convert(m, named_vals(m, ctx))
}

/// The HSV color model.
pub fn hsv() -> (r: ColorModel)
    ensures
        r == ColorModel::Hsv,
{
    ColorModel::Hsv
}

/// Converts fixed-point HSV inputs to a packed RGBA value.
#[verifier::rlimit(100)]
pub fn hsv_as_rgba_hex(h: Scalar, s: Scalar, v: Scalar) -> (r: u32)
    ensures
        r as int == spec_hsv_rgba(h.milli as int, s.milli as int, v.milli as int),
{
    proof {
        vstd::arithmetic::div_mod::lemma_mod_division_less_than_divisor(h.milli as int, 360000);
    }
    let hw64: i64 = match h.milli.checked_rem_euclid(360000) {
        Some(r) => r,
        None => 0,
    };
    let hw: u64 = hw64 as u64;
    let sc: u64 = if s.milli < 0 {
        0
    } else if s.milli > 1000 {
        1000
    } else {
        s.milli as u64
    };
    let vc: u64 = if v.milli < 0 {
        0
    } else if v.milli > 1000 {
        1000
    } else {
        v.milli as u64
    };
    proof {
        assert((vc as int) * (sc as int) <= 1000000) by (nonlinear_arith)
            requires
                0 <= vc as int <= 1000,
                0 <= sc as int <= 1000,
        ;
        vstd::arithmetic::div_mod::lemma_div_is_ordered(
            (vc as int) * (sc as int),
            1000000,
            1000,
        );
    }
    let c: u64 = vc * sc / 1000;
    let sector: u64 = hw / 60000;
    proof {
        vstd::arithmetic::div_mod::lemma_div_is_ordered(hw as int, 359999, 60000);
        vstd::arithmetic::div_mod::lemma_mod_division_less_than_divisor(hw as int, 60000);
        vstd::arithmetic::div_mod::lemma_div_is_ordered((hw as int) % 60000, 59999, 60);
    }
    let f: u64 = (hw % 60000) / 60;
    proof {
        assert((c as int) * (f as int) <= (c as int) * 1000) by (nonlinear_arith)
            requires
                0 <= c as int,
                0 <= f as int <= 1000,
        ;
        assert((c as int) * (1000 - f as int) <= (c as int) * 1000) by (nonlinear_arith)
            requires
                0 <= c as int,
                0 <= f as int <= 1000,
        ;
        vstd::arithmetic::div_mod::lemma_div_is_ordered(
            (c as int) * (f as int),
            (c as int) * 1000,
            1000,
        );
        vstd::arithmetic::div_mod::lemma_div_is_ordered(
            (c as int) * (1000 - f as int),
            (c as int) * 1000,
            1000,
        );
        vstd::arithmetic::div_mod::lemma_div_by_multiple(c as int, 1000);
        // c itself stays below the value channel
        assert((vc as int) * (sc as int) <= (vc as int) * 1000) by (nonlinear_arith)
            requires
                0 <= vc as int,
                0 <= sc as int <= 1000,
        ;
        vstd::arithmetic::div_mod::lemma_div_is_ordered(
            (vc as int) * (sc as int),
            (vc as int) * 1000,
            1000,
        );
        vstd::arithmetic::div_mod::lemma_div_by_multiple(vc as int, 1000);
    }
    let x: u64 = if sector % 2 == 0 {
        c * f / 1000
    } else {
        c * (1000 - f) / 1000
    };
    let m: u64 = vc - c;
    let r1: u64 = if sector == 0 || sector == 5 {
        c
    } else if sector == 1 || sector == 4 {
        x
    } else {
        0
    };
    let g1: u64 = if sector == 0 || sector == 3 {
        x
    } else if sector == 1 || sector == 2 {
        c
    } else {
        0
    };
    let b1: u64 = if sector == 2 || sector == 5 {
        x
    } else if sector == 3 || sector == 4 {
        c
    } else {
        0
    };
    proof {
        vstd::arithmetic::div_mod::lemma_div_is_ordered(
            (r1 as int + m as int) * 255 + 500,
            255500,
            1000,
        );
        vstd::arithmetic::div_mod::lemma_div_is_ordered(
            (g1 as int + m as int) * 255 + 500,
            255500,
            1000,
        );
        vstd::arithmetic::div_mod::lemma_div_is_ordered(
            (b1 as int + m as int) * 255 + 500,
            255500,
            1000,
        );
        vstd::arithmetic::div_mod::lemma_div_pos_is_pos((r1 as int + m as int) * 255 + 500, 1000);
        vstd::arithmetic::div_mod::lemma_div_pos_is_pos((g1 as int + m as int) * 255 + 500, 1000);
        vstd::arithmetic::div_mod::lemma_div_pos_is_pos((b1 as int + m as int) * 255 + 500, 1000);
    }
    let byte_r: u64 = ((r1 + m) * 255 + 500) / 1000;
    let byte_g: u64 = ((g1 + m) * 255 + 500) / 1000;
    let byte_b: u64 = ((b1 + m) * 255 + 500) / 1000;
    let packed: u64 = byte_r * 0x1000000 + byte_g * 0x10000 + byte_b * 0x100 + 0xff;
    packed as u32
}

impl ColorModel {
    /// The user-facing name of this model.
    pub fn name(&self) -> (r: String)
        ensures
            r@ == model_name(*self),
    {
        "hsv".to_owned()
    }

    /// The ordered input names of this model.
    pub fn inputs(&self) -> (r: Vec<String>)
        ensures
            r@.len() == model_inputs(*self).len(),
            forall|i: int| 0 <= i < r@.len() ==> r@[i]@ == model_inputs(*self)[i],
    {
        let mut v: Vec<String> = Vec::new();
        v.push("h".to_owned());
        v.push("s".to_owned());
        v.push("v".to_owned());
        v
    }

    /// How many inputs this model takes.
    pub fn num_inputs(&self) -> (n: usize)
        ensures
            n == model_inputs(*self).len(),
    {
        3
    }

    /// Converts an ordered vector of inputs, interpreted positionally in
    /// the order of `inputs`, to a packed RGBA value.
    pub fn convert_one(&self, vals: &Vec<Scalar>) -> (r: u32)
        requires
            vals@.len() == model_inputs(*self).len(),
        ensures
            r as int == spec_convert(*self, vals@.map_values(|s: Scalar| s.milli as int)),
    {
        hsv_as_rgba_hex(vals[0], vals[1], vals[2])
    }

    /// Converts a named-input mapping to a packed RGBA value. Inputs are
    /// read by name in the model's order; an absent input reads as zero.
    pub fn as_rgba_hex(&self, input_vals: &VarMap) -> (r: u32)
        ensures
            r as int == spec_convert_named(*self, input_vals@),
    {
        let mut vals: Vec<Scalar> = Vec::new();
        vals.push(input_vals.get_or_zero("h"));
        vals.push(input_vals.get_or_zero("s"));
        vals.push(input_vals.get_or_zero("v"));
        let r = self.convert_one(&vals);
        proof {
            assert(vals@.map_values(|s: Scalar| s.milli as int) =~= named_vals(
                *self,
                input_vals@,
            ));
        }
        r
    }

    /// Converts a batch of named-input mappings, one RGBA value per
    /// mapping, in order.
    pub fn many_as_rgba_hex(&self, input_vals_vec: &Vec<VarMap>) -> (r: Vec<u32>)
        ensures
            r@.len() == input_vals_vec@.len(),
            forall|i: int|
                0 <= i < r@.len() ==> r@[i] as int == spec_convert_named(
                    *self,
                    input_vals_vec@[i]@,
                ),
    {
        let mut out: Vec<u32> = Vec::new();
        let mut i: usize = 0;
        while i < input_vals_vec.len()
            invariant
                i <= input_vals_vec@.len(),
                out@.len() == i,
                forall|j: int|
                    0 <= j < i ==> out@[j] as int == spec_convert_named(
                        *self,
                        input_vals_vec@[j]@,
                    ),
            decreases input_vals_vec@.len() - i,
        {
            let hex = self.as_rgba_hex(&input_vals_vec[i]);
            out.push(hex);
            i = i + 1;
        }
        out
    }
}

/// The hue is periodic: a full turn of 360 degrees leaves the color
/// unchanged.
pub proof fn lemma_hue_periodic(h: int, s: int, v: int)
    ensures
        spec_hsv_rgba(h + 360000, s, v) == spec_hsv_rgba(h, s, v),
{
    assert((h + 360000) % 360000 == h % 360000) by {
        vstd::arithmetic::div_mod::lemma_mod_add_multiples_vanish(h, 360000);
    }
}

/// Out-of-range saturation and value only clamp: converting already
/// clamped channels gives the same color.
pub proof fn lemma_channels_clamp(h: int, s: int, v: int)
    ensures
        spec_hsv_rgba(h, clamp_unit(s), clamp_unit(v)) == spec_hsv_rgba(h, s, v),
{
}

/// Positional and named conversion agree: feeding a model the mapping
/// `{h, s, v}` equals feeding it the vector `[h, s, v]`.
pub proof fn lemma_positional_matches_named(a: int, b: int, c: int)
    ensures
        spec_convert_named(
            ColorModel::Hsv,
            map!["h"@ => a, "s"@ => b, "v"@ => c],
        ) == spec_convert(ColorModel::Hsv, seq![a, b, c]),
{
    reveal_strlit("h");
    reveal_strlit("s");
    reveal_strlit("v");
    let ctx = map!["h"@ => a, "s"@ => b, "v"@ => c];
    assert("h"@[0] == 'h' && "s"@[0] == 's' && "v"@[0] == 'v');
    assert("h"@ != "s"@ && "h"@ != "v"@ && "s"@ != "v"@);
    assert(named_vals(ColorModel::Hsv, ctx)[0] == a);
    assert(named_vals(ColorModel::Hsv, ctx)[1] == b);
    assert(named_vals(ColorModel::Hsv, ctx)[2] == c);
    assert(named_vals(ColorModel::Hsv, ctx) =~= seq![a, b, c]);
}

} // verus!
