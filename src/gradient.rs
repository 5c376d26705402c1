//! Colour fades between two colours of the 6-level terminal colour cube.
use vstd::prelude::*;
use vstd::arithmetic::div_mod::lemma_fundamental_div_mod_converse;

verus! {

/// Largest value of a colour channel in the 6x6x6 colour cube.
pub const ANSI_RGB_MAX: u8 = 5;

/// Smallest value of a colour channel in the 6x6x6 colour cube.
pub const ANSI_RGB_MIN: u8 = 0;

/// A colour of the terminal colour cube, one value per channel.
#[derive(Debug, Clone, Copy, PartialEq, Eq, Structural)]
pub struct Color {
    pub r: u8,
    pub g: u8,
    pub b: u8,
}

impl Color {
    /// The bright green of a trail's head.
    pub fn pure_green() -> (c: Color)
        ensures
            c == (Color { r: 0, g: 5, b: 0 }),
    {
        Color { r: 0, g: 5, b: 0 }
    }

    /// The dim green that a trail fades to.
    pub fn dark_green() -> (c: Color)
        ensures
            c == (Color { r: 0, g: 1, b: 0 }),
    {
        Color { r: 0, g: 1, b: 0 }
    }
}

/// The per-step change of one channel when fading from `c1` to `c2` in
/// `steps` steps: `floor((c2 - c1) / steps)`, zero for equal channels, and
/// at least one step of change when the channels differ.
pub open spec fn step_size(c1: u8, c2: u8, steps: u8) -> int
    recommends
        steps >= 1,
{
    if c1 == c2 {
        0
    } else {
        let s = (c2 - c1) / (steps as int);
        if s == 0 {
            1
        } else {
            s
        }
    }
}

/// Lower bound of the clamp towards `target`: the cube's minimum, widened to
/// take in `target`.
pub open spec fn clip_low(target: u8) -> int {
    if target < ANSI_RGB_MIN {
        target as int
    } else {
        ANSI_RGB_MIN as int
    }
}

/// Upper bound of the clamp towards `target`: the cube's maximum, widened to
/// take in `target`.
pub open spec fn clip_high(target: u8) -> int {
    if target > ANSI_RGB_MAX {
        target as int
    } else {
        ANSI_RGB_MAX as int
    }
}

/// `val` clamped into `[clip_low(target), clip_high(target)]`.
pub open spec fn clipped(val: int, target: u8) -> int {
    if val < clip_low(target) {
        clip_low(target)
    } else if val > clip_high(target) {
        clip_high(target)
    } else {
        val
    }
}

/// Channel `i` of the fade from `c1` to `c2` over `steps` steps.
pub open spec fn channel_at(c1: u8, c2: u8, steps: u8, i: int) -> int {
    clipped(c1 + i * step_size(c1, c2, steps), c2)
}

/// Colour `i` of the fade from `start` to `end` over `steps` steps.
pub open spec fn gradient_at(start: Color, end: Color, steps: u8, i: int) -> Color {
    Color {
        r: channel_at(start.r, end.r, steps, i) as u8,
        g: channel_at(start.g, end.g, steps, i) as u8,
        b: channel_at(start.b, end.b, steps, i) as u8,
    }
}

/// The whole fade from `start` to `end` over `steps` steps.
pub open spec fn gradient(start: Color, end: Color, steps: u8) -> Seq<Color> {
    Seq::new(steps as nat, |i: int| gradient_at(start, end, steps, i))
}

/// Computes `step_size(c1, c2, steps)`, rounding the quotient towards
/// negative infinity.
pub fn compute_step_size(c1: u8, c2: u8, steps: u8) -> (r: i32)
    requires
        steps >= 1,
    ensures
        r as int == step_size(c1, c2, steps),
        -255 <= r <= 255,
{
    if c1 == c2 {
        return 0;
    }
    let s: u32 = steps as u32;
    let step: i32 = if c2 > c1 {
        let d: u32 = (c2 - c1) as u32;
        assert(d / s <= d) by (nonlinear_arith)
            requires
                s >= 1,
        {
            vstd::arithmetic::div_mod::lemma_div_is_ordered_by_denominator(d as int, 1, s as int);
        }
        (d / s) as i32
    } else {
        let n: u32 = (c1 - c2) as u32;
        let q: u32 = (n + s - 1) / s;
        proof {
            let ni = n as int;
            let si = s as int;
            let qi = q as int;
            assert(si * qi <= ni + si - 1 && ni + si - 1 < si * qi + si) by (nonlinear_arith)
                requires
                    qi == (ni + si - 1) / si,
                    si >= 1,
                    ni >= 0,
            {
                vstd::arithmetic::div_mod::lemma_fundamental_div_mod(ni + si - 1, si);
            }
            assert(-qi * si == -(si * qi)) by (nonlinear_arith);
            assert(qi <= ni) by (nonlinear_arith)
                requires
                    si * qi <= ni + si - 1,
                    si >= 1,
                    ni >= 0,
            ;
            lemma_fundamental_div_mod_converse(-ni, si, -qi, -ni + si * qi);
        }
        -(q as i32)
    };
    if step == 0 {
        1
    } else {
        step
    }
}

/// Clamps `val` into the cube's channel range, widened to take in
/// `interpolatee_val`.
pub fn clip(val: i32, interpolatee_val: u8) -> (r: u8)
    ensures
        r as int == clipped(val as int, interpolatee_val),
{
    let min_bound: u8 = if interpolatee_val < ANSI_RGB_MIN {
        interpolatee_val
    } else {
        ANSI_RGB_MIN
    };
    let max_bound: u8 = if interpolatee_val > ANSI_RGB_MAX {
        interpolatee_val
    } else {
        ANSI_RGB_MAX
    };
    if val < min_bound as i32 {
        min_bound
    } else if val > max_bound as i32 {
        max_bound
    } else {
        val as u8
    }
}

/// The fade from `c1` to `c2` in `steps` colours: colour `i` has each
/// channel at `c + i * step_size(c, e, steps)`, clamped towards the end
/// channel `e` by `clip`. With `steps == 0` the fade is empty.
pub fn interpolate(c1: Color, c2: Color, steps: u8) -> (r: Vec<Color>)
    ensures
        r@ == gradient(c1, c2, steps),
        r@.len() == steps,
        c1 == c2 ==> forall|j: int| 0 <= j < steps ==> #[trigger] r@[j] == c1,
{
    let mut interpolates: Vec<Color> = Vec::new();
    if steps == 0 {
        assert(interpolates@ =~= gradient(c1, c2, steps));
        return interpolates;
    }
    let rdelta = compute_step_size(c1.r, c2.r, steps);
    let gdelta = compute_step_size(c1.g, c2.g, steps);
    let bdelta = compute_step_size(c1.b, c2.b, steps);
    let n: i32 = steps as i32;
    let mut i: i32 = 0;
    while i < n
        invariant
            0 <= i <= n,
            n == steps as i32,
            rdelta as int == step_size(c1.r, c2.r, steps),
            gdelta as int == step_size(c1.g, c2.g, steps),
            bdelta as int == step_size(c1.b, c2.b, steps),
            -255 <= rdelta <= 255,
            -255 <= gdelta <= 255,
            -255 <= bdelta <= 255,
            interpolates@.len() == i,
            forall|j: int| 0 <= j < i ==> interpolates@[j] == gradient_at(c1, c2, steps, j),
        decreases n - i,
    {
        proof {
            lemma_small_product(i as int, rdelta as int);
            lemma_small_product(i as int, gdelta as int);
            lemma_small_product(i as int, bdelta as int);
        }
        interpolates.push(
            Color {
                r: clip(c1.r as i32 + i * rdelta, c2.r),
                g: clip(c1.g as i32 + i * gdelta, c2.g),
                b: clip(c1.b as i32 + i * bdelta, c2.b),
            },
        );
        i = i + 1;
    }
    assert(interpolates@ =~= gradient(c1, c2, steps));
    proof {
        if c1 == c2 {
            assert forall|j: int| 0 <= j < steps implies #[trigger] interpolates@[j] == c1 by {
                assert(j * 0 == 0);
            }
        }
    }
    interpolates
}

/// Along a fade every channel moves one way only, towards its end value:
/// never down when the end is above the start, never up when it is below.
pub proof fn lemma_channel_monotonic(c1: u8, c2: u8, steps: u8, i: int, j: int)
    requires
        steps >= 1,
        0 <= i <= j,
    ensures
        c1 <= c2 ==> channel_at(c1, c2, steps, i) <= channel_at(c1, c2, steps, j),
        c1 >= c2 ==> channel_at(c1, c2, steps, i) >= channel_at(c1, c2, steps, j),
{
    let d = step_size(c1, c2, steps);
    let s = steps as int;
    if c1 < c2 {
        lemma_div_sign(c2 - c1, s);
        assert(i * d <= j * d) by (nonlinear_arith)
            requires
                d >= 0,
                i <= j,
        ;
    } else if c1 > c2 {
        lemma_div_sign(c2 - c1, s);
        assert(i * d >= j * d) by (nonlinear_arith)
            requires
                d <= 0,
                i <= j,
        ;
    } else {
        assert(i * d == 0 && j * d == 0);
    }
}

/// Every channel of a fade lies between the cube's bounds, widened only as
/// far as needed to take in the end channel; so a fade towards a colour of
/// the cube stays in the cube.
pub proof fn lemma_channel_in_range(c1: u8, c2: u8, steps: u8, i: int)
    ensures
        clip_low(c2) <= channel_at(c1, c2, steps, i) <= clip_high(c2),
        c2 <= ANSI_RGB_MAX ==> 0 <= channel_at(c1, c2, steps, i) <= ANSI_RGB_MAX,
{
}

proof fn lemma_div_sign(x: int, s: int)
    requires
        s >= 1,
    ensures
        x >= 0 ==> x / s >= 0,
        x < 0 ==> x / s < 0,
{
    vstd::arithmetic::div_mod::lemma_fundamental_div_mod(x, s);
    let q = x / s;
    let r = x % s;
    assert(x >= 0 ==> q >= 0) by (nonlinear_arith)
        requires
            x == s * q + r,
            0 <= r < s,
            s >= 1,
    ;
    assert(x < 0 ==> q < 0) by (nonlinear_arith)
        requires
            x == s * q + r,
            0 <= r < s,
            s >= 1,
    ;
}

proof fn lemma_small_product(i: int, d: int)
    requires
        0 <= i <= 255,
        -255 <= d <= 255,
    ensures
        -65025 <= i * d <= 65025,
{
    assert(-65025 <= i * d <= 65025) by (nonlinear_arith)
        requires
            0 <= i <= 255,
            -255 <= d <= 255,
    ;
}

} // verus!
