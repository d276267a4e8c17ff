//! RGB colors and channel-wise integer averaging of color sequences.

use vstd::prelude::*;
use vstd::arithmetic::div_mod::{lemma_div_is_ordered, lemma_div_multiples_vanish, lemma_div_pos_is_pos};

verus! {

/// An immutable RGB color with three 8-bit channels and no alpha.
#[derive(Clone, Copy, PartialEq, Eq, Structural, Debug)]
pub struct Color {
    pub r: u8,
    pub g: u8,
    pub b: u8,
}

impl Color {
    /// Builds a color from its three channels.
    pub fn new(r: u8, g: u8, b: u8) -> (c: Color)
        ensures
            c == (Color { r, g, b }),
    {
        Color { r, g, b }
    }

    /// The default contents of a freshly constructed buffer.
    pub open spec fn black() -> Color {
        Color { r: 0, g: 0, b: 0 }
    }
}

/// Sum of the red channels of a sequence of colors.
pub open spec fn red_sum(s: Seq<Color>) -> int
    decreases s.len(),
{
    if s.len() == 0 {
        0
    } else {
        red_sum(s.drop_last()) + s.last().r
    }
}

/// Sum of the green channels of a sequence of colors.
pub open spec fn green_sum(s: Seq<Color>) -> int
    decreases s.len(),
{
    if s.len() == 0 {
        0
    } else {
        green_sum(s.drop_last()) + s.last().g
    }
}

/// Sum of the blue channels of a sequence of colors.
pub open spec fn blue_sum(s: Seq<Color>) -> int
    decreases s.len(),
{
    if s.len() == 0 {
        0
    } else {
        blue_sum(s.drop_last()) + s.last().b
    }
}

/// The channel-wise average of a sequence of colors: each channel is summed
/// as an integer and divided by the length, truncating toward zero.
pub open spec fn average_color(s: Seq<Color>) -> Color
    recommends
        s.len() > 0,
{
    Color {
        r: (red_sum(s) / s.len() as int) as u8,
        g: (green_sum(s) / s.len() as int) as u8,
        b: (blue_sum(s) / s.len() as int) as u8,
    }
}

/// Extending a prefix of `s` by one element adds that element's channels to
/// the three channel sums.
pub proof fn lemma_channel_sums_push(s: Seq<Color>, i: int)
    requires
        0 <= i < s.len(),
    ensures
        red_sum(s.take(i + 1)) == red_sum(s.take(i)) + s[i].r,
        green_sum(s.take(i + 1)) == green_sum(s.take(i)) + s[i].g,
        blue_sum(s.take(i + 1)) == blue_sum(s.take(i)) + s[i].b,
{
    assert(s.take(i + 1).drop_last() =~= s.take(i));
    assert(s.take(i + 1).last() == s[i]);
}

/// Each channel sum lies between 0 and 255 times the length.
pub proof fn lemma_channel_sums_bounds(s: Seq<Color>)
    ensures
        0 <= red_sum(s) <= 255 * s.len(),
        0 <= green_sum(s) <= 255 * s.len(),
        0 <= blue_sum(s) <= 255 * s.len(),
    decreases s.len(),
{
    if s.len() > 0 {
        lemma_channel_sums_bounds(s.drop_last());
    }
}

/// Channel sums of a constant sequence are the length times the channel.
pub proof fn lemma_channel_sums_constant(s: Seq<Color>, c: Color)
    requires
        forall|i: int| 0 <= i < s.len() ==> s[i] == c,
    ensures
        red_sum(s) == s.len() * c.r,
        green_sum(s) == s.len() * c.g,
        blue_sum(s) == s.len() * c.b,
    decreases s.len(),
{
    if s.len() > 0 {
        assert(s.last() == c);
        lemma_channel_sums_constant(s.drop_last(), c);
        assert(red_sum(s) == (s.len() - 1) * c.r + c.r);
        assert((s.len() - 1) * c.r + c.r == s.len() * c.r) by (nonlinear_arith);
        assert((s.len() - 1) * c.g + c.g == s.len() * c.g) by (nonlinear_arith);
        assert((s.len() - 1) * c.b + c.b == s.len() * c.b) by (nonlinear_arith);
    }
}

/// Averaging a nonempty sequence whose entries all equal `c` gives back `c`.
pub proof fn lemma_average_uniform(s: Seq<Color>, c: Color)
    requires
        s.len() >= 1,
        forall|i: int| 0 <= i < s.len() ==> s[i] == c,
    ensures
        average_color(s) == c,
{
    lemma_channel_sums_constant(s, c);
    let n = s.len() as int;
    lemma_div_multiples_vanish(c.r as int, n);
    lemma_div_multiples_vanish(c.g as int, n);
    lemma_div_multiples_vanish(c.b as int, n);
    assert(red_sum(s) / n == c.r as int);
    assert(green_sum(s) / n == c.g as int);
    assert(blue_sum(s) / n == c.b as int);
}

/// Computes the channel-wise truncating average of a nonempty vector of
/// colors, matching [`average_color`] exactly.
pub fn average_of(colors: &Vec<Color>) -> (c: Color)
    requires
        1 <= colors@.len() <= u32::MAX,
    ensures
        c == average_color(colors@),
{
    let n = colors.len();
    let mut rs: u64 = 0;
    let mut gs: u64 = 0;
    let mut bs: u64 = 0;
    let mut i: usize = 0;
    while i < n
        invariant
            n == colors@.len(),
            n <= u32::MAX,
            0 <= i <= n,
            rs == red_sum(colors@.take(i as int)),
            gs == green_sum(colors@.take(i as int)),
            bs == blue_sum(colors@.take(i as int)),
        decreases n - i,
    {
        proof {
            lemma_channel_sums_push(colors@, i as int);
            lemma_channel_sums_bounds(colors@.take(i as int));
        }
        let px = colors[i];
        rs = rs + px.r as u64;
        gs = gs + px.g as u64;
        bs = bs + px.b as u64;
        i = i + 1;
    }
    proof {
        assert(colors@.take(n as int) =~= colors@);
        lemma_channel_sums_bounds(colors@);
        let len = n as int;
        lemma_div_is_ordered(red_sum(colors@), 255 * len, len);
        lemma_div_is_ordered(green_sum(colors@), 255 * len, len);
        lemma_div_is_ordered(blue_sum(colors@), 255 * len, len);
        lemma_div_multiples_vanish(255, len);
        lemma_div_pos_is_pos(red_sum(colors@), len);
        lemma_div_pos_is_pos(green_sum(colors@), len);
        lemma_div_pos_is_pos(blue_sum(colors@), len);
    }
    let count = n as u64;
    Color { r: (rs / count) as u8, g: (gs / count) as u8, b: (bs / count) as u8 }
}

} // verus!
