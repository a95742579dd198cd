use vstd::prelude::*;

verus! {

/// A pixel of three 8-bit channels: red, green and blue.
#[derive(Clone, Copy, Debug, PartialEq, Eq, Structural)]
pub struct Rgb {
    pub r: u8,
    pub g: u8,
    pub b: u8,
}

/// Channel `c` of a pixel: 0 is red, 1 is green, anything else blue.
pub open spec fn channel(p: Rgb, c: int) -> int {
    if c == 0 {
        p.r as int
    } else if c == 1 {
        p.g as int
    } else {
        p.b as int
    }
}

/// Sum of channel `c` over a sequence of pixels.
pub open spec fn channel_sum(s: Seq<Rgb>, c: int) -> int
    decreases s.len(),
{
    if s.len() == 0 {
        0
    } else {
        channel_sum(s.drop_last(), c) + channel(s.last(), c)
    }
}

/// Truncated mean of channel `c`; zero for an empty sequence.
pub open spec fn mean_channel(s: Seq<Rgb>, c: int) -> u8 {
    if s.len() == 0 {
        0
    } else {
        (channel_sum(s, c) / (s.len() as int)) as u8
    }
}

/// The per-channel truncated mean color of a sequence of pixels.
pub open spec fn mean_color(s: Seq<Rgb>) -> Rgb {
    Rgb { r: mean_channel(s, 0), g: mean_channel(s, 1), b: mean_channel(s, 2) }
}

pub open spec fn abs_diff(a: u8, b: u8) -> int {
    if a >= b {
        a - b
    } else {
        b - a
    }
}

/// How far one pixel lies from a reference color: a third of each channel's
/// absolute difference, truncated, summed over the channels.
pub open spec fn deviation(avg: Rgb, p: Rgb) -> int {
    abs_diff(avg.r, p.r) / 3 + abs_diff(avg.g, p.g) / 3 + abs_diff(avg.b, p.b) / 3
}

pub open spec fn deviation_sum(s: Seq<Rgb>, avg: Rgb) -> int
    decreases s.len(),
{
    if s.len() == 0 {
        0
    } else {
        deviation_sum(s.drop_last(), avg) + deviation(avg, s.last())
    }
}

/// The dispersion score: mean deviation of the pixels from `avg`, truncated.
pub open spec fn dispersion(s: Seq<Rgb>, avg: Rgb) -> int {
    deviation_sum(s, avg) / (s.len() as int)
}

pub proof fn lemma_channel_sum_bounds(s: Seq<Rgb>, c: int)
    ensures
        0 <= channel_sum(s, c) <= 255 * s.len(),
    decreases s.len(),
{
    if s.len() > 0 {
        lemma_channel_sum_bounds(s.drop_last(), c);
    }
}

/// The mean of a channel lies between the smallest and largest value, so the
/// truncation to a byte keeps it.
pub proof fn lemma_mean_channel_exact(s: Seq<Rgb>, c: int)
    requires
        s.len() > 0,
    ensures
        mean_channel(s, c) as int == channel_sum(s, c) / (s.len() as int),
{
    lemma_channel_sum_bounds(s, c);
    let n = s.len() as int;
    let t = channel_sum(s, c);
    assert(0 <= t / n <= 255) by (nonlinear_arith)
        requires
            0 <= t <= 255 * n,
            n > 0,
    ;
}

pub proof fn lemma_deviation_sum_bounds(s: Seq<Rgb>, avg: Rgb)
    ensures
        0 <= deviation_sum(s, avg) <= 255 * s.len(),
    decreases s.len(),
{
    if s.len() > 0 {
        lemma_deviation_sum_bounds(s.drop_last(), avg);
    }
}

/// A sequence of one repeated color has that color as its mean and deviates
/// from it by nothing.
pub proof fn lemma_uniform_seq(s: Seq<Rgb>, c: Rgb)
    requires
        forall|i: int| 0 <= i < s.len() ==> s[i] == c,
    ensures
        forall|k: int| #[trigger] channel_sum(s, k) == s.len() * channel(c, k),
        deviation_sum(s, c) == 0,
        s.len() > 0 ==> mean_color(s) == c,
    decreases s.len(),
{
    if s.len() > 0 {
        lemma_uniform_seq(s.drop_last(), c);
        assert(s.last() == c);
        assert forall|k: int| channel_sum(s, k) == s.len() * channel(c, k) by {
            assert(channel_sum(s.drop_last(), k) == (s.len() - 1) * channel(c, k));
            assert((s.len() - 1) * channel(c, k) + channel(c, k) == s.len() * channel(c, k))
                by (nonlinear_arith);
        }
        let n = s.len() as int;
        assert forall|k: int| channel_sum(s, k) / n == channel(c, k) by {
            let v = channel(c, k);
            assert((n * v) / n == v) by (nonlinear_arith)
                requires
                    n > 0,
            ;
        }
        lemma_mean_channel_exact(s, 0);
        lemma_mean_channel_exact(s, 1);
        lemma_mean_channel_exact(s, 2);
    } else {
        assert forall|k: int| channel_sum(s, k) == s.len() * channel(c, k) by {}
    }
}

/// Per-channel truncated mean of `pixels`; the zero color when there are none.
pub fn avg_pixels(pixels: &Vec<Rgb>) -> (r: Rgb)
    ensures
        r == mean_color(pixels@),
{
    let mut total_r: u128 = 0;
    let mut total_g: u128 = 0;
    let mut total_b: u128 = 0;
    let mut i: usize = 0;
    while i < pixels.len()
        invariant
            i <= pixels@.len(),
            total_r == channel_sum(pixels@.take(i as int), 0),
            total_g == channel_sum(pixels@.take(i as int), 1),
            total_b == channel_sum(pixels@.take(i as int), 2),
            total_r <= 255 * i,
            total_g <= 255 * i,
            total_b <= 255 * i,
        decreases pixels@.len() - i,
    {
        let p = pixels[i];
        total_r = total_r + p.r as u128;
        total_g = total_g + p.g as u128;
        total_b = total_b + p.b as u128;
        proof {
            assert(pixels@.take(i + 1).drop_last() =~= pixels@.take(i as int));
        }
        i = i + 1;
    }
    assert(pixels@.take(i as int) =~= pixels@);
    let num_pixels: u128 = if i > 0 {
        i as u128
    } else {
        1
    };
    Rgb {
        r: (total_r / num_pixels) as u8,
        g: (total_g / num_pixels) as u8,
        b: (total_b / num_pixels) as u8,
    }
}

fn abs_diff_third(a: u8, b: u8) -> (r: u128)
    ensures
        r == abs_diff(a, b) / 3,
{
    if a >= b {
        ((a - b) / 3) as u128
    } else {
        ((b - a) / 3) as u128
    }
}

/// The dispersion score of `pixels` against the reference color `avg`.
pub fn calc_variance(pixels: &Vec<Rgb>, avg: Rgb) -> (r: u32)
    requires
        pixels@.len() > 0,
    ensures
        r == dispersion(pixels@, avg),
        r <= 255,
{
    let mut variance: u128 = 0;
    let mut i: usize = 0;
    while i < pixels.len()
        invariant
            i <= pixels@.len(),
            variance == deviation_sum(pixels@.take(i as int), avg),
            variance <= 255 * i,
        decreases pixels@.len() - i,
    {
        let p = pixels[i];
        variance = variance + abs_diff_third(avg.r, p.r) + abs_diff_third(avg.g, p.g)
            + abs_diff_third(avg.b, p.b);
        proof {
            assert(pixels@.take(i + 1).drop_last() =~= pixels@.take(i as int));
        }
        i = i + 1;
    }
    assert(pixels@.take(i as int) =~= pixels@);
    let n: u128 = i as u128;
    assert(variance / n <= 255) by (nonlinear_arith)
        requires
            variance <= 255 * n,
            n > 0,
    ;
    (variance / n) as u32
}

} // verus!
