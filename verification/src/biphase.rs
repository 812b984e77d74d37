//! Biphase mark (differential Manchester), the physical layer of LTC: a transition at every bit
//! boundary, a second one in the middle of a bit that is 1, and none in the middle of a 0.
//!
//! Timing goes by a fractional sample clock, so that rates with no whole number of samples per
//! bit (29.97 fps at 48 kHz has about 20.02) are rendered without drift: each bit boundary lands
//! at round(bit index * samples per bit).

use vstd::prelude::*;

use crate::frame::{frame_bits, law_zeros_even, zeros, Timecode};
use crate::rate::Ratio;

verus! {

/// The sample at which half bit `j` starts: `j` half bits of `sample_rate / (160 * fps)` samples
/// each, rounded to the nearest whole number, halves up. Bit `k` starts at half bit `2 * k` and
/// has its middle at half bit `2 * k + 1`.
pub open spec fn tick(j: int, sample_rate: u32, fps: Ratio) -> int {
    (j * (sample_rate * fps.den) + 80 * fps.num) / (160 * fps.num)
}

/// The bits of all frames, one after the other.
pub open spec fn all_bits(frames: Seq<[bool; 80]>) -> Seq<bool> {
    Seq::new(80 * frames.len(), |i: int| frames[i / 80]@[i % 80])
}

/// The level changes at the start of half bit `j`: at every bit boundary, and in the middle of
/// a bit that is 1.
pub open spec fn flips_at(bits: Seq<bool>, j: int) -> bool {
    j % 2 == 0 || bits[j / 2]
}

/// The level of half bit `j`, where the level before the first bit is `amplitude`.
pub open spec fn level_at(bits: Seq<bool>, amplitude: int, j: int) -> int
    decreases j + 1,
{
    if j < 0 {
        amplitude
    } else if flips_at(bits, j) {
        -level_at(bits, amplitude, j - 1)
    } else {
        level_at(bits, amplitude, j - 1)
    }
}

/// The signal for `bits`: as long as their half bits, and each half bit at its level.
pub open spec fn is_signal(
    out: Seq<i16>,
    bits: Seq<bool>,
    sample_rate: u32,
    fps: Ratio,
    amplitude: i16,
) -> bool {
    rendered(out, bits, sample_rate, fps, amplitude, 2 * bits.len() as int)
}

/// The first `n` half bits of the signal for `bits`.
pub open spec fn rendered(
    out: Seq<i16>,
    bits: Seq<bool>,
    sample_rate: u32,
    fps: Ratio,
    amplitude: i16,
    n: int,
) -> bool {
    &&& out.len() == tick(n, sample_rate, fps)
    &&& forall|j: int, t: int|
        0 <= j < n && tick(j, sample_rate, fps) <= t < tick(j + 1, sample_rate, fps)
            ==> #[trigger] out[t] == #[trigger] level_at(bits, amplitude as int, j)
}

proof fn lemma_tick_monotone(a: int, b: int, sample_rate: u32, fps: Ratio)
    requires
        0 <= a <= b,
        fps.num > 0,
    ensures
        0 <= tick(a, sample_rate, fps) <= tick(b, sample_rate, fps),
{
    let x = (sample_rate * fps.den) as int;
    let n = fps.num as int;
    assert(0 <= x) by (nonlinear_arith)
        requires
            x == sample_rate * fps.den,
    ;
    assert(0 <= a * x <= b * x) by (nonlinear_arith)
        requires
            0 <= a <= b,
            0 <= x,
    ;
    vstd::arithmetic::div_mod::lemma_div_is_ordered(a * x + 80 * n, b * x + 80 * n, 160 * n);
    vstd::arithmetic::div_mod::lemma_div_pos_is_pos(a * x + 80 * n, 160 * n);
}

/// The start of a half bit is the exact time, plus half a sample, rounded down.
pub proof fn lemma_tick_bounds(j: int, sample_rate: u32, fps: Ratio)
    requires
        fps.num > 0,
    ensures
        160 * fps.num * tick(j, sample_rate, fps) <= j * (sample_rate * fps.den) + 80 * fps.num,
        j * (sample_rate * fps.den) + 80 * fps.num < 160 * fps.num * tick(j, sample_rate, fps) + 160
            * fps.num,
{
    let v = j * (sample_rate * fps.den) + 80 * fps.num;
    vstd::arithmetic::div_mod::lemma_fundamental_div_mod(v, 160 * fps.num as int);
    vstd::arithmetic::div_mod::lemma_mod_bound(v, 160 * fps.num as int);
}

/// The sample at which half bit `j` starts.
fn tick_of(j: u128, sample_rate: u32, fps: Ratio) -> (r: usize)
    requires
        fps.num > 0,
        tick(j as int, sample_rate, fps) <= usize::MAX,
    ensures
        r == tick(j as int, sample_rate, fps),
{
    assert(0 <= sample_rate * fps.den <= 0xffff_ffff * 0xffff_ffff) by (nonlinear_arith)
        requires
            sample_rate <= 0xffff_ffff,
            fps.den <= 0xffff_ffff,
    ;
    let x: u128 = sample_rate as u128 * fps.den as u128;
    let n: u128 = fps.num as u128;
    proof {
        lemma_tick_bounds(j as int, sample_rate, fps);
        lemma_tick_monotone(0, j as int, sample_rate, fps);
        let t = tick(j as int, sample_rate, fps);
        assert(160 * n * t <= 160 * 0xffff_ffff * 0xffff_ffff_ffff_ffff) by (nonlinear_arith)
            requires
                0 <= t <= 0xffff_ffff_ffff_ffff,
                0 <= n <= 0xffff_ffff,
        ;
        assert(0 <= j * x) by (nonlinear_arith)
            requires
                0 <= j,
                0 <= x,
        ;
    }
    ((j * x + 80 * n) / (160 * n)) as usize
}

/// Appends `level` until the signal is `until` samples long.
fn hold(out: &mut Vec<i16>, until: usize, level: i16)
    requires
        old(out).len() <= until,
    ensures
        final(out).len() == until,
        forall|t: int| 0 <= t < old(out).len() ==> #[trigger] final(out)@[t] == old(out)@[t],
        forall|t: int| old(out).len() <= t < until ==> #[trigger] final(out)@[t] == level,
{
    while out.len() < until
        invariant
            old(out).len() <= out.len() <= until,
            forall|t: int| 0 <= t < old(out).len() ==> #[trigger] out@[t] == old(out)@[t],
            forall|t: int| old(out).len() <= t < out.len() ==> #[trigger] out@[t] == level,
        decreases until - out.len(),
    {
        out.push(level);
    }
}

proof fn lemma_rendered_step(
    before: Seq<i16>,
    after: Seq<i16>,
    bits: Seq<bool>,
    sample_rate: u32,
    fps: Ratio,
    amplitude: i16,
    n: int,
)
    requires
        fps.num > 0,
        n >= 0,
        rendered(before, bits, sample_rate, fps, amplitude, n),
        after.len() == tick(n + 1, sample_rate, fps),
        forall|t: int| 0 <= t < before.len() ==> #[trigger] after[t] == before[t],
        forall|t: int|
            before.len() <= t < after.len() ==> #[trigger] after[t] == level_at(
                bits,
                amplitude as int,
                n,
            ),
    ensures
        rendered(after, bits, sample_rate, fps, amplitude, n + 1),
{
    assert forall|j: int, t: int|
        0 <= j < n + 1 && tick(j, sample_rate, fps) <= t < tick(
            j + 1,
            sample_rate,
            fps,
        ) implies #[trigger] after[t] == #[trigger] level_at(bits, amplitude as int, j) by {
        lemma_tick_monotone(0, j, sample_rate, fps);
        if j < n {
            lemma_tick_monotone(j + 1, n, sample_rate, fps);
            assert(after[t] == before[t]);
        }
    }
}

/// The signal for `frames`. `fps` is the REAL frame rate (30000 / 1001 for drop-frame, not the
/// nominal 30).
pub fn encode_bits_to_samples(
    frames: &[[bool; 80]],
    sample_rate: u32,
    fps: Ratio,
    amplitude: i16,
) -> (out: Vec<i16>)
    requires
        fps.num > 0,
        tick(160 * frames.len() as int, sample_rate, fps) <= usize::MAX,
        frames.len() > 0 ==> amplitude > i16::MIN,
    ensures
        is_signal(out@, all_bits(frames@), sample_rate, fps, amplitude),
{
    let ghost bits = all_bits(frames@);
    let mut out: Vec<i16> = Vec::new();
    let mut level: i16 = amplitude;
    let mut f: usize = 0;
    let mut b: usize = 0;
    let mut j: u128 = 0;
    proof {
        lemma_first_tick(sample_rate, fps);
    }
    while f < frames.len()
        invariant
            f <= frames.len(),
            b < 80,
            j == 2 * (80 * f + b),
            f == frames.len() ==> b == 0,
            bits == all_bits(frames@),
            fps.num > 0,
            tick(160 * frames.len() as int, sample_rate, fps) <= usize::MAX,
            frames.len() > 0 ==> amplitude > i16::MIN,
            level == level_at(bits, amplitude as int, j - 1),
            level == amplitude || level == -amplitude,
            rendered(out@, bits, sample_rate, fps, amplitude, j as int),
        decreases frames.len() - f, 80 - b,
    {
        let bit: bool = frames[f][b];
        proof {
            lemma_tick_monotone(j as int, j + 1, sample_rate, fps);
            lemma_tick_monotone(j + 1, j + 2, sample_rate, fps);
            lemma_tick_monotone(j + 2, 160 * frames.len() as int, sample_rate, fps);
            assert(bits[80 * f + b] == bit);
            law_transitions(bits, amplitude as int, 80 * f + b);
        }
        let mid: usize = tick_of(j + 1, sample_rate, fps);
        let end: usize = tick_of(j + 2, sample_rate, fps);
        level = -level;
        let ghost start = out@;
        hold(&mut out, mid, level);
        proof {
            lemma_rendered_step(start, out@, bits, sample_rate, fps, amplitude, j as int);
        }
        if bit {
            level = -level;
        }
        let ghost half = out@;
        hold(&mut out, end, level);
        proof {
            lemma_rendered_step(half, out@, bits, sample_rate, fps, amplitude, j + 1);
        }
        j += 2;
        b += 1;
        if b == 80 {
            b = 0;
            f += 1;
        }
    }
    out
}

/// Whether the signal for `frames` frames is short enough to be held.
pub fn signal_fits(frames: usize, sample_rate: u32, fps: Ratio) -> (r: bool)
    requires
        fps.num > 0,
    ensures
        r == (tick(160 * frames as int, sample_rate, fps) <= usize::MAX),
{
    let j: u128 = 160 * frames as u128;
    assert(0 <= sample_rate * fps.den <= 0xffff_ffff * 0xffff_ffff) by (nonlinear_arith)
        requires
            sample_rate <= 0xffff_ffff,
            fps.den <= 0xffff_ffff,
    ;
    let x: u128 = sample_rate as u128 * fps.den as u128;
    let n: u128 = fps.num as u128;
    let ghost t = tick(j as int, sample_rate, fps);
    proof {
        lemma_tick_bounds(j as int, sample_rate, fps);
        lemma_tick_monotone(0, j as int, sample_rate, fps);
        assert(t <= usize::MAX ==> 160 * n * t + 160 * n <= 160 * 0xffff_ffff
            * 0x1_0000_0000_0000_0000) by (nonlinear_arith)
            requires
                0 <= t,
                usize::MAX <= 0xffff_ffff_ffff_ffff,
                0 <= n <= 0xffff_ffff,
        ;
    }
    match j.checked_mul(x) {
        None => false,
        Some(v) => match v.checked_add(80 * n) {
            None => false,
            Some(w) => w / (160 * n) <= usize::MAX as u128,
        },
    }
}

/// No drift: however far into the signal, each half bit starts within half a sample of its
/// exact time.
pub proof fn law_no_drift(j: int, sample_rate: u32, fps: Ratio)
    requires
        fps.num > 0,
    ensures
        -80 * fps.num <= 160 * fps.num * tick(j, sample_rate, fps) - j * (sample_rate * fps.den)
            <= 80 * fps.num,
{
    lemma_tick_bounds(j, sample_rate, fps);
}

/// The samples per bit are spread evenly: each bit has the exact number of samples per bit,
/// rounded down or up.
pub proof fn law_bit_widths(k: int, sample_rate: u32, fps: Ratio)
    requires
        fps.num > 0,
    ensures
        ({
            let width = tick(2 * k + 2, sample_rate, fps) - tick(2 * k, sample_rate, fps);
            let exact = sample_rate * fps.den;
            let unit = 80 * fps.num;
            ||| width == exact / (unit as int)
            ||| width == exact / (unit as int) + 1 && exact % (unit as int) != 0
        }),
{
    let x = (sample_rate * fps.den) as int;
    let u = 80 * fps.num as int;
    let a = tick(2 * k, sample_rate, fps);
    let b = tick(2 * k + 2, sample_rate, fps);
    let width = b - a;
    lemma_tick_bounds(2 * k, sample_rate, fps);
    lemma_tick_bounds(2 * k + 2, sample_rate, fps);
    let y = 2 * k * x;
    assert((2 * k + 2) * x == y + 2 * x) by (nonlinear_arith)
        requires
            y == 2 * k * x,
    ;
    assert(u * width == u * b - u * a) by (nonlinear_arith)
        requires
            width == b - a,
    ;
    assert(160 * fps.num * a == 2 * (u * a) && 160 * fps.num * b == 2 * (u * b))
        by (nonlinear_arith)
        requires
            u == 80 * fps.num,
    ;
    assert(x - u < u * width < x + u);
    let q = x / u;
    let r = x % u;
    vstd::arithmetic::div_mod::lemma_fundamental_div_mod(x, u);
    vstd::arithmetic::div_mod::lemma_mod_bound(x, u);
    assert(width >= q && width <= q + 1 && (r == 0 ==> width == q)) by (nonlinear_arith)
        requires
            x == u * q + r,
            0 <= r < u,
            x - u < u * width < x + u,
    ;
}

/// A transition at every bit boundary; a 1 has another in its middle, and a 0 has none.
pub proof fn law_transitions(bits: Seq<bool>, amplitude: int, k: int)
    requires
        0 <= k < bits.len(),
    ensures
        level_at(bits, amplitude, 2 * k) == -level_at(bits, amplitude, 2 * k - 1),
        level_at(bits, amplitude, 2 * k + 1) == if bits[k] {
            -level_at(bits, amplitude, 2 * k)
        } else {
            level_at(bits, amplitude, 2 * k)
        },
{
    assert((2 * k) % 2 == 0 && (2 * k + 1) % 2 == 1 && (2 * k + 1) / 2 == k);
}

// The half bit that sample `t` belongs to.
proof fn lemma_half_bit_of(t: int, n: int, sample_rate: u32, fps: Ratio) -> (j: int)
    requires
        fps.num > 0,
        n >= 0,
        tick(0, sample_rate, fps) <= t < tick(n, sample_rate, fps),
    ensures
        0 <= j < n,
        tick(j, sample_rate, fps) <= t < tick(j + 1, sample_rate, fps),
    decreases n,
{
    if tick(n - 1, sample_rate, fps) <= t {
        n - 1
    } else {
        lemma_half_bit_of(t, n - 1, sample_rate, fps)
    }
}

proof fn lemma_first_tick(sample_rate: u32, fps: Ratio)
    requires
        fps.num > 0,
    ensures
        tick(0, sample_rate, fps) == 0,
{
    let n = fps.num as int;
    vstd::arithmetic::div_mod::lemma_basic_div(80 * n, 160 * n);
    assert(0 * (sample_rate * fps.den) == 0);
}

proof fn lemma_level_of_prefix(bits: Seq<bool>, k: int, amplitude: int, j: int)
    requires
        0 <= k <= bits.len(),
        j < 2 * k,
    ensures
        level_at(bits.take(k), amplitude, j) == level_at(bits, amplitude, j),
    decreases j + 1,
{
    if j >= 0 {
        lemma_level_of_prefix(bits, k, amplitude, j - 1);
    }
}

proof fn lemma_level_negated(bits: Seq<bool>, amplitude: int, j: int)
    ensures
        level_at(bits, -amplitude, j) == -level_at(bits, amplitude, j),
    decreases j + 1,
{
    if j >= 0 {
        lemma_level_negated(bits, amplitude, j - 1);
    }
}

/// No frame's samples depend on later frames: the signal for the first `n` frames is a prefix of
/// the signal for all of them. So there is one signal for given frames, and none of no frames.
pub proof fn law_signal_of_first_frames_is_prefix(
    frames: Seq<[bool; 80]>,
    n: int,
    sample_rate: u32,
    fps: Ratio,
    amplitude: i16,
    first: Seq<i16>,
    all: Seq<i16>,
)
    requires
        fps.num > 0,
        0 <= n <= frames.len(),
        is_signal(first, all_bits(frames.take(n)), sample_rate, fps, amplitude),
        is_signal(all, all_bits(frames), sample_rate, fps, amplitude),
    ensures
        first.is_prefix_of(all),
        n == frames.len() ==> first == all,
        n == 0 ==> first == Seq::<i16>::empty(),
{
    let bits = all_bits(frames);
    assert(all_bits(frames.take(n)) =~= bits.take(80 * n)) by {
        assert forall|i: int| 0 <= i < 80 * n implies all_bits(frames.take(n))[i] == bits[i] by {
            assert(frames.take(n)[i / 80] == frames[i / 80]);
        }
    }
    lemma_first_tick(sample_rate, fps);
    lemma_tick_monotone(160 * n, 160 * frames.len() as int, sample_rate, fps);
    assert forall|t: int| 0 <= t < first.len() implies first[t] == all[t] by {
        let j = lemma_half_bit_of(t, 160 * n, sample_rate, fps);
        assert(first[t] == level_at(bits.take(80 * n), amplitude as int, j));
        assert(all[t] == level_at(bits, amplitude as int, j));
        lemma_level_of_prefix(bits, 80 * n, amplitude as int, j);
    }
    assert(first =~= all.subrange(0, first.len() as int));
}

/// The signal with the negated amplitude is the negated signal.
pub proof fn law_negated_amplitude_negates_signal(
    bits: Seq<bool>,
    sample_rate: u32,
    fps: Ratio,
    amplitude: i16,
    signal: Seq<i16>,
    negated: Seq<i16>,
)
    requires
        fps.num > 0,
        amplitude > i16::MIN,
        is_signal(signal, bits, sample_rate, fps, amplitude),
        is_signal(negated, bits, sample_rate, fps, (-amplitude) as i16),
    ensures
        negated.len() == signal.len(),
        forall|t: int| 0 <= t < signal.len() ==> #[trigger] negated[t] == -signal[t],
{
    let n = 2 * bits.len() as int;
    lemma_first_tick(sample_rate, fps);
    assert forall|t: int| 0 <= t < signal.len() implies #[trigger] negated[t] == -signal[t] by {
        let j = lemma_half_bit_of(t, n, sample_rate, fps);
        assert(signal[t] == level_at(bits, amplitude as int, j));
        assert(negated[t] == level_at(bits, -amplitude, j));
        lemma_level_negated(bits, amplitude as int, j);
    }
}

proof fn lemma_level_after_bits(bits: Seq<bool>, k: int, amplitude: int)
    requires
        0 <= k <= bits.len(),
    ensures
        level_at(bits, amplitude, 2 * k - 1) == if zeros(bits.take(k)) % 2 == 0 {
            amplitude
        } else {
            -amplitude
        },
    decreases k,
{
    if k == 0 {
        assert(bits.take(0).len() == 0);
    } else {
        lemma_level_after_bits(bits, k - 1, amplitude);
        law_transitions(bits, amplitude, k - 1);
        assert(bits.take(k).drop_last() == bits.take(k - 1));
        assert(bits.take(k).last() == bits[k - 1]);
        assert(2 * (k - 1) - 1 == 2 * k - 3 && 2 * (k - 1) + 1 == 2 * k - 1);
    }
}

/// A frame ends at the level at which it started, so that every frame in a signal looks the same:
/// that is what the polarity correction is for.
pub proof fn law_frame_keeps_polarity(tc: Timecode, amplitude: int)
    ensures
        level_at(frame_bits(tc), amplitude, 159) == amplitude,
{
    law_zeros_even(tc);
    let bits = frame_bits(tc);
    lemma_level_after_bits(bits, 80, amplitude);
    assert(bits.take(80) == bits);
}

/// The samples of a signal. Before it the level is `amplitude`. Every sample has that level or its
/// negative. All samples of half a bit are alike; the first half of a bit has the other level than
/// what was before it, and the second half has the other level than the first just where the bit
/// is 1.
pub proof fn law_signal_in_samples(
    bits: Seq<bool>,
    sample_rate: u32,
    fps: Ratio,
    amplitude: i16,
    out: Seq<i16>,
    k: int,
    t: int,
    u: int,
)
    requires
        fps.num > 0,
        is_signal(out, bits, sample_rate, fps, amplitude),
        0 <= k < bits.len(),
        tick(2 * k, sample_rate, fps) <= t < tick(2 * k + 1, sample_rate, fps),
        tick(2 * k + 1, sample_rate, fps) <= u < tick(2 * k + 2, sample_rate, fps),
    ensures
        0 <= t < u < out.len(),
        out.len() == tick(2 * bits.len() as int, sample_rate, fps),
        out[t] == amplitude || out[t] == -amplitude,
        out[u] == if bits[k] {
            -out[t]
        } else {
            out[t] as int
        },
        k == 0 ==> out[t] == -amplitude,
        forall|v: int|
            k > 0 && tick(2 * k - 1, sample_rate, fps) <= v < tick(2 * k, sample_rate, fps)
                ==> #[trigger] out[v] == -out[t],
{
    let a = amplitude as int;
    lemma_first_tick(sample_rate, fps);
    lemma_tick_monotone(0, 2 * k, sample_rate, fps);
    lemma_tick_monotone(2 * k + 2, 2 * bits.len() as int, sample_rate, fps);
    law_transitions(bits, a, k);
    lemma_level_is_amplitude(bits, a, 2 * k);
    assert(out[t] == level_at(bits, a, 2 * k));
    assert(out[u] == level_at(bits, a, 2 * k + 1));
    assert forall|v: int|
        k > 0 && tick(2 * k - 1, sample_rate, fps) <= v < tick(
            2 * k,
            sample_rate,
            fps,
        ) implies #[trigger] out[v] == -out[t] by {
        assert(out[v] == level_at(bits, a, 2 * k - 1));
    }
}

proof fn lemma_level_is_amplitude(bits: Seq<bool>, amplitude: int, j: int)
    ensures
        level_at(bits, amplitude, j) == amplitude || level_at(bits, amplitude, j) == -amplitude,
    decreases j + 1,
{
    if j >= 0 {
        lemma_level_is_amplitude(bits, amplitude, j - 1);
    }
}

/// The signal for `frames` frames lasts as long as they do, to half a sample.
pub proof fn law_signal_lasts_as_long_as_its_frames(
    frames: Seq<[bool; 80]>,
    sample_rate: u32,
    fps: Ratio,
    amplitude: i16,
    out: Seq<i16>,
)
    requires
        fps.num > 0,
        is_signal(out, all_bits(frames), sample_rate, fps, amplitude),
    ensures
        -(fps.num as int) <= 2 * (out.len() * fps.num - frames.len() * (sample_rate * fps.den))
            <= fps.num,
{
    let j = 160 * frames.len() as int;
    law_no_drift(j, sample_rate, fps);
    let x = (sample_rate * fps.den) as int;
    let n = out.len() as int;
    assert(j * x == 160 * (frames.len() * x)) by (nonlinear_arith)
        requires
            j == 160 * frames.len(),
    ;
    assert(160 * fps.num * n == 160 * (n * fps.num)) by (nonlinear_arith);
}

} // verus!
