//! The decoder with its estimate of the bit length: it needs to be told nothing about a signal to
//! give back the timecodes that it was made from.
//!
//! The estimate starts at twice the shortest of the first intervals, which is half a bit, since
//! every frame has a 1 among its first 64 bits. From then on each bit moves it a sixteenth of the
//! way toward its own length. So it stays near the bit length, and three quarters of it tell
//! halves from whole bits.

use vstd::prelude::*;

use super::{
    decoded, flips_before, interval_index, intervals_of, law_decoding_inverts_encoding,
    law_estimate_starts_near, law_threshold_tells_halves_from_wholes, law_tracking_stays_near,
    lemma_edges, lemma_flips_are_intervals, lemma_intervals_of_bit, lemma_level, lemma_tick_strict,
    lemma_widths, near_bit_length, signs_of, with, Run,
};
use crate::biphase::{flips_at, is_signal, level_at, tick};
use crate::decoder::{
    after_interval, after_sign, in_range, initial, interval_ended, shortest, step_of, Period, State,
    WARMUP_INTERVALS,
};
use crate::frame::{bits_of, frame_bits, plain_bit, plain_bits, zeros, Timecode, SYNC};
use crate::rate::Ratio;

verus! {

/// A decoder at work, with its estimate of the bit length, `num / den` samples.
pub struct SelfTimed {
    pub run: Run,
    pub num: int,
    pub den: int,
}

/// The estimate `num / den` after a step: it starts at twice the shortest interval, and then
/// moves a sixteenth of the way toward the length of each bit.
pub open spec fn moved(num: int, den: int, period: Period) -> (int, int) {
    match period {
        Period::Keep => (num, den),
        Period::Seed { shortest } => (2 * shortest, 1),
        Period::Whole { interval } => (15 * num + interval * den, 16 * den),
        Period::Halves { first, second } => (15 * num + (first + second) * den, 16 * den),
    }
}

/// An interval of `n` samples is long enough for a whole bit: at least three quarters of the
/// estimate.
pub open spec fn long_enough(n: nat, num: int, den: int) -> bool {
    4 * n * den >= 3 * num
}

/// A decoder after samples with the signs `signs`, which tells whole bits from halves by its own
/// estimate.
pub open spec fn self_timed(signs: Seq<bool>) -> SelfTimed
    decreases signs.len(),
{
    if signs.len() == 0 {
        SelfTimed {
            run: Run { state: initial(), intervals: 0, out: Seq::empty() },
            num: 0,
            den: 1,
        }
    } else {
        let t = self_timed(signs.drop_last());
        let s = after_sign(t.run.state, signs.last());
        match interval_ended(t.run.state, signs.last()) {
            None => SelfTimed { run: Run { state: s, ..t.run }, ..t },
            Some(n) => {
                let whole = long_enough(n, t.num, t.den);
                let step = step_of(s, n as u32, whole);
                let (num, den) = moved(t.num, t.den, step.period);
                SelfTimed {
                    run: Run {
                        state: after_interval(s, n as u32, whole),
                        intervals: t.run.intervals + 1,
                        out: with(t.run.out, step.timecode),
                    },
                    num,
                    den,
                }
            },
        }
    }
}

spec fn later(r: Run, n: int) -> Run {
    Run { state: State { since_edge: (r.state.since_edge + n) as nat, ..r.state }, ..r }
}

// A stretch of samples whose sign is that of the sample before it only lets time pass.
proof fn lemma_time_passes(signs: Seq<bool>, whole: Seq<bool>, a: int, b: int)
    requires
        0 <= a <= b <= signs.len(),
        self_timed(signs.take(a)).run == decoded(signs.take(a), whole),
        forall|t: int| a <= t < b ==> #[trigger] signs[t] == decoded(
            signs.take(a),
            whole,
        ).state.last_sign,
    ensures
        decoded(signs.take(b), whole) == later(decoded(signs.take(a), whole), b - a),
        self_timed(signs.take(b)) == (SelfTimed {
            run: later(decoded(signs.take(a), whole), b - a),
            ..self_timed(signs.take(a))
        }),
    decreases b - a,
{
    if a < b {
        lemma_time_passes(signs, whole, a, b - 1);
        assert(signs.take(b).drop_last() == signs.take(b - 1));
        assert(signs.take(b).last() == signs[b - 1]);
    }
}

// The half bit before `j` at which the level changed last.
spec fn last_flip(bits: Seq<bool>, j: int) -> int {
    if flips_at(bits, j - 1) {
        j - 1
    } else {
        j - 2
    }
}

// Half bit `j` ends an interval that is a whole bit or half of one, just as `intervals_of` says.
proof fn lemma_interval_at(bits: Seq<bool>, j: int)
    requires
        0 < j < 2 * bits.len(),
        flips_at(bits, j),
    ensures
        last_flip(bits, j) >= 0,
        flips_before(bits, j) > 0,
        flips_before(bits, j) - 1 < intervals_of(bits).len(),
        intervals_of(bits)[flips_before(bits, j) - 1] == (last_flip(bits, j) == j - 2),
        last_flip(bits, j + 1) == j,
{
    let k = j / 2;
    lemma_flips_are_intervals(bits, k);
    if j % 2 == 0 {
        lemma_intervals_of_bit(bits, k - 1);
        assert((j - 1) / 2 == k - 1);
    } else {
        lemma_intervals_of_bit(bits, k);
        assert(flips_at(bits, j - 1));
        assert(flips_before(bits, j) == flips_before(bits, j - 1) + 1);
    }
}

// The number of samples in `w` half bits from half bit `a` on.
spec fn width(a: int, w: int, sample_rate: u32, fps: Ratio) -> int {
    tick(a + w, sample_rate, fps) - tick(a, sample_rate, fps)
}

// `v` samples are what `w` half bits take somewhere.
spec fn is_width(v: u32, w: int, sample_rate: u32, fps: Ratio) -> bool {
    exists|a: int| v == #[trigger] width(a, w, sample_rate, fps)
}

// A bit has at least ten samples, and an interval can be counted.
spec fn countable(sample_rate: u32, fps: Ratio) -> bool {
    &&& fps.num > 0
    &&& 800 * fps.num <= sample_rate * fps.den
    &&& sample_rate * fps.den <= 80 * fps.num * (u32::MAX - 1)
}

proof fn lemma_width_fits(a: int, w: int, sample_rate: u32, fps: Ratio)
    requires
        countable(sample_rate, fps),
        w == 1 || w == 2,
    ensures
        0 < width(a, w, sample_rate, fps) <= u32::MAX,
{
    let x = (sample_rate * fps.den) as int;
    let n = 160 * fps.num as int;
    let v = width(a, w, sample_rate, fps);
    lemma_widths(a, sample_rate, fps);
    assert(0 < n * v < n * u32::MAX + n);
    assert(0 < v <= u32::MAX) by (nonlinear_arith)
        requires
            n > 0,
            0 < n * v < n * u32::MAX + n,
    ;
}

// Every half is shorter than every whole bit.
proof fn lemma_half_is_shorter(h: u32, v: u32, sample_rate: u32, fps: Ratio)
    requires
        countable(sample_rate, fps),
        is_width(h, 1, sample_rate, fps),
        is_width(v, 2, sample_rate, fps),
    ensures
        h < v,
{
    let x = (sample_rate * fps.den) as int;
    let n = 160 * fps.num as int;
    let a = choose|a: int| h == #[trigger] width(a, 1, sample_rate, fps);
    let b = choose|b: int| v == #[trigger] width(b, 2, sample_rate, fps);
    lemma_widths(a, sample_rate, fps);
    lemma_widths(b, sample_rate, fps);
    assert(h < v) by (nonlinear_arith)
        requires
            n * h < x + n,
            2 * x - n < n * v,
            5 * n <= x,
            n > 0,
    ;
}

// The first intervals are as long as they should be.
spec fn warmup_fits(warmup: Seq<u32>, exact: Seq<bool>, sample_rate: u32, fps: Ratio) -> bool {
    forall|i: int|
        0 <= i < warmup.len() ==> is_width(
            #[trigger] warmup[i],
            if exact[i] {
                2
            } else {
                1
            },
            sample_rate,
            fps,
        )
}

// The shortest of the first intervals is a half, where there is one.
proof fn lemma_shortest_is_half(warmup: Seq<u32>, exact: Seq<bool>, sample_rate: u32, fps: Ratio)
    requires
        countable(sample_rate, fps),
        warmup_fits(warmup, exact, sample_rate, fps),
        exists|i: int| 0 <= i < warmup.len() && !#[trigger] exact[i],
    ensures
        is_width(shortest(warmup), 1, sample_rate, fps),
{
    let i = choose|i: int| 0 <= i < warmup.len() && !#[trigger] exact[i];
    lemma_shortest(warmup);
    let m = choose|m: int| 0 <= m < warmup.len() && warmup[m] == shortest(warmup);
    assert(shortest(warmup) <= warmup[i]);
    assert(is_width(warmup[i], 1, sample_rate, fps));
    if exact[m] {
        assert(is_width(warmup[m], 2, sample_rate, fps));
        lemma_half_is_shorter(warmup[i], warmup[m], sample_rate, fps);
    }
}

proof fn lemma_shortest(s: Seq<u32>)
    requires
        s.len() > 0,
    ensures
        forall|i: int| 0 <= i < s.len() ==> shortest(s) <= #[trigger] s[i],
        exists|i: int| 0 <= i < s.len() && #[trigger] s[i] == shortest(s),
    decreases s.len(),
{
    let rest = s.drop_last();
    if rest.len() > 0 {
        lemma_shortest(rest);
        let m = choose|m: int| 0 <= m < rest.len() && #[trigger] rest[m] == shortest(rest);
        assert(s[m] == shortest(rest));
        assert forall|i: int| 0 <= i < s.len() implies shortest(s) <= #[trigger] s[i] by {
            if i < rest.len() {
                assert(rest[i] == s[i]);
            }
        }
    }
    assert(s[s.len() - 1] == s.last());
    assert(rest.len() == 0 ==> shortest(rest) == u32::MAX);
}

proof fn lemma_zeros_of_false(s: Seq<bool>)
    requires
        forall|i: int| 0 <= i < s.len() ==> !#[trigger] s[i],
    ensures
        zeros(s) == s.len(),
    decreases s.len(),
{
    if s.len() > 0 {
        lemma_zeros_of_false(s.drop_last());
    }
}

// The zeros of the last sixteen bits, and those before.
proof fn lemma_zeros_to(s: Seq<bool>, k: int)
    requires
        s.len() == 80,
        64 <= k <= 80,
        forall|i: int| 64 <= i < 80 ==> #[trigger] s[i] == SYNC@[i - 64],
    ensures
        zeros(s.take(k)) == zeros(s.take(64)) + if k == 64 {
            0
        } else if k == 65 {
            1
        } else if k <= 78 {
            2
        } else {
            3int
        },
    decreases k,
{
    if k > 64 {
        lemma_zeros_to(s, k - 1);
        assert(s.take(k).drop_last() == s.take(k - 1));
        assert(s.take(k).last() == SYNC@[k - 1 - 64]);
    }
}

/// Every frame has a 1 among its first 64 bits: where its time fields and its flag have none,
/// the polarity correction puts one there.
pub proof fn law_frame_starts_with_a_one(tc: Timecode)
    ensures
        exists|i: int| 0 <= i < 64 && #[trigger] frame_bits(tc)[i],
{
    let p = plain_bits(tc);
    if forall|i: int| 0 <= i < 64 ==> !#[trigger] p[i] {
        lemma_zeros_of_false(p.take(64));
        lemma_zeros_to(p, 80);
        assert(p.take(80) == p);
        assert(frame_bits(tc)[27]);
    } else {
        let i = choose|i: int| 0 <= i < 64 && #[trigger] p[i];
        if i == 27 {
            assert(!plain_bit(tc, 27));
        }
        assert(frame_bits(tc)[i] == p[i]);
    }
}

proof fn lemma_zeros_are_whole(bits: Seq<bool>, k: int)
    requires
        0 <= k <= 64 <= bits.len(),
        forall|i: int| 0 <= i < 64 ==> #[trigger] intervals_of(bits)[i],
    ensures
        interval_index(bits, k) == k,
        forall|i: int| 0 <= i < k ==> !#[trigger] bits[i],
    decreases k,
{
    if k > 0 {
        lemma_zeros_are_whole(bits, k - 1);
        lemma_intervals_of_bit(bits, k - 1);
        assert(intervals_of(bits)[k - 1]);
    } else {
        assert(bits.take(0).len() == 0);
    }
}

// The first intervals have a half among them.
proof fn lemma_warmup_sees_a_half(tcs: Seq<Timecode>)
    requires
        tcs.len() > 0,
    ensures
        exists|i: int| 0 <= i < 64 && !#[trigger] intervals_of(bits_of(tcs))[i],
{
    let bits = bits_of(tcs);
    if forall|i: int| 0 <= i < 64 ==> #[trigger] intervals_of(bits)[i] {
        lemma_zeros_are_whole(bits, 64);
        law_frame_starts_with_a_one(tcs[0]);
        let i = choose|i: int| 0 <= i < 64 && #[trigger] frame_bits(tcs[0])[i];
        assert(bits[i] == frame_bits(tcs[0])[i]);
    }
}

// A decoder with an estimate that is near, after the half bits before `j`.
spec fn on_track(
    t: SelfTimed,
    bits: Seq<bool>,
    sample_rate: u32,
    fps: Ratio,
    j: int,
) -> bool {
    let s = t.run.state;
    let e = last_flip(bits, j);
    &&& t.den > 0
    &&& s.warmup.len() == if t.run.intervals < WARMUP_INTERVALS {
        t.run.intervals
    } else {
        WARMUP_INTERVALS as nat
    }
    &&& warmup_fits(s.warmup, intervals_of(bits), sample_rate, fps)
    &&& s.warmup.len() == WARMUP_INTERVALS ==> near_bit_length(t.num, t.den, sample_rate, fps)
    &&& j > 0 ==> s.since_edge == tick(j, sample_rate, fps) - tick(e, sample_rate, fps) - 1
    &&& j == 0 ==> s.pending is None
    &&& s.pending matches Some(v) ==> s.warmup.len() == WARMUP_INTERVALS && v == width(
        e - 1,
        1,
        sample_rate,
        fps,
    )
}

// What the decoder makes of the interval that half bit `j` ends.
proof fn lemma_on_track_interval(
    t: SelfTimed,
    tcs: Seq<Timecode>,
    sample_rate: u32,
    fps: Ratio,
    j: int,
    n: nat,
)
    requires
        countable(sample_rate, fps),
        0 < j < 160 * tcs.len(),
        flips_at(bits_of(tcs), j),
        on_track(t, bits_of(tcs), sample_rate, fps, j),
        t.run.intervals == flips_before(bits_of(tcs), j) - 1,
        n == width(
            last_flip(bits_of(tcs), j),
            j - last_flip(bits_of(tcs), j),
            sample_rate,
            fps,
        ),
    ensures
        n <= u32::MAX,
        ({
            let exact = intervals_of(bits_of(tcs))[t.run.intervals as int];
            let s = after_sign(t.run.state, !t.run.state.last_sign);
            let whole = long_enough(n, t.num, t.den);
            let (num, den) = moved(t.num, t.den, step_of(s, n as u32, whole).period);
            let after = after_interval(s, n as u32, whole);
            &&& after == after_interval(s, n as u32, exact)
            &&& step_of(s, n as u32, whole).timecode == step_of(s, n as u32, exact).timecode
            &&& den > 0
            &&& warmup_fits(after.warmup, intervals_of(bits_of(tcs)), sample_rate, fps)
            &&& after.warmup.len() == if t.run.intervals + 1 < WARMUP_INTERVALS {
                t.run.intervals + 1
            } else {
                WARMUP_INTERVALS as nat
            }
            &&& after.warmup.len() == WARMUP_INTERVALS ==> near_bit_length(
                num,
                den,
                sample_rate,
                fps,
            )
            &&& after.pending matches Some(v) ==> after.warmup.len() == WARMUP_INTERVALS && v
                == width(j - 1, 1, sample_rate, fps)
        }),
{
    let bits = bits_of(tcs);
    let c = t.run.intervals as int;
    let e = last_flip(bits, j);
    let exact = intervals_of(bits);
    lemma_interval_at(bits, j);
    lemma_width_fits(e, j - e, sample_rate, fps);
    let s = after_sign(t.run.state, !t.run.state.last_sign);
    if c < WARMUP_INTERVALS {
        let warmup = s.warmup.push(n as u32);
        assert(is_width(n as u32, j - e, sample_rate, fps));
        assert forall|i: int| 0 <= i < warmup.len() implies is_width(
            #[trigger] warmup[i],
            if exact[i] {
                2
            } else {
                1
            },
            sample_rate,
            fps,
        ) by {
            if i < s.warmup.len() {
                assert(warmup[i] == s.warmup[i]);
            }
        }
        if warmup.len() == WARMUP_INTERVALS {
            lemma_warmup_sees_a_half(tcs);
            lemma_shortest_is_half(warmup, exact, sample_rate, fps);
            let a = choose|a: int|
                shortest(warmup) == #[trigger] width(a, 1, sample_rate, fps);
            law_estimate_starts_near(a, sample_rate, fps);
        }
    } else {
        if j - e == 2 {
            law_threshold_tells_halves_from_wholes(e, sample_rate, fps, t.num, t.den);
            law_tracking_stays_near(e, sample_rate, fps, t.num, t.den);
            assert(long_enough(n, t.num, t.den)) by (nonlinear_arith)
                requires
                    4 * (n as int) * t.den >= 3 * t.num,
            ;
        } else {
            law_threshold_tells_halves_from_wholes(e, sample_rate, fps, t.num, t.den);
            law_tracking_stays_near(e - 1, sample_rate, fps, t.num, t.den);
            assert(!long_enough(n, t.num, t.den)) by (nonlinear_arith)
                requires
                    4 * (n as int) * t.den < 3 * t.num,
            ;
        }
    }
}

// The decoder goes through half bit `i`.
proof fn lemma_half_bit(
    signs: Seq<bool>,
    tcs: Seq<Timecode>,
    sample_rate: u32,
    fps: Ratio,
    i: int,
)
    requires
        countable(sample_rate, fps),
        0 <= i < 160 * tcs.len(),
        0 <= tick(i, sample_rate, fps) < tick(i + 1, sample_rate, fps) <= signs.len(),
        ({
            let bits = bits_of(tcs);
            let a = tick(i, sample_rate, fps);
            let x = self_timed(signs.take(a));
            &&& x.run == decoded(signs.take(a), intervals_of(bits))
            &&& on_track(x, bits, sample_rate, fps, i)
            &&& x.run.intervals == if i == 0 {
                0
            } else {
                flips_before(bits, i) - 1
            }
            &&& x.run.state.seen_edge == (i > 0)
            &&& forall|t: int|
                a <= t < tick(i + 1, sample_rate, fps) ==> #[trigger] signs[t] == (
                x.run.state.last_sign != flips_at(bits, i))
        }),
    ensures
        ({
            let bits = bits_of(tcs);
            let b = tick(i + 1, sample_rate, fps);
            let y = self_timed(signs.take(b));
            &&& y.run == decoded(signs.take(b), intervals_of(bits))
            &&& on_track(y, bits, sample_rate, fps, i + 1)
        }),
{
    let bits = bits_of(tcs);
    let exact = intervals_of(bits);
    let a = tick(i, sample_rate, fps);
    let b = tick(i + 1, sample_rate, fps);
    let x = self_timed(signs.take(a));
    if flips_at(bits, i) {
        let e = last_flip(bits, i);
        assert(signs.take(a + 1).drop_last() == signs.take(a));
        assert(signs.take(a + 1).last() == signs[a]);
        assert(signs[a] == !x.run.state.last_sign);
        if i > 0 {
            lemma_interval_at(bits, i);
            lemma_on_track_interval(
                x,
                tcs,
                sample_rate,
                fps,
                i,
                width(e, i - e, sample_rate, fps) as nat,
            );
        }
        lemma_time_passes(signs, exact, a + 1, b);
    } else {
        lemma_time_passes(signs, exact, a, b);
    }
}

// The decoder with its own estimate does what a decoder does that is told what each interval is.
proof fn lemma_on_track(
    signal: Seq<i16>,
    tcs: Seq<Timecode>,
    sample_rate: u32,
    fps: Ratio,
    amplitude: i16,
    j: int,
)
    requires
        is_signal(signal, bits_of(tcs), sample_rate, fps, amplitude),
        amplitude > 0,
        countable(sample_rate, fps),
        0 <= j <= 160 * tcs.len(),
    ensures
        0 <= tick(j, sample_rate, fps) <= signal.len(),
        ({
            let bits = bits_of(tcs);
            let signs = signs_of(signal).take(tick(j, sample_rate, fps));
            &&& self_timed(signs).run == decoded(signs, intervals_of(bits))
            &&& on_track(self_timed(signs), bits, sample_rate, fps, j)
        }),
    decreases j,
{
    let bits = bits_of(tcs);
    let exact = intervals_of(bits);
    let signs = signs_of(signal);
    lemma_edges(signal, bits, sample_rate, fps, amplitude, exact, j);
    if j == 0 {
        assert(tick(0, sample_rate, fps) == 0) by {
            let n = fps.num as int;
            vstd::arithmetic::div_mod::lemma_basic_div(80 * n, 160 * n);
            assert(0 * (sample_rate * fps.den) == 0);
        }
        assert(signs.take(0).len() == 0);
    } else {
        let i = j - 1;
        lemma_on_track(signal, tcs, sample_rate, fps, amplitude, i);
        lemma_edges(signal, bits, sample_rate, fps, amplitude, exact, i);
        lemma_tick_strict(i, sample_rate, fps);
        let a = tick(i, sample_rate, fps);
        let x = self_timed(signs.take(a));
        let level = level_at(bits, amplitude as int, i);
        lemma_level(bits, amplitude as int, i);
        lemma_level(bits, amplitude as int, i - 1);
        assert forall|t: int| a <= t < tick(j, sample_rate, fps) implies #[trigger] signs[t] == (
        x.run.state.last_sign != flips_at(bits, i)) by {
            assert(signal[t] == level);
        }
        lemma_half_bit(signs, tcs, sample_rate, fps, i);
    }
}

/// A decoder after samples with the signs `signs`, which tells whole bits from halves by the
/// estimates that it is handed, `estimates[i]` for interval `i`.
pub open spec fn guided(signs: Seq<bool>, estimates: Seq<(int, int)>) -> Run
    decreases signs.len(),
{
    if signs.len() == 0 {
        Run { state: initial(), intervals: 0, out: Seq::empty() }
    } else {
        let r = guided(signs.drop_last(), estimates);
        let s = after_sign(r.state, signs.last());
        match interval_ended(r.state, signs.last()) {
            None => Run { state: s, ..r },
            Some(n) => {
                let (num, den) = estimates[r.intervals as int];
                let whole = long_enough(n, num, den);
                Run {
                    state: after_interval(s, n as u32, whole),
                    intervals: r.intervals + 1,
                    out: with(r.out, step_of(s, n as u32, whole).timecode),
                }
            },
        }
    }
}

// Behind the first intervals, up to interval `n`, the estimates are near the bit length.
spec fn all_near(estimates: Seq<(int, int)>, n: int, sample_rate: u32, fps: Ratio) -> bool {
    forall|i: int|
        WARMUP_INTERVALS <= i < n ==> (#[trigger] estimates[i]).1 > 0 && near_bit_length(
            estimates[i].0,
            estimates[i].1,
            sample_rate,
            fps,
        )
}

proof fn lemma_flips_increase(bits: Seq<bool>, a: int, b: int)
    requires
        a <= b,
    ensures
        flips_before(bits, a) <= flips_before(bits, b),
    decreases b - a,
{
    if a < b {
        lemma_flips_increase(bits, a, b - 1);
    }
}

// Where half bit `j` ends an interval, another one starts.
proof fn lemma_not_the_last_interval(bits: Seq<bool>, j: int)
    requires
        0 < j < 2 * bits.len(),
        flips_at(bits, j),
    ensures
        flips_before(bits, j) < intervals_of(bits).len(),
{
    let n = bits.len() as int;
    lemma_flips_are_intervals(bits, n);
    assert(bits.take(n) == bits);
    lemma_flips_increase(bits, j + 1, 2 * n);
    assert(flips_before(bits, j + 1) == flips_before(bits, j) + 1);
}

proof fn lemma_guided_time_passes(
    signs: Seq<bool>,
    estimates: Seq<(int, int)>,
    whole: Seq<bool>,
    a: int,
    b: int,
)
    requires
        0 <= a <= b <= signs.len(),
        guided(signs.take(a), estimates) == decoded(signs.take(a), whole),
        forall|t: int| a <= t < b ==> #[trigger] signs[t] == decoded(
            signs.take(a),
            whole,
        ).state.last_sign,
    ensures
        guided(signs.take(b), estimates) == decoded(signs.take(b), whole),
        decoded(signs.take(b), whole) == later(decoded(signs.take(a), whole), b - a),
    decreases b - a,
{
    if a < b {
        lemma_guided_time_passes(signs, estimates, whole, a, b - 1);
        assert(signs.take(b).drop_last() == signs.take(b - 1));
        assert(signs.take(b).last() == signs[b - 1]);
    }
}

// What a decoder with estimates that are near makes of the interval that half bit `j` ends.
proof fn lemma_guided_interval(
    r: Run,
    tcs: Seq<Timecode>,
    num: int,
    den: int,
    sample_rate: u32,
    fps: Ratio,
    j: int,
    n: nat,
)
    requires
        countable(sample_rate, fps),
        0 < j < 160 * tcs.len(),
        flips_at(bits_of(tcs), j),
        r.intervals == flips_before(bits_of(tcs), j) - 1,
        r.state.warmup.len() == if r.intervals < WARMUP_INTERVALS {
            r.intervals
        } else {
            WARMUP_INTERVALS as nat
        },
        r.intervals >= WARMUP_INTERVALS ==> den > 0 && near_bit_length(num, den, sample_rate, fps),
        n == width(
            last_flip(bits_of(tcs), j),
            j - last_flip(bits_of(tcs), j),
            sample_rate,
            fps,
        ),
    ensures
        ({
            let exact = intervals_of(bits_of(tcs))[r.intervals as int];
            let s = after_sign(r.state, !r.state.last_sign);
            let whole = long_enough(n, num, den);
            &&& after_interval(s, n as u32, whole) == after_interval(s, n as u32, exact)
            &&& step_of(s, n as u32, whole) == step_of(s, n as u32, exact)
        }),
{
    let bits = bits_of(tcs);
    let e = last_flip(bits, j);
    lemma_interval_at(bits, j);
    if r.intervals >= WARMUP_INTERVALS {
        law_threshold_tells_halves_from_wholes(e, sample_rate, fps, num, den);
        if j - e == 2 {
            assert(long_enough(n, num, den)) by (nonlinear_arith)
                requires
                    4 * (n as int) * den >= 3 * num,
            ;
        } else {
            assert(!long_enough(n, num, den)) by (nonlinear_arith)
                requires
                    4 * (n as int) * den < 3 * num,
            ;
        }
    }
}

// How far a decoder is that is told what each interval is, after the half bits before `j`.
spec fn in_time(r: Run, bits: Seq<bool>, sample_rate: u32, fps: Ratio, j: int) -> bool {
    &&& r.state.warmup.len() == if r.intervals < WARMUP_INTERVALS {
        r.intervals
    } else {
        WARMUP_INTERVALS as nat
    }
    &&& j > 0 ==> r.state.since_edge == tick(j, sample_rate, fps) - tick(
        last_flip(bits, j),
        sample_rate,
        fps,
    ) - 1
}

proof fn lemma_guided_half_bit(
    signs: Seq<bool>,
    tcs: Seq<Timecode>,
    estimates: Seq<(int, int)>,
    sample_rate: u32,
    fps: Ratio,
    i: int,
)
    requires
        countable(sample_rate, fps),
        all_near(estimates, intervals_of(bits_of(tcs)).len() - 1, sample_rate, fps),
        0 <= i < 160 * tcs.len(),
        0 <= tick(i, sample_rate, fps) < tick(i + 1, sample_rate, fps) <= signs.len(),
        ({
            let bits = bits_of(tcs);
            let a = tick(i, sample_rate, fps);
            let r = decoded(signs.take(a), intervals_of(bits));
            &&& guided(signs.take(a), estimates) == r
            &&& in_time(r, bits, sample_rate, fps, i)
            &&& r.intervals == if i == 0 {
                0
            } else {
                flips_before(bits, i) - 1
            }
            &&& r.state.seen_edge == (i > 0)
            &&& forall|t: int|
                a <= t < tick(i + 1, sample_rate, fps) ==> #[trigger] signs[t] == (
                r.state.last_sign != flips_at(bits, i))
        }),
    ensures
        ({
            let bits = bits_of(tcs);
            let b = tick(i + 1, sample_rate, fps);
            let r = decoded(signs.take(b), intervals_of(bits));
            &&& guided(signs.take(b), estimates) == r
            &&& in_time(r, bits, sample_rate, fps, i + 1)
        }),
{
    let bits = bits_of(tcs);
    let exact = intervals_of(bits);
    let a = tick(i, sample_rate, fps);
    let b = tick(i + 1, sample_rate, fps);
    let r = decoded(signs.take(a), exact);
    if flips_at(bits, i) {
        let e = last_flip(bits, i);
        assert(signs.take(a + 1).drop_last() == signs.take(a));
        assert(signs.take(a + 1).last() == signs[a]);
        assert(signs[a] == !r.state.last_sign);
        if i > 0 {
            lemma_interval_at(bits, i);
            lemma_width_fits(e, i - e, sample_rate, fps);
            lemma_not_the_last_interval(bits, i);
            let (num, den) = estimates[r.intervals as int];
            lemma_guided_interval(
                r,
                tcs,
                num,
                den,
                sample_rate,
                fps,
                i,
                width(e, i - e, sample_rate, fps) as nat,
            );
        }
        lemma_guided_time_passes(signs, estimates, exact, a + 1, b);
    } else {
        lemma_guided_time_passes(signs, estimates, exact, a, b);
    }
}

proof fn lemma_guided(
    signal: Seq<i16>,
    tcs: Seq<Timecode>,
    estimates: Seq<(int, int)>,
    sample_rate: u32,
    fps: Ratio,
    amplitude: i16,
    j: int,
)
    requires
        is_signal(signal, bits_of(tcs), sample_rate, fps, amplitude),
        amplitude > 0,
        countable(sample_rate, fps),
        all_near(estimates, intervals_of(bits_of(tcs)).len() - 1, sample_rate, fps),
        0 <= j <= 160 * tcs.len(),
    ensures
        0 <= tick(j, sample_rate, fps) <= signal.len(),
        ({
            let bits = bits_of(tcs);
            let signs = signs_of(signal).take(tick(j, sample_rate, fps));
            let r = decoded(signs, intervals_of(bits));
            &&& guided(signs, estimates) == r
            &&& in_time(r, bits, sample_rate, fps, j)
        }),
    decreases j,
{
    let bits = bits_of(tcs);
    let exact = intervals_of(bits);
    let signs = signs_of(signal);
    lemma_edges(signal, bits, sample_rate, fps, amplitude, exact, j);
    if j == 0 {
        assert(tick(0, sample_rate, fps) == 0) by {
            let n = fps.num as int;
            vstd::arithmetic::div_mod::lemma_basic_div(80 * n, 160 * n);
            assert(0 * (sample_rate * fps.den) == 0);
        }
        assert(signs.take(0).len() == 0);
    } else {
        let i = j - 1;
        lemma_guided(signal, tcs, estimates, sample_rate, fps, amplitude, i);
        lemma_edges(signal, bits, sample_rate, fps, amplitude, exact, i);
        lemma_tick_strict(i, sample_rate, fps);
        let a = tick(i, sample_rate, fps);
        let r = decoded(signs.take(a), exact);
        let level = level_at(bits, amplitude as int, i);
        lemma_level(bits, amplitude as int, i);
        lemma_level(bits, amplitude as int, i - 1);
        assert forall|t: int| a <= t < tick(j, sample_rate, fps) implies #[trigger] signs[t] == (
        r.state.last_sign != flips_at(bits, i)) by {
            assert(signal[t] == level);
        }
        lemma_guided_half_bit(signs, tcs, estimates, sample_rate, fps, i);
    }
}

/// Decoding undoes encoding, whatever arithmetic the estimate of the bit length is kept in: as
/// long as it stays within a fifth of the bit length once the first intervals are through, the
/// signal for the frames of `tcs` gives out the timecodes of all frames but the first and the
/// last, each once, in order, and nothing else.
pub proof fn law_near_estimates_decode(
    tcs: Seq<Timecode>,
    signal: Seq<i16>,
    estimates: Seq<(int, int)>,
    sample_rate: u32,
    fps: Ratio,
    amplitude: i16,
)
    requires
        forall|i: int| 0 <= i < tcs.len() ==> in_range(#[trigger] tcs[i]),
        fps.num > 0,
        800 * fps.num <= sample_rate * fps.den <= 80 * fps.num * (u32::MAX - 1),
        amplitude > 0,
        is_signal(signal, bits_of(tcs), sample_rate, fps, amplitude),
        forall|i: int|
            WARMUP_INTERVALS <= i < intervals_of(bits_of(tcs)).len() - 1 ==> (
            #[trigger] estimates[i]).1 > 0 && near_bit_length(
                estimates[i].0,
                estimates[i].1,
                sample_rate,
                fps,
            ),
    ensures
        guided(signs_of(signal), estimates).out == if tcs.len() < 2 {
            Seq::empty()
        } else {
            tcs.subrange(1, tcs.len() - 1)
        },
{
    let signs = signs_of(signal);
    lemma_guided(signal, tcs, estimates, sample_rate, fps, amplitude, 160 * tcs.len() as int);
    assert(signs.take(signal.len() as int) == signs);
    law_decoding_inverts_encoding(
        tcs,
        signal,
        sample_rate,
        fps,
        amplitude,
        intervals_of(bits_of(tcs)),
    );
}

/// Decoding undoes encoding. The signal for the frames of `tcs`, at any rate that leaves at least
/// ten samples for a bit, gives out the timecodes of all frames but the first and the last, each
/// once, in order, and nothing else. A bit may have as many samples as can be counted.
pub proof fn law_tracking_decoder_inverts_encoding(
    tcs: Seq<Timecode>,
    signal: Seq<i16>,
    sample_rate: u32,
    fps: Ratio,
    amplitude: i16,
)
    requires
        forall|i: int| 0 <= i < tcs.len() ==> in_range(#[trigger] tcs[i]),
        fps.num > 0,
        800 * fps.num <= sample_rate * fps.den <= 80 * fps.num * (u32::MAX - 1),
        amplitude > 0,
        is_signal(signal, bits_of(tcs), sample_rate, fps, amplitude),
    ensures
        self_timed(signs_of(signal)).run.out == if tcs.len() < 2 {
            Seq::empty()
        } else {
            tcs.subrange(1, tcs.len() - 1)
        },
{
    let signs = signs_of(signal);
    lemma_on_track(signal, tcs, sample_rate, fps, amplitude, 160 * tcs.len() as int);
    assert(signs.take(signal.len() as int) == signs);
    law_decoding_inverts_encoding(
        tcs,
        signal,
        sample_rate,
        fps,
        amplitude,
        intervals_of(bits_of(tcs)),
    );
}

} // verus!
