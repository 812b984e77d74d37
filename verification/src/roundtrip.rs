//! What encoding and decoding promise together: a signal that was made from a run of timecodes
//! decodes to those timecodes.
//!
//! The first frame is spent on estimating the bit length and on falling into step with the bits,
//! and the last bit has no edge behind it; every frame between comes out, once and in order, and
//! nothing else does.

pub mod noise;
pub mod tracking;

use vstd::prelude::*;

use crate::biphase::{flips_at, is_signal, lemma_tick_bounds, level_at, tick};
use crate::decoder::{
    after_interval, after_sign, frame_in, in_range, initial, interval_ended, shifted, step_of,
    State, WARMUP_INTERVALS,
};
use crate::frame::{
    bits_of, frame_bits, law_decode_inverts_encode, law_frame_ends_in_sync, plain_bit, plain_bits,
    Timecode, SYNC,
};
use crate::rate::Ratio;

verus! {

/// A decoder at work: its state, how many intervals have ended, and the timecodes it gave out.
pub struct Run {
    pub state: State,
    pub intervals: nat,
    pub out: Seq<Timecode>,
}

/// The timecodes with one more, if there is one.
pub open spec fn with(out: Seq<Timecode>, tc: Option<Timecode>) -> Seq<Timecode> {
    match tc {
        Some(t) => out.push(t),
        None => out,
    }
}

/// A decoder after samples with the signs `signs`, where `whole[i]` says of interval `i` whether
/// the front end found it long enough for a whole bit.
pub open spec fn decoded(signs: Seq<bool>, whole: Seq<bool>) -> Run
    decreases signs.len(),
{
    if signs.len() == 0 {
        Run { state: initial(), intervals: 0, out: Seq::empty() }
    } else {
        let r = decoded(signs.drop_last(), whole);
        let s = after_sign(r.state, signs.last());
        match interval_ended(r.state, signs.last()) {
            None => Run { state: s, ..r },
            Some(n) => Run {
                state: after_interval(s, n as u32, whole[r.intervals as int]),
                intervals: r.intervals + 1,
                out: with(r.out, step_of(s, n as u32, whole[r.intervals as int]).timecode),
            },
        }
    }
}

/// The signs of the samples.
pub open spec fn signs_of(signal: Seq<i16>) -> Seq<bool> {
    signal.map_values(|x: i16| x > 0)
}

/// Of each interval in the signal for `bits`, whether it is a whole bit: a 0 is one whole
/// interval, and a 1 is two halves.
pub open spec fn intervals_of(bits: Seq<bool>) -> Seq<bool>
    decreases bits.len(),
{
    if bits.len() == 0 {
        Seq::empty()
    } else {
        intervals_of(bits.drop_last()) + (if bits.last() {
            seq![false, false]
        } else {
            seq![true]
        })
    }
}

// What of a decoder's state decides on the timecodes it gives out: how many of the first
// intervals there were, whether half a bit is waiting, the register, and what was given out.
struct Core {
    warm: nat,
    half: bool,
    reg: Seq<bool>,
    out: Seq<Timecode>,
}

spec fn core_step(c: Core, whole: bool) -> Core {
    if c.warm < WARMUP_INTERVALS {
        Core { warm: c.warm + 1, ..c }
    } else if whole {
        let reg = shifted(c.reg, false);
        Core { half: false, reg, out: with(c.out, frame_in(reg)), ..c }
    } else if c.half {
        let reg = shifted(c.reg, true);
        Core { half: false, reg, out: with(c.out, frame_in(reg)), ..c }
    } else {
        Core { half: true, ..c }
    }
}

spec fn core_run(whole: Seq<bool>, n: nat) -> Core
    decreases n,
{
    if n == 0 {
        Core { warm: 0, half: false, reg: Seq::empty(), out: Seq::empty() }
    } else {
        core_step(core_run(whole, (n - 1) as nat), whole[n - 1])
    }
}

spec fn core_of(r: Run) -> Core {
    Core {
        warm: r.state.warmup.len(),
        half: r.state.pending is Some,
        reg: r.state.reg,
        out: r.out,
    }
}

// The decoder's core depends on the classification of its intervals alone.
proof fn lemma_core(signs: Seq<bool>, whole: Seq<bool>)
    ensures
        core_of(decoded(signs, whole)) == core_run(whole, decoded(signs, whole).intervals),
    decreases signs.len(),
{
    if signs.len() > 0 {
        lemma_core(signs.drop_last(), whole);
    }
}

// A stretch of samples whose sign is that of the sample before it has no edge.
proof fn lemma_stretch(signs: Seq<bool>, whole: Seq<bool>, a: int, b: int)
    requires
        0 <= a <= b <= signs.len(),
        forall|t: int| a <= t < b ==> #[trigger] signs[t] == decoded(
            signs.take(a),
            whole,
        ).state.last_sign,
    ensures
        ({
            let x = decoded(signs.take(a), whole);
            let y = decoded(signs.take(b), whole);
            &&& y.state.last_sign == x.state.last_sign
            &&& y.state.seen_edge == x.state.seen_edge
            &&& y.intervals == x.intervals
        }),
    decreases b - a,
{
    if a < b {
        lemma_stretch(signs, whole, a, b - 1);
        assert(signs.take(b).drop_last() == signs.take(b - 1));
        assert(signs.take(b).last() == signs[b - 1]);
    }
}

// How many level changes there are at the starts of the half bits before `j`.
spec fn flips_before(bits: Seq<bool>, j: int) -> nat
    decreases j,
{
    if j <= 0 {
        0
    } else {
        flips_before(bits, j - 1) + (if flips_at(bits, j - 1) {
            1nat
        } else {
            0nat
        })
    }
}

proof fn lemma_flips_are_intervals(bits: Seq<bool>, k: int)
    requires
        0 <= k <= bits.len(),
    ensures
        flips_before(bits, 2 * k) == intervals_of(bits.take(k)).len(),
    decreases k,
{
    if k > 0 {
        lemma_flips_are_intervals(bits, k - 1);
        assert(bits.take(k).drop_last() == bits.take(k - 1));
        assert((2 * k - 2) % 2 == 0 && (2 * k - 1) % 2 == 1 && (2 * k - 1) / 2 == k - 1);
        assert(flips_before(bits, 2 * k - 1) == flips_before(bits, 2 * k - 2) + 1);
    }
}

proof fn lemma_tick_strict(j: int, sample_rate: u32, fps: Ratio)
    requires
        fps.num > 0,
        160 * fps.num <= sample_rate * fps.den,
        j >= 0,
    ensures
        0 <= tick(j, sample_rate, fps) < tick(j + 1, sample_rate, fps),
{
    let x = (sample_rate * fps.den) as int;
    let n = 160 * fps.num as int;
    let v = j * x + 80 * fps.num;
    assert(j * x >= 0) by (nonlinear_arith)
        requires
            j >= 0,
            x >= 0,
    ;
    assert((j + 1) * x == j * x + x) by (nonlinear_arith);
    vstd::arithmetic::div_mod::lemma_div_pos_is_pos(v, n);
    vstd::arithmetic::div_mod::lemma_div_plus_one(v, n);
    vstd::arithmetic::div_mod::lemma_div_is_ordered(v + n, v + x, n);
}

proof fn lemma_level(bits: Seq<bool>, amplitude: int, j: int)
    requires
        j >= -1,
    ensures
        level_at(bits, amplitude, j) == amplitude || level_at(bits, amplitude, j) == -amplitude,
    decreases j + 1,
{
    if j >= 0 {
        lemma_level(bits, amplitude, j - 1);
    }
}

// After the samples of the half bits before `j`, as many intervals have ended as there were
// level changes, but one.
proof fn lemma_edges(
    signal: Seq<i16>,
    bits: Seq<bool>,
    sample_rate: u32,
    fps: Ratio,
    amplitude: i16,
    whole: Seq<bool>,
    j: int,
)
    requires
        is_signal(signal, bits, sample_rate, fps, amplitude),
        amplitude > 0,
        fps.num > 0,
        160 * fps.num <= sample_rate * fps.den,
        0 <= j <= 2 * bits.len(),
    ensures
        0 <= tick(j, sample_rate, fps) <= signal.len(),
        ({
            let r = decoded(signs_of(signal).take(tick(j, sample_rate, fps)), whole);
            &&& r.state.last_sign == (level_at(bits, amplitude as int, j - 1) > 0)
            &&& r.state.seen_edge == (j > 0)
            &&& r.intervals == if j == 0 {
                0
            } else {
                flips_before(bits, j) - 1
            }
        }),
        j > 0 ==> flips_before(bits, j) > 0,
    decreases j,
{
    let signs = signs_of(signal);
    if j == 0 {
        let n = fps.num as int;
        vstd::arithmetic::div_mod::lemma_basic_div(80 * n, 160 * n);
        assert(0 * (sample_rate * fps.den) == 0);
        lemma_ticks_to_end(0, 2 * bits.len() as int, sample_rate, fps);
        assert(signs.take(0).len() == 0);
    } else {
        let i = j - 1;
        lemma_edges(signal, bits, sample_rate, fps, amplitude, whole, i);
        lemma_tick_strict(i, sample_rate, fps);
        lemma_ticks_to_end(j, 2 * bits.len() as int, sample_rate, fps);
        let a = tick(i, sample_rate, fps);
        let b = tick(j, sample_rate, fps);
        let level = level_at(bits, amplitude as int, i);
        lemma_level(bits, amplitude as int, i);
        lemma_level(bits, amplitude as int, i - 1);
        assert forall|t: int| a <= t < b implies #[trigger] signs[t] == (level > 0) by {
            assert(signal[t] == level_at(bits, amplitude as int, i));
        }
        assert(signs.take(a + 1).drop_last() == signs.take(a));
        assert(signs.take(a + 1).last() == signs[a]);
        let first = decoded(signs.take(a + 1), whole);
        assert(first.state.last_sign == (level > 0));
        lemma_stretch(signs, whole, a + 1, b);
        assert(flips_before(bits, j) == flips_before(bits, i) + (if flips_at(bits, i) {
            1nat
        } else {
            0nat
        }));
    }
}

proof fn lemma_ticks_to_end(a: int, b: int, sample_rate: u32, fps: Ratio)
    requires
        0 <= a <= b,
        fps.num > 0,
        160 * fps.num <= sample_rate * fps.den,
    ensures
        0 <= tick(a, sample_rate, fps) <= tick(b, sample_rate, fps),
    decreases b - a,
{
    lemma_tick_strict(a, sample_rate, fps);
    if a < b {
        lemma_ticks_to_end(a + 1, b, sample_rate, fps);
    }
}

proof fn lemma_core_agrees(a: Seq<bool>, b: Seq<bool>, n: nat)
    requires
        forall|i: int| 0 <= i < n ==> a[i] == b[i],
    ensures
        core_run(a, n) == core_run(b, n),
    decreases n,
{
    if n > 0 {
        lemma_core_agrees(a, b, (n - 1) as nat);
    }
}

// The intervals of the first `k` bits are the first intervals.
proof fn lemma_intervals_prefix(bits: Seq<bool>, k: int)
    requires
        0 <= k <= bits.len(),
    ensures
        intervals_of(bits.take(k)).len() <= intervals_of(bits).len(),
        intervals_of(bits).take(intervals_of(bits.take(k)).len() as int) == intervals_of(
            bits.take(k),
        ),
    decreases bits.len(),
{
    if k == bits.len() {
        assert(bits.take(k) == bits);
        assert(intervals_of(bits).take(intervals_of(bits).len() as int) == intervals_of(bits));
    } else {
        lemma_intervals_prefix(bits.drop_last(), k);
        assert(bits.drop_last().take(k) == bits.take(k));
        let n = intervals_of(bits.take(k)).len() as int;
        assert(intervals_of(bits).take(n) == intervals_of(bits.drop_last()).take(n));
    }
}

// Where the intervals of bit `k` start.
spec fn interval_index(bits: Seq<bool>, k: int) -> nat {
    intervals_of(bits.take(k)).len()
}

proof fn lemma_intervals_of_bit(bits: Seq<bool>, k: int)
    requires
        0 <= k < bits.len(),
    ensures
        interval_index(bits, k + 1) == interval_index(bits, k) + (if bits[k] {
            2nat
        } else {
            1nat
        }),
        interval_index(bits, k + 1) <= intervals_of(bits).len(),
        intervals_of(bits)[interval_index(bits, k) as int] == !bits[k],
        bits[k] ==> !intervals_of(bits)[interval_index(bits, k) as int + 1],
{
    lemma_intervals_prefix(bits, k + 1);
    let some = intervals_of(bits.take(k + 1));
    assert(bits.take(k + 1).drop_last() == bits.take(k));
    let n = interval_index(bits, k) as int;
    assert(intervals_of(bits).take(some.len() as int)[n] == some[n]);
    if bits[k] {
        assert(intervals_of(bits).take(some.len() as int)[n + 1] == some[n + 1]);
    }
}

// A decoder in step with the bits shifts in bit by bit. A 0 also brings it into step.
proof fn lemma_core_bit(bits: Seq<bool>, k: int)
    requires
        0 <= k < bits.len(),
        core_run(intervals_of(bits), interval_index(bits, k)).warm == WARMUP_INTERVALS,
        bits[k] ==> !core_run(intervals_of(bits), interval_index(bits, k)).half,
    ensures
        ({
            let x = core_run(intervals_of(bits), interval_index(bits, k));
            let y = core_run(intervals_of(bits), interval_index(bits, k + 1));
            let reg = shifted(x.reg, bits[k]);
            y == (Core {
                warm: WARMUP_INTERVALS as nat,
                half: false,
                reg,
                out: with(x.out, frame_in(reg)),
            })
        }),
{
    lemma_intervals_of_bit(bits, k);
    let w = intervals_of(bits);
    let n = interval_index(bits, k);
    let x = core_run(w, n);
    let one = core_run(w, n + 1);
    assert(one == core_step(x, w[n as int]));
    if bits[k] {
        assert(core_run(w, n + 2) == core_step(one, w[n as int + 1]));
    }
}

// While the register fills up, nothing comes out.
proof fn lemma_core_start(whole: Seq<bool>, n: nat)
    requires
        n < WARMUP_INTERVALS + 80,
    ensures
        ({
            let c = core_run(whole, n);
            &&& c.warm == if n < WARMUP_INTERVALS {
                n
            } else {
                WARMUP_INTERVALS as nat
            }
            &&& c.reg.len() <= if n < WARMUP_INTERVALS {
                0
            } else {
                n - WARMUP_INTERVALS
            }
            &&& c.out == Seq::<Timecode>::empty()
        }),
    decreases n,
{
    if n > 0 {
        lemma_core_start(whole, (n - 1) as nat);
    }
}

proof fn lemma_interval_index_bounds(bits: Seq<bool>, k: int)
    requires
        0 <= k <= bits.len(),
    ensures
        k <= interval_index(bits, k) <= 2 * k,
        forall|q: int| 0 <= q < k && !bits[q] ==> interval_index(bits, k) < 2 * k,
    decreases k,
{
    if k > 0 {
        lemma_interval_index_bounds(bits, k - 1);
        lemma_intervals_of_bit(bits, k - 1);
    }
}

// The last 80 bits.
spec fn tail80(s: Seq<bool>) -> Seq<bool> {
    if s.len() <= 80 {
        s
    } else {
        s.subrange(s.len() - 80, s.len() as int)
    }
}

proof fn lemma_tail_shifted(s: Seq<bool>, bit: bool)
    ensures
        shifted(tail80(s), bit) == tail80(s.push(bit)),
{
    assert(shifted(tail80(s), bit) =~= tail80(s.push(bit)));
}

proof fn lemma_frame_bit(tcs: Seq<Timecode>, k: int)
    requires
        0 <= k < 80 * tcs.len(),
        k % 80 != 27,
    ensures
        bits_of(tcs)[k] == plain_bit(tcs[k / 80], k % 80),
{
    assert(frame_bits(tcs[k / 80])[k % 80] == plain_bits(tcs[k / 80])[k % 80]);
}

// A bit that is 0 where the sync word would have a 1, if it ended at bit `k` inside a frame.
spec fn zero_before(k: int) -> int {
    let i = k % 80;
    if i <= 11 {
        k - i - 2
    } else if i == 12 {
        k - 5
    } else if i <= 65 {
        let r = (i - 2) % 8;
        if r >= 4 {
            k - 2
        } else {
            k - 3 - r
        }
    } else if i <= 77 {
        k - i + 64
    } else {
        k - i + 65
    }
}

// A bit that is 0 in every frame.
spec fn always_zero(p: int) -> bool {
    (0 <= p < 64 && p % 8 >= 4) || p == 64 || p == 65 || p == 78
}

proof fn lemma_always_zero(tc: Timecode, p: int)
    requires
        always_zero(p),
    ensures
        !plain_bit(tc, p),
        p != 27,
{
}

proof fn lemma_zero_before(k: int)
    requires
        k >= 80,
        k % 80 != 79,
    ensures
        k - 13 <= zero_before(k) <= k - 2,
        always_zero(zero_before(k) % 80),
{
    let q = zero_before(k);
    let i = k % 80;
    let base = k - i;
    if i <= 11 {
        assert(q % 80 == 78);
    } else {
        let p = q - base;
        assert(0 <= p < 80);
        assert(q % 80 == p);
        if 13 <= i && i <= 65 {
            assert(p % 8 >= 4);
        }
    }
}

proof fn lemma_no_false_sync(tcs: Seq<Timecode>, k: int)
    requires
        80 <= k < 80 * tcs.len(),
        k % 80 != 79,
    ensures
        k - 13 <= zero_before(k) <= k - 2,
        !bits_of(tcs)[zero_before(k)],
{
    let q = zero_before(k);
    lemma_zero_before(k);
    lemma_always_zero(tcs[q / 80], q % 80);
    lemma_frame_bit(tcs, q);
}

// The timecodes of the frames that are complete after `k` bits, but the first.
spec fn expected(tcs: Seq<Timecode>, k: int) -> Seq<Timecode> {
    if k < 80 {
        Seq::empty()
    } else {
        tcs.subrange(1, k / 80)
    }
}

// The history `hist` of the register ends in the bits from bit 65 to bit `k`.
spec fn ends_in_bits(hist: Seq<bool>, bits: Seq<bool>, k: int) -> bool {
    &&& k - 65 <= hist.len() <= k - 1
    &&& forall|q: int| 65 <= q < k ==> hist[hist.len() - k + q] == #[trigger] bits[q]
}

proof fn lemma_nothing_inside_frame(
    tcs: Seq<Timecode>,
    k: int,
    hist: Seq<bool>,
)
    requires
        65 < k <= 80 * tcs.len(),
        ends_in_bits(hist, bits_of(tcs), k),
        k <= 80 || k % 80 != 0,
    ensures
        frame_in(tail80(hist)) is None,
{
    let reg = tail80(hist);
    if k > 80 && reg.len() == 80 {
        lemma_no_false_sync(tcs, k - 1);
        let q = zero_before(k - 1);
        let d = k - 1 - q;
        assert(hist[hist.len() - k + q] == bits_of(tcs)[q]);
        assert(reg[79 - d] == hist[hist.len() - 1 - d]);
        assert(reg.subrange(64, 80)[15 - d] == reg[79 - d]);
        assert(SYNC@[15 - d]);
    }
}

proof fn lemma_frame_at_end(tcs: Seq<Timecode>, m: int, hist: Seq<bool>)
    requires
        1 <= m < tcs.len(),
        in_range(tcs[m]),
        ends_in_bits(hist, bits_of(tcs), 80 * m + 80),
    ensures
        frame_in(tail80(hist)) == Some(tcs[m]),
{
    let bits = bits_of(tcs);
    let k = 80 * m + 80;
    let f = frame_bits(tcs[m]);
    let reg = tail80(hist);
    assert(reg.len() == 80);
    assert forall|i: int| 0 <= i < 80 implies #[trigger] reg[i] == f[i] by {
        assert(hist[hist.len() - k + (80 * m + i)] == bits[80 * m + i]);
        assert((80 * m + i) / 80 == m && (80 * m + i) % 80 == i);
    }
    assert(reg =~= f);
    law_frame_ends_in_sync(tcs[m]);
    law_decode_inverts_encode(tcs[m]);
}

proof fn lemma_in_step_at_first(tcs: Seq<Timecode>) -> (hist: Seq<bool>)
    requires
        tcs.len() > 0,
    ensures
        ends_in_bits(hist, bits_of(tcs), 65),
        in_step(tcs, 65, hist),
{
    let bits = bits_of(tcs);
    let w = intervals_of(bits);
    lemma_interval_index_bounds(bits, 64);
    lemma_always_zero(tcs[0], 4);
    lemma_frame_bit(tcs, 4);
    lemma_always_zero(tcs[0], 64);
    lemma_frame_bit(tcs, 64);
    lemma_core_start(w, interval_index(bits, 64));
    lemma_core_bit(bits, 64);
    lemma_intervals_of_bit(bits, 64);
    lemma_core_start(w, interval_index(bits, 65));
    core_run(w, interval_index(bits, 65)).reg
}

// A decoder in step with the bits after `k` of them: the register is the end of what was shifted
// in, and what came out are the frames that are complete, but the first.
spec fn in_step(
    tcs: Seq<Timecode>,
    k: int,
    hist: Seq<bool>,
) -> bool {
    let bits = bits_of(tcs);
    core_run(intervals_of(bits), interval_index(bits, k)) == (Core {
        warm: WARMUP_INTERVALS as nat,
        half: false,
        reg: tail80(hist),
        out: expected(tcs, k),
    })
}

proof fn lemma_in_step(tcs: Seq<Timecode>, k: int) -> (hist: Seq<bool>)
    requires
        forall|i: int| 0 <= i < tcs.len() ==> in_range(#[trigger] tcs[i]),
        tcs.len() > 0,
        65 <= k <= 80 * tcs.len(),
    ensures
        ends_in_bits(hist, bits_of(tcs), k),
        in_step(tcs, k, hist),
    decreases k,
{
    if k == 65 {
        lemma_in_step_at_first(tcs)
    } else {
        let bits = bits_of(tcs);
        let before = lemma_in_step(tcs, k - 1);
        let hist = before.push(bits[k - 1]);
        assert(ends_in_bits(hist, bits, k)) by {
            assert forall|q: int| 65 <= q < k implies hist[hist.len() - k + q] == #[trigger] bits[q] by {
                if q < k - 1 {
                    assert(before[before.len() - (k - 1) + q] == bits[q]);
                }
            }
        }
        lemma_core_bit(bits, k - 1);
        lemma_tail_shifted(before, bits[k - 1]);
        if k > 80 && k % 80 == 0 {
            let m = k / 80 - 1;
            lemma_frame_at_end(tcs, m, hist);
            assert((k - 1) / 80 == m);
            assert(expected(tcs, k) =~= expected(tcs, k - 1).push(tcs[m]));
        } else {
            lemma_nothing_inside_frame(tcs, k, hist);
            assert(expected(tcs, k) =~= expected(tcs, k - 1)) by {
                if k > 80 {
                    assert((k - 1) / 80 == k / 80);
                }
            }
        }
        hist
    }
}

/// Decoding undoes encoding. The signal for the frames of `tcs`, at any rate that leaves at
/// least one sample for half a bit, and with intervals told apart as what they are, gives out
/// the timecodes of all frames but the first and the last, each once, in order, and nothing
/// else.
pub proof fn law_decoding_inverts_encoding(
    tcs: Seq<Timecode>,
    signal: Seq<i16>,
    sample_rate: u32,
    fps: Ratio,
    amplitude: i16,
    whole: Seq<bool>,
)
    requires
        forall|i: int| 0 <= i < tcs.len() ==> in_range(#[trigger] tcs[i]),
        fps.num > 0,
        160 * fps.num <= sample_rate * fps.den,
        amplitude > 0,
        is_signal(signal, bits_of(tcs), sample_rate, fps, amplitude),
        forall|i: int|
            0 <= i < intervals_of(bits_of(tcs)).len() - 1 ==> #[trigger] whole[i]
                == intervals_of(bits_of(tcs))[i],
    ensures
        decoded(signs_of(signal), whole).out == if tcs.len() < 2 {
            Seq::empty()
        } else {
            tcs.subrange(1, tcs.len() - 1)
        },
{
    let bits = bits_of(tcs);
    let signs = signs_of(signal);
    let n = 80 * tcs.len() as int;
    lemma_edges(signal, bits, sample_rate, fps, amplitude, whole, 2 * n);
    assert(signs.take(signal.len() as int) == signs);
    lemma_core(signs, whole);
    if tcs.len() > 0 {
        lemma_flips_are_intervals(bits, n);
        assert(bits.take(n) == bits);
        let w = intervals_of(bits);
        let count = decoded(signs, whole).intervals;
        assert(count == w.len() - 1);
        lemma_core_agrees(whole, w, count);
        let hist = lemma_in_step(tcs, n - 1);
        lemma_frame_bit(tcs, n - 1);
        assert(bits[n - 1]);
        lemma_intervals_of_bit(bits, n - 1);
        assert(count == interval_index(bits, n - 1) + 1);
        assert(core_run(w, count).out == expected(tcs, n - 1));
        assert((n - 1) / 80 == tcs.len() - 1);
        assert(expected(tcs, n - 1) =~= if tcs.len() < 2 {
            Seq::empty()
        } else {
            tcs.subrange(1, tcs.len() - 1)
        });
    }
}

/// `num / den` samples are within a fifth of the length of a bit.
pub open spec fn near_bit_length(num: int, den: int, sample_rate: u32, fps: Ratio) -> bool {
    let estimate = num * (80 * fps.num);
    let exact = (sample_rate * fps.den) * den;
    -exact <= 5 * (estimate - exact) <= exact
}

proof fn lemma_widths(j: int, sample_rate: u32, fps: Ratio)
    requires
        fps.num > 0,
    ensures
        ({
            let x = sample_rate * fps.den;
            let n = 160 * fps.num;
            let half = tick(j + 1, sample_rate, fps) - tick(j, sample_rate, fps);
            let whole = tick(j + 2, sample_rate, fps) - tick(j, sample_rate, fps);
            &&& x - n < n * half < x + n
            &&& 2 * x - n < n * whole < 2 * x + n
        }),
{
    let x = (sample_rate * fps.den) as int;
    let n = 160 * fps.num as int;
    let a = tick(j, sample_rate, fps);
    let b = tick(j + 1, sample_rate, fps);
    let c = tick(j + 2, sample_rate, fps);
    lemma_tick_bounds(j, sample_rate, fps);
    lemma_tick_bounds(j + 1, sample_rate, fps);
    lemma_tick_bounds(j + 2, sample_rate, fps);
    assert((j + 1) * x == j * x + x && (j + 2) * x == j * x + 2 * x) by (nonlinear_arith);
    assert(n * (b - a) == n * b - n * a && n * (c - a) == n * c - n * a) by (nonlinear_arith);
}

/// Three quarters of an estimate that is near the bit length tell halves from whole bits, at ten
/// or more samples per bit: every half is shorter, and every whole bit is as long or longer.
pub proof fn law_threshold_tells_halves_from_wholes(
    j: int,
    sample_rate: u32,
    fps: Ratio,
    num: int,
    den: int,
)
    requires
        fps.num > 0,
        800 * fps.num <= sample_rate * fps.den,
        den > 0,
        near_bit_length(num, den, sample_rate, fps),
    ensures
        4 * (tick(j + 1, sample_rate, fps) - tick(j, sample_rate, fps)) * den < 3 * num,
        4 * (tick(j + 2, sample_rate, fps) - tick(j, sample_rate, fps)) * den >= 3 * num,
{
    let x = (sample_rate * fps.den) as int;
    let n = 80 * fps.num as int;
    let half = tick(j + 1, sample_rate, fps) - tick(j, sample_rate, fps);
    let whole = tick(j + 2, sample_rate, fps) - tick(j, sample_rate, fps);
    lemma_widths(j, sample_rate, fps);
    let a = num * n;
    let b = x * den;
    let u = n * den;
    assert(10 * u <= b) by (nonlinear_arith)
        requires
            10 * n <= x,
            den > 0,
            u == n * den,
            b == x * den,
    ;
    assert((4 * half * den) * n < 2 * b + 4 * u && (4 * whole * den) * n > 4 * b - 4 * u)
        by (nonlinear_arith)
        requires
            2 * n * half < x + 2 * n,
            2 * n * whole > 2 * x - 2 * n,
            den > 0,
            u == n * den,
            b == x * den,
    ;
    assert((3 * num) * n == 3 * a) by (nonlinear_arith)
        requires
            a == num * n,
    ;
    assert((4 * half * den) * n < (3 * num) * n);
    assert((4 * whole * den) * n >= (3 * num) * n);
    assert(4 * half * den < 3 * num && 4 * whole * den >= 3 * num) by (nonlinear_arith)
        requires
            (4 * half * den) * n < (3 * num) * n,
            (4 * whole * den) * n >= (3 * num) * n,
            n > 0,
    ;
}

/// Twice the length of any half bit is near the bit length, at ten or more samples per bit: so
/// the estimate starts near it, whichever half was the shortest.
pub proof fn law_estimate_starts_near(j: int, sample_rate: u32, fps: Ratio)
    requires
        fps.num > 0,
        800 * fps.num <= sample_rate * fps.den,
    ensures
        near_bit_length(
            2 * (tick(j + 1, sample_rate, fps) - tick(j, sample_rate, fps)),
            1,
            sample_rate,
            fps,
        ),
{
    let half = tick(j + 1, sample_rate, fps) - tick(j, sample_rate, fps);
    let n = 80 * fps.num as int;
    lemma_widths(j, sample_rate, fps);
    assert(2 * half * n == 160 * fps.num * half) by (nonlinear_arith)
        requires
            n == 80 * fps.num,
    ;
}

/// Moving the estimate a sixteenth of the way toward the length of a whole bit keeps it near
/// the bit length, at ten or more samples per bit.
pub proof fn law_tracking_stays_near(j: int, sample_rate: u32, fps: Ratio, num: int, den: int)
    requires
        fps.num > 0,
        800 * fps.num <= sample_rate * fps.den,
        den > 0,
        near_bit_length(num, den, sample_rate, fps),
    ensures
        near_bit_length(
            15 * num + (tick(j + 2, sample_rate, fps) - tick(j, sample_rate, fps)) * den,
            16 * den,
            sample_rate,
            fps,
        ),
{
    let whole = tick(j + 2, sample_rate, fps) - tick(j, sample_rate, fps);
    let x = (sample_rate * fps.den) as int;
    let n = 80 * fps.num as int;
    lemma_widths(j, sample_rate, fps);
    let w = whole * n;
    let b = x * den;
    let a = num * n;
    assert(w * 2 == 160 * fps.num * whole) by (nonlinear_arith)
        requires
            w == whole * n,
            n == 80 * fps.num,
    ;
    let d = w * den;
    assert(-b <= 5 * (d - b) <= b) by (nonlinear_arith)
        requires
            x - n < w < x + n,
            10 * n <= x,
            den > 0,
            d == w * den,
            b == x * den,
    ;
    assert((15 * num + whole * den) * n == 15 * a + d) by (nonlinear_arith)
        requires
            a == num * n,
            w == whole * n,
            d == w * den,
    ;
    assert(x * (16 * den) == 16 * b) by (nonlinear_arith)
        requires
            b == x * den,
    ;
}

} // verus!
