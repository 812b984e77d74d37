//! What the decoder promises of any signal, noise included: whatever comes out is in range, nothing
//! comes out early, and nothing comes out of a level that does not change.

use vstd::prelude::*;

use super::tracking::{long_enough, self_timed};
use super::{decoded, with, Run};
use crate::decoder::{
    after_interval, after_sign, frame_in, in_range, interval_ended, shifted, step_of,
    WARMUP_INTERVALS,
};
use crate::frame::{Timecode, SYNC};

verus! {

// The number of intervals that it takes at least to shift in the bits: a 0 takes one, a 1 two.
spec fn intervals_for(bits: Seq<bool>) -> nat
    decreases bits.len(),
{
    if bits.len() == 0 {
        0
    } else {
        intervals_for(bits.drop_last()) + (if bits.last() {
            2nat
        } else {
            1nat
        })
    }
}

proof fn lemma_intervals_for_first(bits: Seq<bool>)
    requires
        bits.len() > 0,
    ensures
        intervals_for(bits) == intervals_for(bits.drop_first()) + (if bits[0] {
            2nat
        } else {
            1nat
        }),
    decreases bits.len(),
{
    if bits.len() > 1 {
        lemma_intervals_for_first(bits.drop_last());
        assert(bits.drop_last().drop_first() == bits.drop_first().drop_last());
        assert(bits.drop_first().last() == bits.last());
    } else {
        assert(intervals_for(bits.drop_first()) == 0);
        assert(intervals_for(bits.drop_last()) == 0);
    }
}

proof fn lemma_intervals_for_shifted(reg: Seq<bool>, bit: bool)
    ensures
        intervals_for(shifted(reg, bit)) <= intervals_for(reg) + (if bit {
            2nat
        } else {
            1nat
        }),
{
    if reg.len() < 80 {
        assert(reg.push(bit).drop_last() == reg);
    } else {
        lemma_intervals_for_first(reg);
        assert(reg.drop_first().push(bit).drop_last() == reg.drop_first());
    }
}

proof fn lemma_intervals_for_sync(reg: Seq<bool>, k: int)
    requires
        reg.len() == 80,
        reg.subrange(64, 80) == SYNC@,
        0 <= k <= 80,
    ensures
        intervals_for(reg.take(k)) >= k + if k <= 66 {
            0
        } else if k <= 78 {
            k - 66
        } else if k == 79 {
            12
        } else {
            13
        },
    decreases k,
{
    if k > 0 {
        lemma_intervals_for_sync(reg, k - 1);
        assert(reg.take(k).drop_last() == reg.take(k - 1));
        assert(reg.take(k).last() == reg[k - 1]);
        if k > 64 {
            assert(reg[k - 1] == reg.subrange(64, 80)[k - 1 - 64]);
        }
    }
}

// A frame takes 93 intervals at least.
proof fn lemma_frame_takes_intervals(reg: Seq<bool>)
    requires
        frame_in(reg) is Some,
    ensures
        intervals_for(reg) >= 93,
        in_range(frame_in(reg)->0),
{
    lemma_intervals_for_sync(reg, 80);
    assert(reg.take(80) == reg);
}

// What holds of a decoder after `n` samples, whatever they were.
spec fn is_sound(r: Run, n: nat) -> bool {
    &&& r.intervals + (if r.state.seen_edge {
        1nat
    } else {
        0nat
    }) <= n
    &&& r.intervals > 0 ==> r.state.seen_edge
    &&& r.state.warmup.len() == if r.intervals < WARMUP_INTERVALS {
        r.intervals
    } else {
        WARMUP_INTERVALS as nat
    }
    &&& r.state.warmup.len() + intervals_for(r.state.reg) + (if r.state.pending is Some {
        1nat
    } else {
        0nat
    }) <= r.intervals
    &&& r.intervals < WARMUP_INTERVALS + 93 ==> r.out.len() == 0
    &&& forall|i: int| 0 <= i < r.out.len() ==> in_range(#[trigger] r.out[i])
}

proof fn lemma_sound_interval(r: Run, n: nat, sign: bool, interval: u32, whole: bool)
    requires
        is_sound(r, n),
        interval_ended(r.state, sign) is Some,
    ensures
        ({
            let s = after_sign(r.state, sign);
            is_sound(
                Run {
                    state: after_interval(s, interval, whole),
                    intervals: r.intervals + 1,
                    out: with(r.out, step_of(s, interval, whole).timecode),
                },
                n + 1,
            )
        }),
{
    let s = after_sign(r.state, sign);
    let tc = step_of(s, interval, whole).timecode;
    let bit = !whole;
    lemma_intervals_for_shifted(s.reg, bit);
    if tc is Some {
        lemma_frame_takes_intervals(shifted(s.reg, bit));
    }
}

proof fn lemma_sound(signs: Seq<bool>, whole: Seq<bool>)
    ensures
        is_sound(decoded(signs, whole), signs.len()),
        is_sound(self_timed(signs).run, signs.len()),
    decreases signs.len(),
{
    if signs.len() > 0 {
        let front = signs.drop_last();
        let sign = signs.last();
        lemma_sound(front, whole);
        let r = decoded(front, whole);
        if let Some(n) = interval_ended(r.state, sign) {
            lemma_sound_interval(r, front.len(), sign, n as u32, whole[r.intervals as int]);
        }
        let t = self_timed(front);
        if let Some(n) = interval_ended(t.run.state, sign) {
            lemma_sound_interval(
                t.run,
                front.len(),
                sign,
                n as u32,
                long_enough(n, t.num, t.den),
            );
        }
    }
}

/// Whatever the signs of the samples, and however the intervals between them are told apart, every
/// timecode that comes out is in range.
pub proof fn law_only_what_is_in_range_comes_out(signs: Seq<bool>, whole: Seq<bool>)
    ensures
        forall|i: int|
            0 <= i < decoded(signs, whole).out.len() ==> in_range(
                #[trigger] decoded(signs, whole).out[i],
            ),
        forall|i: int|
            0 <= i < self_timed(signs).run.out.len() ==> in_range(
                #[trigger] self_timed(signs).run.out[i],
            ),
{
    lemma_sound(signs, whole);
}

/// Nothing comes out of the first 157 samples: one for the first edge, 64 intervals to estimate
/// the bit length, and 93 for 80 bits of which the thirteen 1s of the sync word take two each.
pub proof fn law_nothing_comes_out_early(signs: Seq<bool>, whole: Seq<bool>)
    requires
        signs.len() <= 157,
    ensures
        decoded(signs, whole).out == Seq::<Timecode>::empty(),
        self_timed(signs).run.out == Seq::<Timecode>::empty(),
{
    lemma_sound(signs, whole);
}

/// A level that does not change gives nothing.
pub proof fn law_constant_level_gives_nothing(signs: Seq<bool>, whole: Seq<bool>, level: bool)
    requires
        forall|i: int| 0 <= i < signs.len() ==> #[trigger] signs[i] == level,
    ensures
        decoded(signs, whole).out == Seq::<Timecode>::empty(),
        decoded(signs, whole).intervals == 0,
        self_timed(signs).run.out == Seq::<Timecode>::empty(),
        self_timed(signs).run.intervals == 0,
{
    lemma_constant(signs, whole, level);
}

proof fn lemma_constant(signs: Seq<bool>, whole: Seq<bool>, level: bool)
    requires
        forall|i: int| 0 <= i < signs.len() ==> #[trigger] signs[i] == level,
    ensures
        ({
            let r = decoded(signs, whole);
            &&& self_timed(signs).run == r
            &&& r.intervals == 0
            &&& r.out == Seq::<Timecode>::empty()
            &&& if signs.len() == 0 {
                !r.state.seen_edge
            } else {
                r.state.last_sign == level
            }
        }),
    decreases signs.len(),
{
    if signs.len() > 0 {
        assert(signs[signs.len() - 1] == level);
        lemma_constant(signs.drop_last(), whole, level);
    }
}

} // verus!
