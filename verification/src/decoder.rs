//! The streaming LTC decoder, from the sign of the audio signal to timecodes: it times the
//! intervals between edges, pairs half bits, shifts the bits into a register of one frame, and
//! gives out a timecode whenever the register ends in the sync word and its fields are in range.
//!
//! The decoder works in step with an analog front end, which slices the samples into signs and
//! tracks the length of a bit: for each sample the front end hands in the sign, and for each
//! interval that ends there whether it is long enough for a whole bit; it gets back how to move
//! its estimate of the bit's length.

use std::collections::VecDeque;
use vstd::prelude::*;

use crate::frame::{
    decode_frame, frame_bits, law_frame_with_user_bits_decodes, timecode_of, Timecode, SYNC,
};

verus! {

/// How many intervals the bit length is first estimated from; less than a frame has.
pub const WARMUP_INTERVALS: usize = 64;

/// How the estimate of the bit length moves.
#[derive(Clone, Copy, Debug, PartialEq, Eq, Structural)]
pub enum Period {
    /// It stays.
    Keep,
    /// It starts at twice the shortest interval that was seen, which is half a bit.
    Seed { shortest: u32 },
    /// It moves toward this interval, which is a whole bit.
    Whole { interval: u32 },
    /// It moves toward the sum of these intervals, which are the halves of a bit.
    Halves { first: u32, second: u32 },
}

/// What came of an interval.
#[derive(Clone, Copy, Debug, PartialEq, Eq, Structural)]
pub struct Step {
    pub period: Period,
    pub timecode: Option<Timecode>,
}

/// The state of a decoder: the sign of the last sample, the number of samples since the last
/// edge, whether there was an edge yet, the first intervals, the first half of a bit that waits
/// for the second, and the last bits.
pub struct State {
    pub last_sign: bool,
    pub since_edge: nat,
    pub seen_edge: bool,
    pub warmup: Seq<u32>,
    pub pending: Option<u32>,
    pub reg: Seq<bool>,
}

/// A decoder before its first sample.
pub open spec fn initial() -> State {
    State {
        last_sign: true,
        since_edge: 0,
        seen_edge: false,
        warmup: Seq::empty(),
        pending: None,
        reg: Seq::empty(),
    }
}

/// The number of samples since the last edge fits its counter, there are no more first intervals
/// than it takes, and no more bits than a frame has.
pub open spec fn is_state(s: State) -> bool {
    s.since_edge <= u32::MAX && s.warmup.len() <= WARMUP_INTERVALS && s.reg.len() <= 80
}

/// The state after a sample with the sign `sign`.
pub open spec fn after_sign(s: State, sign: bool) -> State {
    if sign == s.last_sign {
        State { since_edge: s.since_edge + 1, ..s }
    } else {
        State { last_sign: sign, since_edge: 0, seen_edge: true, ..s }
    }
}

/// The length of the interval that a sample with the sign `sign` ends: none without an edge, nor
/// at the first edge.
pub open spec fn interval_ended(s: State, sign: bool) -> Option<nat> {
    if sign != s.last_sign && s.seen_edge {
        Some(s.since_edge + 1)
    } else {
        None
    }
}

/// The smallest of the numbers.
pub open spec fn shortest(s: Seq<u32>) -> u32
    decreases s.len(),
{
    if s.len() == 0 {
        u32::MAX
    } else {
        let rest = shortest(s.drop_last());
        if s.last() < rest {
            s.last()
        } else {
            rest
        }
    }
}

/// The register after one more bit: the last 80 bits at most.
pub open spec fn shifted(reg: Seq<bool>, bit: bool) -> Seq<bool> {
    if reg.len() < 80 {
        reg.push(bit)
    } else {
        reg.drop_first().push(bit)
    }
}

/// A timecode as it is shown at up to 30 frames a second.
pub open spec fn in_range(tc: Timecode) -> bool {
    tc.hours < 24 && tc.minutes < 60 && tc.seconds < 60 && tc.frames < 30
}

/// The timecode in the register: where it holds 80 bits, ends in the sync word, and has its
/// fields in range.
pub open spec fn frame_in(reg: Seq<bool>) -> Option<Timecode> {
    if reg.len() == 80 && reg.subrange(64, 80) == SYNC@ && in_range(timecode_of(reg)) {
        Some(timecode_of(reg))
    } else {
        None
    }
}

/// The state after an interval of `interval` samples, which is long enough for a whole bit or
/// not. The first intervals only serve to estimate the bit length. After them, a whole bit is a
/// 0 and two halves in a row are a 1.
pub open spec fn after_interval(s: State, interval: u32, whole: bool) -> State {
    if s.warmup.len() < WARMUP_INTERVALS {
        State { warmup: s.warmup.push(interval), ..s }
    } else if whole {
        State { pending: None, reg: shifted(s.reg, false), ..s }
    } else if s.pending is Some {
        State { pending: None, reg: shifted(s.reg, true), ..s }
    } else {
        State { pending: Some(interval), ..s }
    }
}

/// What comes of an interval.
pub open spec fn step_of(s: State, interval: u32, whole: bool) -> Step {
    if s.warmup.len() < WARMUP_INTERVALS {
        Step {
            period: if s.warmup.len() + 1 == WARMUP_INTERVALS {
                Period::Seed { shortest: shortest(s.warmup.push(interval)) }
            } else {
                Period::Keep
            },
            timecode: None,
        }
    } else if whole {
        Step { period: Period::Whole { interval }, timecode: frame_in(shifted(s.reg, false)) }
    } else if let Some(first) = s.pending {
        Step {
            period: Period::Halves { first, second: interval },
            timecode: frame_in(shifted(s.reg, true)),
        }
    } else {
        Step { period: Period::Keep, timecode: None }
    }
}

/// A streaming decoder.
pub struct Decoder {
    last_sign: bool,
    samples_since_edge: u32,
    seen_first_edge: bool,
    warmup: Vec<u32>,
    pending_half: Option<u32>,
    reg: VecDeque<bool>,
}

impl View for Decoder {
    type V = State;

    closed spec fn view(&self) -> State {
        State {
            last_sign: self.last_sign,
            since_edge: self.samples_since_edge as nat,
            seen_edge: self.seen_first_edge,
            warmup: self.warmup@,
            pending: self.pending_half,
            reg: self.reg@,
        }
    }
}

impl Decoder {
    /// The decoder is in a state that it can come to.
    pub open spec fn wf(&self) -> bool {
        is_state(self@)
    }

    /// A decoder before its first sample.
    pub fn new() -> (r: Decoder)
        ensures
            r.wf(),
            r@ == initial(),
    {
        Decoder {
            last_sign: true,
            samples_since_edge: 0,
            seen_first_edge: false,
            warmup: Vec::new(),
            pending_half: None,
            reg: VecDeque::new(),
        }
    }

    /// How many samples there were since the last edge.
    pub fn samples_since_edge(&self) -> (r: u32)
        requires
            self.wf(),
        ensures
            r == self@.since_edge,
    {
        self.samples_since_edge
    }

    /// Takes in the sign of one sample, and gives the length in samples of the interval that
    /// ends there.
    pub fn push_sign(&mut self, sign: bool) -> (r: Option<u32>)
        requires
            old(self).wf(),
            old(self)@.since_edge < u32::MAX,
        ensures
            final(self).wf(),
            final(self)@ == after_sign(old(self)@, sign),
            match r {
                Some(n) => interval_ended(old(self)@, sign) == Some(n as nat),
                None => interval_ended(old(self)@, sign) is None,
            },
    {
        self.samples_since_edge = self.samples_since_edge + 1;
        if sign != self.last_sign {
            self.last_sign = sign;
            let interval: u32 = self.samples_since_edge;
            self.samples_since_edge = 0;
            if self.seen_first_edge {
                return Some(interval);
            }
            self.seen_first_edge = true;
        }
        None
    }

    /// Takes in an interval, of which the front end says whether it is long enough for a whole
    /// bit.
    pub fn on_interval(&mut self, interval: u32, whole: bool) -> (r: Step)
        requires
            old(self).wf(),
        ensures
            final(self).wf(),
            final(self)@ == after_interval(old(self)@, interval, whole),
            r == step_of(old(self)@, interval, whole),
    {
        if self.warmup.len() < WARMUP_INTERVALS {
            self.warmup.push(interval);
            let period: Period = if self.warmup.len() == WARMUP_INTERVALS {
                Period::Seed { shortest: self.shortest_interval() }
            } else {
                Period::Keep
            };
            return Step { period, timecode: None };
        }
        if whole {
            self.pending_half = None;
            let timecode: Option<Timecode> = self.push_bit(false);
            return Step { period: Period::Whole { interval }, timecode };
        }
        match self.pending_half {
            Some(first) => {
                self.pending_half = None;
                let timecode: Option<Timecode> = self.push_bit(true);
                Step { period: Period::Halves { first, second: interval }, timecode }
            },
            None => {
                self.pending_half = Some(interval);
                Step { period: Period::Keep, timecode: None }
            },
        }
    }

    /// The shortest of the first intervals.
    fn shortest_interval(&self) -> (r: u32)
        ensures
            r == shortest(self@.warmup),
    {
        let mut min: u32 = u32::MAX;
        let mut i: usize = 0;
        assert(self.warmup@.take(0).len() == 0);
        while i < self.warmup.len()
            invariant
                i <= self.warmup.len(),
                min == shortest(self.warmup@.take(i as int)),
            decreases self.warmup.len() - i,
        {
            assert(self.warmup@.take(i + 1).drop_last() == self.warmup@.take(i as int));
            if self.warmup[i] < min {
                min = self.warmup[i];
            }
            i += 1;
        }
        assert(self.warmup@.take(i as int) == self.warmup@);
        min
    }

    /// Shifts one bit into the register, and gives out the timecode that is then in it.
    pub fn push_bit(&mut self, bit: bool) -> (r: Option<Timecode>)
        requires
            old(self).wf(),
        ensures
            final(self).wf(),
            final(self)@ == (State { reg: shifted(old(self)@.reg, bit), ..old(self)@ }),
            r == frame_in(shifted(old(self)@.reg, bit)),
    {
        if self.reg.len() >= 80 {
            let _ = self.reg.pop_front();
        }
        self.reg.push_back(bit);
        assert(self.reg@ =~= shifted(old(self)@.reg, bit));
        if self.reg.len() != 80 || !self.ends_in_sync() {
            return None;
        }
        let bits: Vec<bool> = self.register();
        let tc: Timecode = decode_frame(bits.as_slice());
        if tc.hours < 24 && tc.minutes < 60 && tc.seconds < 60 && tc.frames < 30 {
            Some(tc)
        } else {
            None
        }
    }

    /// Whether the register ends in the sync word.
    fn ends_in_sync(&self) -> (r: bool)
        requires
            self@.reg.len() == 80,
        ensures
            r == (self@.reg.subrange(64, 80) == SYNC@),
    {
        let mut i: usize = 64;
        while i < 80
            invariant
                64 <= i <= 80,
                self.reg@.len() == 80,
                forall|j: int| 64 <= j < i ==> #[trigger] self.reg@[j] == SYNC@[j - 64],
            decreases 80 - i,
        {
            if self.reg[i] != SYNC[i - 64] {
                assert(self.reg@.subrange(64, 80)[i - 64] != SYNC@[i - 64]);
                return false;
            }
            i += 1;
        }
        assert(self.reg@.subrange(64, 80) =~= SYNC@);
        true
    }

    /// The bits of the register.
    fn register(&self) -> (bits: Vec<bool>)
        ensures
            bits@ == self@.reg,
    {
        let mut bits: Vec<bool> = Vec::new();
        let mut i: usize = 0;
        while i < self.reg.len()
            invariant
                i <= self.reg@.len(),
                bits@ == self.reg@.take(i as int),
            decreases self.reg@.len() - i,
        {
            bits.push(self.reg[i]);
            i += 1;
        }
        bits
    }
}

/// A bit goes in at the end of the register, and the others move up by one place; of more than 80
/// the oldest goes.
pub proof fn law_register_moves_up(reg: Seq<bool>, bit: bool)
    requires
        reg.len() <= 80,
    ensures
        ({
            let r = shifted(reg, bit);
            &&& r.len() == if reg.len() < 80 {
                reg.len() + 1
            } else {
                80
            }
            &&& r[r.len() - 1] == bit
            &&& forall|k: int|
                1 <= k < r.len() ==> #[trigger] r[r.len() - 1 - k] == reg[reg.len() - k]
        }),
{
}

/// The register after several bits.
pub open spec fn after_bits(reg: Seq<bool>, bits: Seq<bool>) -> Seq<bool>
    decreases bits.len(),
{
    if bits.len() == 0 {
        reg
    } else {
        shifted(after_bits(reg, bits.drop_last()), bits.last())
    }
}

proof fn lemma_after_bits(reg: Seq<bool>, bits: Seq<bool>)
    requires
        reg.len() <= 80,
    ensures
        after_bits(reg, bits) == if reg.len() + bits.len() <= 80 {
            reg + bits
        } else {
            (reg + bits).skip(reg.len() + bits.len() - 80)
        },
    decreases bits.len(),
{
    if bits.len() == 0 {
        assert(reg + bits =~= reg);
        assert((reg + bits).skip(0) =~= reg);
    } else {
        lemma_after_bits(reg, bits.drop_last());
        let all = reg + bits;
        let front = reg + bits.drop_last();
        assert(all =~= front.push(bits.last()));
        if all.len() <= 80 {
            assert(after_bits(reg, bits) =~= all);
        } else {
            assert(after_bits(reg, bits) =~= all.skip(all.len() - 80));
        }
    }
}

/// The register holds the last 80 bits, whatever was in it before.
pub proof fn law_register_holds_the_last_bits(reg: Seq<bool>, bits: Seq<bool>)
    requires
        reg.len() <= 80,
    ensures
        after_bits(reg, bits).len() <= 80,
        bits.len() >= 80 ==> after_bits(reg, bits) == bits.skip(bits.len() - 80),
{
    lemma_after_bits(reg, bits);
    if bits.len() >= 80 {
        assert((reg + bits).skip(reg.len() + bits.len() - 80) =~= bits.skip(bits.len() - 80));
    }
}

/// A timecode comes out just where the last 80 bits end in the sync word 0011 1111 1111 1101 and
/// their time fields are in range; it is the one in those fields.
pub proof fn law_timecode_at_sync(reg: Seq<bool>)
    ensures
        frame_in(reg) is Some <==> {
            &&& reg.len() == 80
            &&& forall|i: int| 64 <= i < 80 ==> #[trigger] reg[i] == (i != 64 && i != 65 && i != 78)
            &&& timecode_of(reg).hours < 24
            &&& timecode_of(reg).minutes < 60
            &&& timecode_of(reg).seconds < 60
            &&& timecode_of(reg).frames < 30
        },
        frame_in(reg) is Some ==> frame_in(reg)->0 == timecode_of(reg),
{
    if reg.len() == 80 {
        let tail = reg.subrange(64, 80);
        if forall|i: int| 64 <= i < 80 ==> #[trigger] reg[i] == (i != 64 && i != 65 && i != 78) {
            assert forall|k: int| 0 <= k < 16 implies tail[k] == SYNC@[k] by {
                assert(tail[k] == reg[64 + k]);
            }
            assert(tail =~= SYNC@);
        }
        if tail == SYNC@ {
            assert forall|i: int| 64 <= i < 80 implies #[trigger] reg[i] == (i != 64 && i != 65 && i
                != 78) by {
                assert(tail[i - 64] == reg[i]);
            }
        }
    }
}

/// A whole frame comes out wherever the decoder was before: a frame with the time fields of `tc`,
/// with any user bits and flags, and with the sync word, gives `tc` at its last bit.
pub proof fn law_frame_comes_out_whatever_was_before(reg: Seq<bool>, bits: Seq<bool>, tc: Timecode)
    requires
        reg.len() <= 80,
        bits.len() == 80,
        tc.hours < 24 && tc.minutes < 60 && tc.seconds < 60 && tc.frames < 30,
        forall|i: int|
            0 <= i <= 3 || 8 <= i <= 10 || 16 <= i <= 19 || 24 <= i <= 26 || 32 <= i <= 35 || 40 <= i
                <= 42 || 48 <= i <= 51 || 56 <= i <= 57 ==> #[trigger] bits[i] == frame_bits(tc)[i],
        forall|i: int| 64 <= i < 80 ==> #[trigger] bits[i] == (i != 64 && i != 65 && i != 78),
    ensures
        frame_in(after_bits(reg, bits)) == Some(tc),
{
    law_register_holds_the_last_bits(reg, bits);
    assert(bits.skip(0) =~= bits);
    law_frame_with_user_bits_decodes(tc, bits);
    law_timecode_at_sync(bits);
}

/// Once the bit length is estimated, an interval of a whole bit is a 0, and two halves in a row are
/// a 1; a half in front of a whole bit is dropped.
pub proof fn law_intervals_are_bits(s: State, a: u32, b: u32)
    requires
        s.warmup.len() == 64,
        s.pending is None,
    ensures
        ({
            let zero = after_interval(s, a, true);
            let half = after_interval(s, a, false);
            let one = after_interval(half, b, false);
            let dropped = after_interval(half, b, true);
            &&& zero.reg == shifted(s.reg, false) && zero.pending is None
            &&& half.reg == s.reg && half.pending == Some(a)
            &&& one.reg == shifted(s.reg, true) && one.pending is None
            &&& dropped.reg == shifted(s.reg, false) && dropped.pending is None
            &&& step_of(s, a, true).timecode == frame_in(zero.reg)
            &&& step_of(s, a, false).timecode is None
            &&& step_of(half, b, false).timecode == frame_in(one.reg)
            &&& step_of(half, b, true).timecode == frame_in(dropped.reg)
            &&& step_of(s, a, true).period == Period::Whole { interval: a }
            &&& step_of(s, a, false).period == Period::Keep
            &&& step_of(half, b, false).period == (Period::Halves { first: a, second: b })
            &&& zero.warmup == s.warmup && one.warmup == s.warmup
        }),
{
}

/// The first 64 intervals give no bits; the last of them makes the shortest of all of them known.
pub proof fn law_first_intervals_are_measured(s: State, a: u32, whole: bool)
    requires
        s.warmup.len() < 64,
    ensures
        ({
            let t = after_interval(s, a, whole);
            let period = step_of(s, a, whole).period;
            &&& t.reg == s.reg && t.pending == s.pending
            &&& t.warmup == s.warmup.push(a)
            &&& step_of(s, a, whole).timecode is None
            &&& s.warmup.len() < 63 ==> period == Period::Keep
            &&& s.warmup.len() == 63 ==> {
                &&& period matches Period::Seed { shortest: m }
                &&& forall|i: int| 0 <= i < 64 ==> m <= #[trigger] t.warmup[i]
                &&& exists|i: int| 0 <= i < 64 && m == #[trigger] t.warmup[i]
            }
        }),
{
    lemma_shortest_is_least(s.warmup.push(a));
}

proof fn lemma_shortest_is_least(s: Seq<u32>)
    requires
        s.len() > 0,
    ensures
        forall|i: int| 0 <= i < s.len() ==> shortest(s) <= #[trigger] s[i],
        exists|i: int| 0 <= i < s.len() && #[trigger] s[i] == shortest(s),
    decreases s.len(),
{
    let rest = s.drop_last();
    assert(s[s.len() - 1] == s.last());
    if rest.len() > 0 {
        lemma_shortest_is_least(rest);
        let m = choose|m: int| 0 <= m < rest.len() && #[trigger] rest[m] == shortest(rest);
        assert(s[m] == shortest(rest));
        assert forall|i: int| 0 <= i < s.len() implies shortest(s) <= #[trigger] s[i] by {
            if i < rest.len() {
                assert(rest[i] == s[i]);
            }
        }
    } else {
        assert(shortest(rest) == u32::MAX);
    }
}

/// The decoder after `n` samples with one sign.
pub open spec fn held(s: State, sign: bool, n: nat) -> State
    decreases n,
{
    if n == 0 {
        s
    } else {
        after_sign(held(s, sign, (n - 1) as nat), sign)
    }
}

/// An interval is as long as the signal keeps its sign: `n` samples of one sign between samples of
/// the other end in an interval of `n`, and none ends between. Before the first edge there is no
/// interval.
pub proof fn law_interval_is_as_long_as_the_sign_is_kept(s: State, n: nat)
    requires
        n > 0,
    ensures
        ({
            let sign = !s.last_sign;
            let h = held(s, sign, n);
            &&& interval_ended(h, !sign) == Some(n)
            &&& interval_ended(h, sign) is None
            &&& h.last_sign == sign && h.seen_edge
            &&& h.reg == s.reg && h.warmup == s.warmup && h.pending == s.pending
            &&& !s.seen_edge ==> interval_ended(s, sign) is None
            &&& s.seen_edge ==> interval_ended(s, sign) == Some(s.since_edge + 1)
        }),
    decreases n,
{
    reveal_with_fuel(held, 2);
    if n > 1 {
        law_interval_is_as_long_as_the_sign_is_kept(s, (n - 1) as nat);
    }
}

/// A new decoder has seen no edge, no interval and no bit.
pub proof fn law_new_decoder_has_seen_nothing()
    ensures
        !initial().seen_edge,
        initial().since_edge == 0,
        initial().last_sign,
        initial().warmup.len() == 0,
        initial().pending is None,
        initial().reg.len() == 0,
{
}

} // verus!
