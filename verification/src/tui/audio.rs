//! The audio side of the interface: the timecodes that an audio callback hands to the interface
//! through a ring buffer, the level of a block of samples, how a file is laid out for an output
//! device, and which device comes first.

use vstd::prelude::*;

use crate::frame::Timecode;
use crate::text::{decimal, law_decimal_is_read_back, number_value, push_decimal, str_eq};

verus! {

/// `rtrb::Producer`, the writing end of a ring buffer.
#[verifier::external_type_specification]
#[verifier::external_body]
#[verifier::reject_recursive_types(T)]
pub struct ExProducer<T>(rtrb::Producer<T>);

/// `rtrb::Consumer`, the reading end of a ring buffer.
#[verifier::external_type_specification]
#[verifier::external_body]
#[verifier::reject_recursive_types(T)]
pub struct ExConsumer<T>(rtrb::Consumer<T>);

/// The timecodes that a producer has put into its ring buffer so far, oldest first.
pub uninterp spec fn sent(tx: rtrb::Producer<Timecode>) -> Seq<Timecode>;

/// The timecodes that a producer is yet to put into its ring buffer, in order. What they are shows
/// as they are put in.
pub uninterp spec fn to_send(tx: rtrb::Producer<Timecode>) -> Seq<Timecode>;

/// How many timecodes a producer's ring buffer can hold at a time.
pub uninterp spec fn room(tx: rtrb::Producer<Timecode>) -> nat;

/// The timecodes that a consumer has yet to hand out, oldest first: those in its ring buffer,
/// and those that are yet to be put into it.
pub uninterp spec fn pending(rx: rtrb::Consumer<Timecode>) -> Seq<Timecode>;

/// How many timecodes a consumer knows to be in its ring buffer, which is what its `cached_slots`
/// counts. There may be more by now.
pub uninterp spec fn at_hand(rx: rtrb::Consumer<Timecode>) -> nat;

/// `rtrb::RingBuffer::new` makes an empty ring buffer that can hold `capacity` timecodes, of five
/// bytes each, where they fit into memory. What its consumer has yet to hand out is what its
/// producer is yet to put in, in that order.
#[verifier::external_body]
fn new_ring(capacity: usize) -> (r: (rtrb::Producer<Timecode>, rtrb::Consumer<Timecode>))
    requires
        5 * capacity <= isize::MAX,
    ensures
        sent(r.0) == Seq::<Timecode>::empty(),
        room(r.0) == capacity,
        at_hand(r.1) == 0,
        pending(r.1) == to_send(r.0),
{
    rtrb::RingBuffer::<Timecode>::new(capacity)
}

/// `rtrb::Producer::push` puts a timecode into the ring buffer, behind those before it, and says
/// whether it did; a full ring buffer stays as it is. What was put in is the next of what was yet
/// to be put in. The ring buffer is never full before as many timecodes
/// were put in as it can hold. Whether it is full later rests on how many the consumer has taken
/// out by then, so no more is said of that.
#[verifier::external_body]
fn push(tx: &mut rtrb::Producer<Timecode>, tc: Timecode) -> (r: bool)
    ensures
        room(*final(tx)) == room(*old(tx)),
        sent(*final(tx)) == if r {
            sent(*old(tx)).push(tc)
        } else {
            sent(*old(tx))
        },
        to_send(*old(tx)) == if r {
            seq![tc] + to_send(*final(tx))
        } else {
            to_send(*final(tx))
        },
        sent(*old(tx)).len() < room(*old(tx)) ==> r,
{
    tx.push(tc).is_ok()
}

/// `rtrb::Consumer::pop` takes the oldest timecode out of the ring buffer; where it is empty,
/// there is none. While the consumer knows of timecodes that are there, it takes one of those, and
/// knows of one less. When it knows of none it looks anew, and either finds none and knows of none
/// still, or takes one and knows how many it found besides. What it finds rests on how far the
/// producer has come, so nothing is said of that.
#[verifier::external_body]
fn pop(rx: &mut rtrb::Consumer<Timecode>) -> (r: Option<Timecode>)
    ensures
        match r {
            Some(tc) => {
                &&& pending(*old(rx)).len() > 0
                &&& tc == pending(*old(rx)).first()
                &&& pending(*final(rx)) == pending(*old(rx)).drop_first()
            },
            None => pending(*final(rx)) == pending(*old(rx)) && at_hand(*final(rx)) == 0,
        },
        at_hand(*old(rx)) > 0 ==> r is Some && at_hand(*final(rx)) == at_hand(*old(rx)) - 1,
{
    rx.pop().ok()
}

/// The frames that are marked in `taken`.
pub open spec fn kept(frames: Seq<Timecode>, taken: Seq<bool>) -> Seq<Timecode>
    decreases frames.len(),
{
    if frames.len() == 0 {
        Seq::empty()
    } else {
        let before = kept(frames.drop_last(), taken.drop_last());
        if taken.last() {
            before.push(frames.last())
        } else {
            before
        }
    }
}

/// Puts the frames into the ring buffer, in order, and drops those for which there is no room.
/// Those that are kept are the next to come out at the other end. There is room at least for as
/// many as would have filled the ring buffer, had nothing been taken out of it.
pub fn offer(tx: &mut rtrb::Producer<Timecode>, frames: &[Timecode])
    ensures
        room(*final(tx)) == room(*old(tx)),
        exists|taken: Seq<bool>|
            taken.len() == frames.len() && sent(*final(tx)) == sent(*old(tx)) + #[trigger] kept(
                frames@,
                taken,
            ) && to_send(*old(tx)) == kept(frames@, taken) + to_send(*final(tx)) && forall|i: int|
                0 <= i < frames.len() && sent(*old(tx)).len() + i < room(*old(tx))
                    ==> #[trigger] taken[i],
        sent(*old(tx)).len() + frames.len() <= room(*old(tx)) ==> sent(*final(tx)) == sent(*old(tx))
            + frames@ && to_send(*old(tx)) == frames@ + to_send(*final(tx)),
{
    let mut i: usize = 0;
    let ghost mut taken: Seq<bool> = Seq::empty();
    let ghost before = sent(*tx);
    assert(kept(frames@.take(0), taken) == Seq::<Timecode>::empty());
    while i < frames.len()
        invariant
            i <= frames.len(),
            taken.len() == i,
            room(*tx) == room(*old(tx)),
            before == sent(*old(tx)),
            sent(*tx) == before + kept(frames@.take(i as int), taken),
            to_send(*old(tx)) == kept(frames@.take(i as int), taken) + to_send(*tx),
            sent(*tx).len() <= before.len() + i,
            forall|k: int|
                0 <= k < i && before.len() + k < room(*tx) ==> #[trigger] taken[k],
            before.len() + frames.len() <= room(*tx) ==> sent(*tx) == before + frames@.take(i as int)
                && to_send(*old(tx)) == frames@.take(i as int) + to_send(*tx),
        decreases frames.len() - i,
    {
        let r: bool = push(tx, frames[i]);
        proof {
            assert(frames@.take(i + 1).drop_last() == frames@.take(i as int));
            assert(taken.push(r).drop_last() == taken);
            taken = taken.push(r);
        }
        i += 1;
    }
    assert(frames@.take(i as int) == frames@);
}

/// The reading end of the ring buffer, and how many timecodes have come out of it.
pub struct FrameFeed {
    rx: rtrb::Consumer<Timecode>,
    frames: usize,
}

/// A ring buffer for `capacity` timecodes. What comes out of the feed is what is put in at the
/// other end, in that order.
pub fn feed(capacity: usize) -> (r: (rtrb::Producer<Timecode>, FrameFeed))
    requires
        5 * capacity <= isize::MAX,
    ensures
        sent(r.0) == Seq::<Timecode>::empty(),
        room(r.0) == capacity,
        r.1.count() == 0,
        r.1.known() == 0,
        r.1.to_come() == to_send(r.0),
{
    let (tx, rx) = new_ring(capacity);
    (tx, FrameFeed { rx, frames: 0 })
}

impl FrameFeed {
    /// The timecodes that are yet to come out.
    pub closed spec fn to_come(&self) -> Seq<Timecode> {
        pending(self.rx)
    }

    /// How many of them are known to be there already.
    pub closed spec fn known(&self) -> nat {
        at_hand(self.rx)
    }

    /// How many timecodes have come out.
    pub closed spec fn count(&self) -> nat {
        self.frames as nat
    }

    /// Takes out the timecodes that are there, `limit` at most, without counting them. It takes
    /// those that are known to be there, and goes on until it has `limit` or none is found. How
    /// many are found besides rests on how far the producer has come.
    pub fn drain(&mut self, limit: usize) -> (popped: Vec<Timecode>)
        ensures
            popped.len() <= limit,
            popped.len() <= old(self).to_come().len(),
            popped@ == old(self).to_come().take(popped.len() as int),
            final(self).to_come() == old(self).to_come().skip(popped.len() as int),
            final(self).count() == old(self).count(),
            limit <= old(self).known() ==> popped.len() == limit && final(self).known()
                == old(self).known() - limit,
            limit > old(self).known() ==> popped.len() >= old(self).known() && (popped.len() == limit
                || final(self).known() == 0),
    {
        let mut popped: Vec<Timecode> = Vec::new();
        let ghost all = self.to_come();
        assert(all.skip(0) == all);
        while popped.len() < limit
            invariant
                popped.len() <= limit,
                popped.len() <= all.len(),
                all == old(self).to_come(),
                popped@ == all.take(popped.len() as int),
                self.to_come() == all.skip(popped.len() as int),
                self.count() == old(self).count(),
                popped.len() <= old(self).known() ==> self.known() == old(self).known()
                    - popped.len(),
            decreases limit - popped.len(),
        {
            match pop(&mut self.rx) {
                Some(tc) => {
                    assert(all.skip(popped.len() as int).drop_first() == all.skip(popped.len() + 1));
                    popped.push(tc);
                },
                None => {
                    return popped;
                },
            }
        }
        popped
    }

    /// Counts the timecodes that came out, and gives the last.
    pub fn absorb(&mut self, popped: &[Timecode]) -> (latest: Option<Timecode>)
        requires
            old(self).count() + popped.len() <= usize::MAX,
        ensures
            latest == if popped.len() > 0 {
                Some(popped@.last())
            } else {
                None
            },
            final(self).count() == old(self).count() + popped.len(),
            final(self).to_come() == old(self).to_come(),
            final(self).known() == old(self).known(),
    {
        self.frames = self.frames + popped.len();
        if popped.len() > 0 {
            Some(popped[popped.len() - 1])
        } else {
            None
        }
    }

    /// Takes out the timecodes that are there, and gives the last. It takes those that are known
    /// to be there, and goes on until none is found, or the count is full. How many are found
    /// besides rests on how far the producer has come.
    pub fn poll(&mut self) -> (latest: Option<Timecode>)
        ensures
            old(self).count() <= final(self).count(),
            ({
                let n = final(self).count() - old(self).count();
                &&& n <= old(self).to_come().len()
                &&& final(self).to_come() == old(self).to_come().skip(n)
                &&& latest == if n > 0 {
                    Some(old(self).to_come()[n - 1])
                } else {
                    None
                }
                &&& final(self).count() < usize::MAX ==> n >= old(self).known()
                    && final(self).known() == 0
                &&& final(self).count() == usize::MAX && n <= old(self).known()
                    ==> final(self).known() == old(self).known() - n
            }),
    {
        let limit: usize = usize::MAX - self.frames;
        let popped: Vec<Timecode> = self.drain(limit);
        self.absorb(popped.as_slice())
    }

    /// How many timecodes have come out.
    pub fn frames(&self) -> (r: usize)
        ensures
            r == self.count(),
    {
        self.frames
    }
}

/// The two ends of a ring buffer, through which `put` went in and out of which `out` came: what
/// was put in, and then what is yet to be put in, is what came out, and then what is yet to come.
/// So it is in a new ring buffer, with nothing in and nothing out; whatever is offered at one end
/// and taken out at the other keeps it so.
pub open spec fn are_ends(
    tx: rtrb::Producer<Timecode>,
    rx: FrameFeed,
    put: Seq<Timecode>,
    out: Seq<Timecode>,
) -> bool {
    put + to_send(tx) == out + rx.to_come()
}

/// What comes out of the feed is what was put in at the other end, in that order: what has come out
/// so far are the first that were put in, and the others are the next to come.
pub proof fn law_feed_keeps_order(
    tx: rtrb::Producer<Timecode>,
    rx: FrameFeed,
    put: Seq<Timecode>,
    out: Seq<Timecode>,
)
    requires
        are_ends(tx, rx, put, out),
        out.len() <= put.len(),
    ensures
        out == put.take(out.len() as int),
        rx.to_come() == put.skip(out.len() as int) + to_send(tx),
{
    let n = out.len() as int;
    let all = put + to_send(tx);
    assert(out =~= all.take(n));
    assert(put.take(n) =~= all.take(n));
    assert(rx.to_come() =~= all.skip(n));
    assert(put.skip(n) + to_send(tx) =~= all.skip(n));
}

/// The ends stay the ends of one ring buffer when `more` is put in at one, and when `more` comes out
/// at the other.
pub proof fn law_ends_stay_ends(
    tx: rtrb::Producer<Timecode>,
    next_tx: rtrb::Producer<Timecode>,
    rx: FrameFeed,
    next_rx: FrameFeed,
    put: Seq<Timecode>,
    out: Seq<Timecode>,
    more: Seq<Timecode>,
)
    requires
        are_ends(tx, rx, put, out),
    ensures
        to_send(tx) == more + to_send(next_tx) ==> are_ends(next_tx, rx, put + more, out),
        rx.to_come() == more + next_rx.to_come() ==> are_ends(tx, next_rx, put, out + more),
{
    assert(put + (more + to_send(next_tx)) =~= (put + more) + to_send(next_tx));
    assert(out + (more + next_rx.to_come()) =~= (out + more) + next_rx.to_come());
}

/// The magnitude of a sample.
pub open spec fn magnitude(s: i16) -> int {
    if s < 0 {
        -s
    } else {
        s as int
    }
}

/// The largest magnitude in a block of samples; 0 where it is empty.
pub fn block_peak(block: &[i16]) -> (peak: u32)
    ensures
        forall|i: int| 0 <= i < block.len() ==> magnitude(#[trigger] block@[i]) <= peak,
        peak == 0 || exists|i: int| 0 <= i < block.len() && magnitude(#[trigger] block@[i]) == peak,
{
    let mut peak: u32 = 0;
    let mut i: usize = 0;
    while i < block.len()
        invariant
            i <= block.len(),
            forall|j: int| 0 <= j < i ==> magnitude(#[trigger] block@[j]) <= peak,
            peak == 0 || exists|j: int|
                0 <= j < block.len() && magnitude(#[trigger] block@[j]) == peak,
        decreases block.len() - i,
    {
        let s: i16 = block[i];
        let m: u32 = if s < 0 {
            (-(s as i32)) as u32
        } else {
            s as u32
        };
        assert(m == magnitude(block@[i as int]));
        if m > peak {
            peak = m;
        }
        i += 1;
    }
    peak
}

/// A range of sample rates that an output device offers with a number of channels.
#[derive(Clone, Copy, Debug, PartialEq, Eq, Structural)]
pub struct RateRange {
    pub channels: u16,
    pub min: u32,
    pub max: u32,
}

/// The device offers `rate` with `channels` channels.
pub open spec fn offers(ranges: Seq<RateRange>, channels: u16, rate: u32) -> bool {
    exists|i: int|
        0 <= i < ranges.len() && (#[trigger] ranges[i]).channels == channels && ranges[i].min <= rate
            <= ranges[i].max
}

/// What is said where a file is played at another rate than its own.
pub open spec fn rate_note(device_rate: u32, file_rate: u32) -> Seq<char> {
    "device rate "@ + decimal(device_rate as nat) + " Hz != file "@ + decimal(file_rate as nat)
        + " Hz; pitch/speed differ"@
}

/// The sample rate to play a file at: its own where the device offers it, so that timecode rolls
/// at its true speed; else the device's, with a note.
pub fn output_rate(
    ranges: &[RateRange],
    channels: u16,
    device_rate: u32,
    file_rate: u32,
) -> (r: (u32, Option<String>))
    ensures
        if offers(ranges@, channels, file_rate) {
            r.0 == file_rate && r.1 is None
        } else {
            &&& r.0 == device_rate
            &&& r.1 matches Some(note)
            &&& note@ == rate_note(device_rate, file_rate)
        },
{
    let mut i: usize = 0;
    while i < ranges.len()
        invariant
            i <= ranges.len(),
            forall|j: int|
                0 <= j < i ==> !((#[trigger] ranges@[j]).channels == channels && ranges@[j].min
                    <= file_rate <= ranges@[j].max),
        decreases ranges.len() - i,
    {
        let range: RateRange = ranges[i];
        if range.channels == channels && range.min <= file_rate && file_rate <= range.max {
            assert(ranges@[i as int] == range);
            return (file_rate, None);
        }
        i += 1;
    }
    let mut m: String = "device rate ".to_owned();
    push_decimal(&mut m, device_rate as u64);
    m.append(" Hz != file ");
    push_decimal(&mut m, file_rate as u64);
    m.append(" Hz; pitch/speed differ");
    (device_rate, Some(m))
}

/// The sample that is played `k` frames behind `pos`: silence while paused, and past the end.
pub open spec fn played(src: Seq<i16>, pos: nat, on: bool, k: nat) -> i16 {
    if on && pos + k < src.len() {
        src[(pos + k) as int]
    } else {
        0
    }
}

/// Where playing is after `frames` more frames.
pub open spec fn played_to(src: Seq<i16>, pos: nat, on: bool, frames: nat) -> nat {
    if !on || pos >= src.len() {
        pos
    } else if pos + frames < src.len() {
        pos + frames
    } else {
        src.len()
    }
}

/// How many frames of `channels` samples it takes to fill `len` samples, the last in part.
pub open spec fn frames_in(len: nat, channels: nat) -> nat {
    (len + channels - 1) as nat / channels
}

/// Fills a block for an output device with `channels` channels: frame after frame from `pos` on,
/// each sample in every channel. Gives the position behind.
pub fn fill_output(
    out: &mut [i16],
    channels: usize,
    src: &[i16],
    pos: usize,
    on: bool,
) -> (end: usize)
    requires
        channels > 0,
    ensures
        final(out)@.len() == old(out)@.len(),
        forall|j: int|
            0 <= j < old(out)@.len() ==> #[trigger] final(out)@[j] == played(
                src@,
                pos as nat,
                on,
                (j / channels as int) as nat,
            ),
        forall|j: int|
            0 <= j < old(out)@.len() ==> #[trigger] final(out)@[j] == if on && pos + (j / (
            channels as int)) < src@.len() {
                src@[pos + (j / (channels as int))]
            } else {
                0
            },
        end == played_to(src@, pos as nat, on, frames_in(old(out)@.len(), channels as nat)),
{
    let n: usize = out.len();
    let mut p: usize = pos;
    let mut s: i16 = 0;
    let mut c: usize = 0;
    let mut j: usize = 0;
    // The number of frames that have begun, and that of the frame in hand.
    let ghost mut begun: nat = 0;
    let ghost mut k: int = -1;
    while j < n
        invariant
            channels > 0,
            j <= n,
            n == out@.len(),
            n == old(out)@.len(),
            c < channels,
            c > 0 ==> j == k * channels + c && begun == k + 1 && k >= 0,
            c == 0 ==> j == begun * channels,
            c > 0 ==> s == played(src@, pos as nat, on, k as nat),
            p == played_to(src@, pos as nat, on, begun),
            forall|i: int|
                0 <= i < j ==> #[trigger] out@[i] == played(
                    src@,
                    pos as nat,
                    on,
                    (i / channels as int) as nat,
                ),
        decreases n - j,
    {
        if c == 0 {
            if on && p < src.len() {
                s = src[p];
                p += 1;
            } else {
                s = 0;
            }
            proof {
                k = begun as int;
                begun = begun + 1;
            }
        }
        proof {
            vstd::arithmetic::div_mod::lemma_fundamental_div_mod_converse(
                j as int,
                channels as int,
                k,
                c as int,
            );
        }
        out[j] = s;
        j += 1;
        c += 1;
        if c == channels {
            c = 0;
            assert(k * channels + channels == (k + 1) * channels) by (nonlinear_arith);
        }
    }
    proof {
        let ch = channels as int;
        if c == 0 {
            assert(n + ch - 1 == begun * ch + (ch - 1));
            vstd::arithmetic::div_mod::lemma_fundamental_div_mod_converse(
                n + ch - 1,
                ch,
                begun as int,
                ch - 1,
            );
        } else {
            assert((k + 1) * ch == k * ch + ch) by (nonlinear_arith);
            vstd::arithmetic::div_mod::lemma_fundamental_div_mod_converse(
                n + ch - 1,
                ch,
                begun as int,
                c - 1,
            );
        }
    }
    p
}

/// However a file is cut into blocks, it is played on without a gap: what comes `k` frames into the
/// next block is what comes `n + k` frames behind the start of a block of `n`. While it is paused,
/// playing does not go on.
pub proof fn law_blocks_join(src: Seq<i16>, pos: nat, n: nat, k: nat)
    requires
        pos <= src.len(),
    ensures
        played(src, played_to(src, pos, true, n), true, k) == played(src, pos, true, n + k),
        played_to(src, played_to(src, pos, true, n), true, k) == played_to(src, pos, true, n + k),
        played_to(src, pos, false, n) == pos,
        played(src, pos, false, k) == 0,
{
}

/// Where the device with the name `default` stands in the list, which is where to swap it with
/// the first, so that it is preselected.
pub fn default_position(names: &[String], default: Option<&str>) -> (r: Option<usize>)
    ensures
        match r {
            Some(i) => {
                &&& default is Some
                &&& i < names.len()
                &&& names@[i as int]@ == default->0@
                &&& forall|j: int| 0 <= j < i ==> (#[trigger] names@[j])@ != default->0@
            },
            None => default is Some ==> forall|j: int|
                0 <= j < names.len() ==> (#[trigger] names@[j])@ != default->0@,
        },
{
    let name: &str = match default {
        Some(name) => name,
        None => return None,
    };
    let mut i: usize = 0;
    while i < names.len()
        invariant
            i <= names.len(),
            default == Some(name),
            forall|j: int| 0 <= j < i ==> (#[trigger] names@[j])@ != name@,
        decreases names.len() - i,
    {
        if str_eq(names[i].as_str(), name) {
            return Some(i);
        }
        i += 1;
    }
    None
}

/// What is played is the file itself: while it plays, what comes `k` frames behind `pos` is the
/// file's own sample at `pos + k`, and silence where there is none; while it is paused, silence.
pub proof fn law_the_file_is_played(src: Seq<i16>, pos: nat, on: bool, k: nat)
    ensures
        on && pos + k < src.len() ==> played(src, pos, on, k) == src[(pos + k) as int],
        !on || pos + k >= src.len() ==> played(src, pos, on, k) == 0,
{
}

/// What is played in blocks of so many frames each, from `pos` on.
pub open spec fn playback(src: Seq<i16>, pos: nat, blocks: Seq<nat>) -> Seq<i16>
    decreases blocks.len(),
{
    if blocks.len() == 0 {
        Seq::empty()
    } else {
        let n = blocks[0];
        Seq::new(n, |k: int| played(src, pos, true, k as nat)) + playback(
            src,
            played_to(src, pos, true, n),
            blocks.drop_first(),
        )
    }
}

/// How many frames the blocks have together.
pub open spec fn frames_of(blocks: Seq<nat>) -> nat
    decreases blocks.len(),
{
    if blocks.len() == 0 {
        0
    } else {
        blocks[0] + frames_of(blocks.drop_first())
    }
}

/// The blocks of a playback, joined, are the file from where it started, and silence behind its
/// end, however it is cut into blocks.
pub proof fn law_playback_is_the_file(src: Seq<i16>, pos: nat, blocks: Seq<nat>)
    requires
        pos <= src.len(),
    ensures
        playback(src, pos, blocks).len() == frames_of(blocks),
        forall|k: int|
            0 <= k < frames_of(blocks) ==> #[trigger] playback(src, pos, blocks)[k] == if pos + k
                < src.len() {
                src[pos + k]
            } else {
                0
            },
        pos == 0 && frames_of(blocks) >= src.len() ==> playback(src, pos, blocks).take(
            src.len() as int,
        ) == src,
    decreases blocks.len(),
{
    if blocks.len() > 0 {
        let n = blocks[0];
        let next = played_to(src, pos, true, n);
        let first = Seq::new(n, |k: int| played(src, pos, true, k as nat));
        let rest = playback(src, next, blocks.drop_first());
        law_playback_is_the_file(src, next, blocks.drop_first());
        assert(playback(src, pos, blocks) == first + rest);
        assert forall|k: int| 0 <= k < frames_of(blocks) implies #[trigger] playback(
            src,
            pos,
            blocks,
        )[k] == if pos + k < src.len() {
            src[pos + k]
        } else {
            0
        } by {
            if k < n {
                assert((first + rest)[k] == first[k]);
            } else {
                assert((first + rest)[k] == rest[k - n]);
            }
        }
    }
    if pos == 0 && frames_of(blocks) >= src.len() {
        assert(playback(src, pos, blocks).take(src.len() as int) =~= src);
    }
}

/// A block has as many frames as it takes to fill it, and no more: all but the last have a sample
/// for each channel, and the last has at least one.
pub proof fn law_frames_fill_the_block(len: nat, channels: nat)
    requires
        channels > 0,
    ensures
        frames_in(len, channels) * channels >= len,
        frames_in(len, channels) * channels < len + channels,
{
    let v = (len + channels - 1) as int;
    let c = channels as int;
    vstd::arithmetic::div_mod::lemma_fundamental_div_mod(v, c);
    vstd::arithmetic::div_mod::lemma_mod_bound(v, c);
    vstd::arithmetic::mul::lemma_mul_is_commutative(c, v / c);
}

/// Playing goes on by the frames that were played, and never past the end.
pub proof fn law_position_follows_what_was_played(src: Seq<i16>, pos: nat, frames: nat)
    requires
        pos <= src.len(),
    ensures
        played_to(src, pos, true, frames) <= src.len(),
        pos + frames <= src.len() ==> played_to(src, pos, true, frames) == pos + frames,
        pos + frames >= src.len() ==> played_to(src, pos, true, frames) == src.len(),
        played_to(src, pos, false, frames) == pos,
{
}

/// A device offers a rate just where one of its ranges with that many channels has it, its ends
/// included.
pub proof fn law_rate_is_offered_within_a_range(
    ranges: Seq<RateRange>,
    channels: u16,
    rate: u32,
    i: int,
)
    requires
        0 <= i < ranges.len(),
    ensures
        ranges[i].channels == channels && ranges[i].min <= rate && rate <= ranges[i].max ==> offers(
            ranges,
            channels,
            rate,
        ),
        (forall|k: int|
            0 <= k < ranges.len() ==> (#[trigger] ranges[k]).channels != channels || rate
                < ranges[k].min || rate > ranges[k].max) ==> !offers(ranges, channels, rate),
{
}

/// Of frames of which all are taken all are kept, in order; of frames of which none is, none. One
/// more frame is kept behind the others where it is taken, and not at all where it is not.
pub proof fn law_taken_frames_are_kept(frames: Seq<Timecode>, taken: Seq<bool>, tc: Timecode, b: bool)
    requires
        taken.len() == frames.len(),
    ensures
        kept(frames.push(tc), taken.push(b)) == if b {
            kept(frames, taken) + seq![tc]
        } else {
            kept(frames, taken)
        },
        (forall|i: int| 0 <= i < taken.len() ==> #[trigger] taken[i]) ==> kept(frames, taken)
            == frames,
        (forall|i: int| 0 <= i < taken.len() ==> !#[trigger] taken[i]) ==> kept(frames, taken)
            == Seq::<Timecode>::empty(),
    decreases frames.len(),
{
    assert(frames.push(tc).drop_last() =~= frames);
    assert(taken.push(b).drop_last() =~= taken);
    assert(kept(frames, taken) + seq![tc] =~= kept(frames, taken).push(tc));
    if frames.len() > 0 {
        law_taken_frames_are_kept(frames.drop_last(), taken.drop_last(), tc, b);
        assert(taken[taken.len() - 1] == taken.last());
        assert(frames.drop_last().push(frames.last()) =~= frames);
        if forall|i: int| 0 <= i < taken.len() ==> #[trigger] taken[i] {
            assert forall|i: int| 0 <= i < taken.drop_last().len() implies #[trigger] taken.drop_last()[i] by {
                assert(taken.drop_last()[i] == taken[i]);
            }
        }
        if forall|i: int| 0 <= i < taken.len() ==> !#[trigger] taken[i] {
            assert forall|i: int| 0 <= i < taken.drop_last().len() implies !#[trigger] taken.drop_last()[i] by {
                assert(taken.drop_last()[i] == taken[i]);
            }
        }
    } else {
        assert(kept(frames, taken) =~= frames);
    }
}

/// The magnitude of a sample is the sample or its negative, and is not negative.
pub proof fn law_magnitude(s: i16)
    ensures
        magnitude(s) == s || magnitude(s) == -s,
        0 <= magnitude(s) <= 32768,
{
}

/// The note on the rate tells both rates: first the one of the device, then that of the file.
pub proof fn law_note_tells_both_rates(device_rate: u32, file_rate: u32)
    ensures
        ({
            let note = rate_note(device_rate, file_rate);
            let k = decimal(device_rate as nat).len() as int;
            let m = decimal(file_rate as nat).len() as int;
            &&& number_value(note.subrange(12, 12 + k)) == Some(device_rate as nat)
            &&& number_value(note.subrange(12 + k + 12, 12 + k + 12 + m)) == Some(file_rate as nat)
        }),
{
    reveal_strlit("device rate ");
    reveal_strlit(" Hz != file ");
    reveal_strlit(" Hz; pitch/speed differ");
    law_decimal_is_read_back(device_rate as nat);
    law_decimal_is_read_back(file_rate as nat);
    let note = rate_note(device_rate, file_rate);
    let a = decimal(device_rate as nat);
    let b = decimal(file_rate as nat);
    let k = a.len() as int;
    let m = b.len() as int;
    assert(note.subrange(12, 12 + k) =~= a);
    assert(note.subrange(12 + k + 12, 12 + k + 12 + m) =~= b);
}

} // verus!
