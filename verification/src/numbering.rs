//! What the numbering of frames promises: each timecode of a day has a running count, counting
//! up by one frame counts up by one, and drop-frame keeps the count in step with the clock.

use vstd::prelude::*;

use crate::frame::{can_count, can_step, nth_frame, successor, Timecode};

verus! {

/// A timecode that is shown at `fps` frame numbers a second: its fields are in range and, in
/// drop-frame, it is none of the numbers that are left out.
pub open spec fn shown(tc: Timecode, fps: u8) -> bool {
    &&& tc.hours < 24
    &&& tc.minutes < 60
    &&& tc.seconds < 60
    &&& tc.frames < fps
    &&& tc.drop_frame ==> fps > 2 && !(tc.minutes % 10 != 0 && tc.seconds == 0 && tc.frames < 2)
}

/// The minutes since midnight.
pub open spec fn minute_of_day(tc: Timecode) -> int {
    tc.hours * 60 + tc.minutes
}

/// How many frame numbers were left out from midnight to the start of minute `m`: two in each
/// minute but every tenth.
pub open spec fn dropped_before(m: int) -> int {
    2 * (m - m / 10)
}

/// How many frames after midnight `tc` is.
pub open spec fn frame_index(tc: Timecode, fps: u8) -> int {
    (minute_of_day(tc) * 60 + tc.seconds) * fps + tc.frames - if tc.drop_frame {
        dropped_before(minute_of_day(tc))
    } else {
        0
    }
}

/// How many frames a day has.
pub open spec fn frames_per_day(fps: u8, drop_frame: bool) -> int {
    86400 * fps - if drop_frame {
        dropped_before(1440)
    } else {
        0
    }
}

/// The index of every timecode that is shown is within the day.
pub proof fn law_index_in_day(tc: Timecode, fps: u8)
    requires
        shown(tc, fps),
    ensures
        0 <= frame_index(tc, fps) < frames_per_day(fps, tc.drop_frame),
{
    let m = minute_of_day(tc);
    let k = m * 60 + tc.seconds;
    assert(0 <= k * fps && k * fps + fps <= 86400 * fps && (tc.drop_frame ==> m * 180 <= k * fps)
        && (tc.drop_frame ==> (86399 - k) * 3 <= (86399 - k) * fps)
        && (86399 - k) * fps == 86399 * fps - k * fps) by (nonlinear_arith)
        requires
            0 <= k <= 86399,
            fps > 0,
            tc.drop_frame ==> fps >= 3,
            m * 60 <= k,
            0 <= m,
    ;
}

/// Counting up by one frame leads from a shown timecode to a shown timecode, and counts the
/// index up by one, from the end of the day to midnight.
pub proof fn law_next_counts_one(tc: Timecode, fps: u8)
    requires
        shown(tc, fps),
    ensures
        can_step(tc, fps),
        shown(successor(tc, fps), fps),
        successor(tc, fps).drop_frame == tc.drop_frame,
        frame_index(successor(tc, fps), fps) == (frame_index(tc, fps) + 1) % frames_per_day(
            fps,
            tc.drop_frame,
        ),
{
    let t = successor(tc, fps);
    let m = minute_of_day(tc);
    let k = m * 60 + tc.seconds;
    let day = frames_per_day(fps, tc.drop_frame);
    law_index_in_day(tc, fps);
    assert((k + 1) * fps == k * fps + fps) by (nonlinear_arith);
    if t.hours == 0 && tc.hours == 23 {
        assert(frame_index(tc, fps) + 1 == day);
        assert(day % day == 0);
        assert(frame_index(t, fps) == 0) by {
            assert(0 * fps == 0);
        }
    } else {
        law_index_in_day(t, fps);
        if tc.frames + 1 < fps {
        } else if tc.seconds + 1 < 60 {
            assert(minute_of_day(t) * 60 + t.seconds == k + 1);
        } else {
            assert(minute_of_day(t) == m + 1);
            assert(minute_of_day(t) * 60 + t.seconds == k + 1);
            assert((m + 1) % 10 == t.minutes % 10);
        }
        assert(frame_index(t, fps) == frame_index(tc, fps) + 1);
        vstd::arithmetic::div_mod::lemma_small_mod(frame_index(t, fps) as nat, day as nat);
    }
}

/// The timecode `n` frames on from a shown timecode is shown, and its index is `n` more, over
/// as many days as that takes. No step on the way counts a field past its limit.
pub proof fn law_sequence_counts_up(start: Timecode, n: nat, fps: u8)
    requires
        shown(start, fps),
    ensures
        can_count(start, n, fps),
        shown(nth_frame(start, n, fps), fps),
        nth_frame(start, n, fps).drop_frame == start.drop_frame,
        frame_index(nth_frame(start, n, fps), fps) == (frame_index(start, fps) + n)
            % frames_per_day(fps, start.drop_frame),
    decreases n,
{
    let day = frames_per_day(fps, start.drop_frame);
    law_index_in_day(start, fps);
    if n == 0 {
        vstd::arithmetic::div_mod::lemma_small_mod(frame_index(start, fps) as nat, day as nat);
    } else {
        let m = (n - 1) as nat;
        law_sequence_counts_up(start, m, fps);
        law_next_counts_one(nth_frame(start, m, fps), fps);
        vstd::arithmetic::div_mod::lemma_add_mod_noop(frame_index(start, fps) + m, 1, day);
        vstd::arithmetic::div_mod::lemma_add_mod_noop(
            (frame_index(start, fps) + m) % day,
            1,
            day,
        );
        vstd::arithmetic::div_mod::lemma_mod_twice(frame_index(start, fps) + m, day);
        assert forall|k: nat| k < n implies can_step(#[trigger] nth_frame(start, k, fps), fps) by {
            if k < m {
                assert(can_count(start, m, fps));
            }
        }
    }
}

proof fn lemma_index_increases(a: Timecode, b: Timecode, fps: u8)
    requires
        shown(a, fps),
        shown(b, fps),
        a.drop_frame == b.drop_frame,
        minute_of_day(a) * 60 + a.seconds < minute_of_day(b) * 60 + b.seconds,
    ensures
        frame_index(a, fps) < frame_index(b, fps),
{
    let ma = minute_of_day(a);
    let mb = minute_of_day(b);
    let ka = ma * 60 + a.seconds;
    let kb = mb * 60 + b.seconds;
    assert(kb * fps == ka * fps + fps + (kb - ka - 1) * fps) by (nonlinear_arith);
    assert((kb - ka - 1) * fps >= 0) by (nonlinear_arith)
        requires
            kb - ka - 1 >= 0,
    ;
    if a.drop_frame && ma < mb {
        assert((kb - ka - 1) * fps >= (kb - ka - 1) * 3) by (nonlinear_arith)
            requires
                kb - ka - 1 >= 0,
                fps >= 3,
        ;
        if mb == ma + 1 {
            assert(mb % 10 == b.minutes % 10);
            assert(dropped_before(mb) - dropped_before(ma) == if mb % 10 == 0 {
                0int
            } else {
                2
            });
        } else {
            assert(dropped_before(mb) - dropped_before(ma) <= 2 * (mb - ma));
        }
    }
}

/// No two timecodes that are shown have the same index.
pub proof fn law_index_is_unique(a: Timecode, b: Timecode, fps: u8)
    requires
        shown(a, fps),
        shown(b, fps),
        a.drop_frame == b.drop_frame,
        frame_index(a, fps) == frame_index(b, fps),
    ensures
        a == b,
{
    let ka = minute_of_day(a) * 60 + a.seconds;
    let kb = minute_of_day(b) * 60 + b.seconds;
    if ka < kb {
        lemma_index_increases(a, b, fps);
    } else if kb < ka {
        lemma_index_increases(b, a, fps);
    }
}

/// The timecode ten minutes on, with the same seconds and frames.
pub open spec fn ten_minutes_on(tc: Timecode) -> Timecode {
    let m = (minute_of_day(tc) + 10) % 1440;
    Timecode { hours: (m / 60) as u8, minutes: (m % 60) as u8, ..tc }
}

/// Ten minutes of 29.97 drop-frame are exactly 17982 frame numbers, from wherever they are
/// counted.
pub proof fn law_ten_minutes_realign(tc: Timecode)
    requires
        shown(tc, 30),
        tc.drop_frame,
    ensures
        nth_frame(tc, 17982, 30) == ten_minutes_on(tc),
{
    let t = ten_minutes_on(tc);
    let day = frames_per_day(30, true);
    law_sequence_counts_up(tc, 17982, 30);
    law_index_in_day(tc, 30);
    law_index_in_day(t, 30);
    let m = minute_of_day(tc);
    let sum = frame_index(tc, 30) + 17982;
    if m + 10 < 1440 {
        assert(minute_of_day(t) == m + 10);
        assert(frame_index(t, 30) == sum);
        vstd::arithmetic::div_mod::lemma_small_mod(sum as nat, day as nat);
    } else {
        assert(minute_of_day(t) == m - 1430);
        assert(frame_index(t, 30) == sum - day);
        vstd::arithmetic::div_mod::lemma_small_mod((sum - day) as nat, day as nat);
        vstd::arithmetic::div_mod::lemma_mod_add_multiples_vanish(sum - day, day);
    }
    law_index_is_unique(nth_frame(tc, 17982, 30), t, 30);
}

/// The time that a timecode shows, in thirtieths of a second since midnight.
pub open spec fn shown_time(tc: Timecode) -> int {
    (minute_of_day(tc) * 60 + tc.seconds) * 30 + tc.frames
}

/// Drop-frame keeps time. Where frames follow at 30000/1001 a second from midnight on, frame `i`
/// comes after `i * 1001 / 1000` thirtieths of a second. The time that it shows is less than two
/// thirtieths behind and less than five ahead of that, all day long.
pub proof fn law_drop_frame_keeps_time(tc: Timecode)
    requires
        shown(tc, 30),
        tc.drop_frame,
    ensures
        -5000 < 1001 * frame_index(tc, 30) - 1000 * shown_time(tc) < 2000,
{
    let m = minute_of_day(tc);
    assert(m == 10 * (m / 10) + m % 10);
}

/// After a day the numbers start over.
pub proof fn law_day_repeats(tc: Timecode, fps: u8)
    requires
        shown(tc, fps),
    ensures
        nth_frame(tc, frames_per_day(fps, tc.drop_frame) as nat, fps) == tc,
{
    let day = frames_per_day(fps, tc.drop_frame);
    law_index_in_day(tc, fps);
    law_sequence_counts_up(tc, day as nat, fps);
    vstd::arithmetic::div_mod::lemma_mod_add_multiples_vanish(frame_index(tc, fps), day);
    vstd::arithmetic::div_mod::lemma_small_mod(frame_index(tc, fps) as nat, day as nat);
    law_index_is_unique(nth_frame(tc, day as nat, fps), tc, fps);
}

} // verus!
