//! Whole-file analysis: what the timecodes decoded from a file say of it at a glance.

use vstd::prelude::*;

use crate::decoder::in_range;
use crate::frame::{next_frame, nth_frame, successor, Timecode};
use crate::numbering::{law_sequence_counts_up, shown};
use crate::text::{decimal, law_decimal_is_read_back, number_value, push_decimal};

verus! {

/// What is known of a file.
#[derive(Clone, Copy, Debug, PartialEq, Eq, Structural)]
pub struct FileSummary {
    pub start: Option<Timecode>,
    pub end: Option<Timecode>,
    pub frame_count: usize,
    /// The nominal frames a second, from the frames just before the seconds change; nothing
    /// where the file is too short to have one.
    pub nominal_fps: Option<u8>,
    pub drop_frame: bool,
    pub sample_rate: u32,
    /// The length of the file in samples.
    pub samples: usize,
    /// Whether each frame is one increment after the one before, in drop-frame too; nothing
    /// where the frames a second are not known.
    pub continuous: Option<bool>,
}

/// The seconds change behind frame `i`.
pub open spec fn rollover(frames: Seq<Timecode>, i: int) -> bool {
    0 <= i < frames.len() - 1 && frames[i].seconds != frames[i + 1].seconds
}

/// The nominal frames a second that the rollovers show: one more than the highest frame number
/// just before one; nothing where there is none.
pub open spec fn is_nominal(frames: Seq<Timecode>, nominal: Option<u8>) -> bool {
    match nominal {
        None => forall|i: int| !#[trigger] rollover(frames, i),
        Some(n) => {
            &&& exists|i: int| #[trigger] rollover(frames, i) && frames[i].frames + 1 == n
            &&& forall|i: int| #[trigger] rollover(frames, i) ==> frames[i].frames + 1 <= n
        },
    }
}

/// Each frame is one increment after the one before.
pub open spec fn is_continuous(frames: Seq<Timecode>, fps: u8) -> bool {
    forall|i: int, j: int|
        0 <= i && j == i + 1 && j < frames.len() ==> #[trigger] frames[j] == successor(
            #[trigger] frames[i],
            fps,
        )
}

/// The summary of a file of `samples` samples, from which `frames` were decoded.
pub open spec fn is_summary(
    s: FileSummary,
    frames: Seq<Timecode>,
    samples: usize,
    sample_rate: u32,
) -> bool {
    &&& s.start == if frames.len() > 0 {
        Some(frames.first())
    } else {
        None
    }
    &&& s.end == if frames.len() > 0 {
        Some(frames.last())
    } else {
        None
    }
    &&& s.frame_count == frames.len()
    &&& s.drop_frame == (frames.len() > 0 && frames.first().drop_frame)
    &&& s.sample_rate == sample_rate
    &&& s.samples == samples
    &&& is_nominal(frames, s.nominal_fps)
    &&& s.continuous == match s.nominal_fps {
        Some(fps) => Some(is_continuous(frames, fps)),
        None => None,
    }
}

/// The nominal frames a second that the rollovers show.
fn infer_nominal(frames: &[Timecode]) -> (nominal: Option<u8>)
    requires
        forall|i: int| 0 <= i < frames.len() ==> in_range(#[trigger] frames@[i]),
    ensures
        is_nominal(frames@, nominal),
{
    let mut nominal: Option<u8> = None;
    let mut i: usize = 1;
    while i < frames.len()
        invariant
            1 <= i,
            i <= frames.len() || frames.len() == 0,
            forall|j: int| 0 <= j < frames.len() ==> in_range(#[trigger] frames@[j]),
            match nominal {
                None => forall|j: int| #[trigger] rollover(frames@, j) ==> j >= i - 1,
                Some(n) => {
                    &&& exists|j: int|
                        #[trigger] rollover(frames@, j) && frames@[j].frames + 1 == n
                    &&& forall|j: int|
                        #[trigger] rollover(frames@, j) && j < i - 1 ==> frames@[j].frames + 1 <= n
                },
            },
        decreases frames.len() - i,
    {
        if frames[i - 1].seconds != frames[i].seconds {
            assert(in_range(frames@[i - 1]));
            assert(rollover(frames@, i - 1));
            let candidate: u8 = frames[i - 1].frames + 1;
            nominal = match nominal {
                None => Some(candidate),
                Some(n) => if candidate > n {
                    Some(candidate)
                } else {
                    Some(n)
                },
            };
        } else {
            assert(!rollover(frames@, i - 1));
        }
        i += 1;
    }
    nominal
}

/// Whether each frame is one increment after the one before.
fn check_continuous(frames: &[Timecode], fps: u8) -> (r: bool)
    requires
        forall|i: int| 0 <= i < frames.len() ==> in_range(#[trigger] frames@[i]),
    ensures
        r == is_continuous(frames@, fps),
{
    let mut i: usize = 1;
    while i < frames.len()
        invariant
            1 <= i,
            forall|j: int| 0 <= j < frames.len() ==> in_range(#[trigger] frames@[j]),
            forall|a: int, b: int|
                0 <= a && b == a + 1 && b < i && b < frames.len() ==> #[trigger] frames@[b]
                    == successor(#[trigger] frames@[a], fps),
        decreases frames.len() - i,
    {
        assert(in_range(frames@[i - 1]));
        if frames[i] != next_frame(frames[i - 1], fps) {
            assert(frames@[i as int] != successor(frames@[i - 1], fps));
            return false;
        }
        i += 1;
    }
    true
}

/// Sums up a file of `samples` samples, from which `frames` were decoded.
pub fn analyze(frames: &[Timecode], samples: usize, sample_rate: u32) -> (s: FileSummary)
    requires
        forall|i: int| 0 <= i < frames.len() ==> in_range(#[trigger] frames@[i]),
    ensures
        is_summary(s, frames@, samples, sample_rate),
{
    let n: usize = frames.len();
    let start: Option<Timecode> = if n > 0 {
        Some(frames[0])
    } else {
        None
    };
    let end: Option<Timecode> = if n > 0 {
        Some(frames[n - 1])
    } else {
        None
    };
    let nominal_fps: Option<u8> = infer_nominal(frames);
    let continuous: Option<bool> = match nominal_fps {
        Some(fps) => Some(check_continuous(frames, fps)),
        None => None,
    };
    let drop_frame: bool = n > 0 && frames[0].drop_frame;
    FileSummary { start, end, frame_count: n, nominal_fps, drop_frame, sample_rate, samples, continuous }
}

/// The name of a rate: "30", "29.97 drop", or "unknown".
pub open spec fn summary_rate_label(s: FileSummary) -> Seq<char> {
    match s.nominal_fps {
        Some(n) => if s.drop_frame {
            "29.97 drop"@
        } else {
            decimal(n as nat)
        },
        None => "unknown"@,
    }
}

impl FileSummary {
    /// The name of the rate: "30", "25", "29.97 drop", or "unknown".
    pub fn rate_label(&self) -> (r: String)
        ensures
            r@ == summary_rate_label(*self),
    {
        match self.nominal_fps {
            Some(n) => if self.drop_frame {
                "29.97 drop".to_owned()
            } else {
                let mut out = String::new();
                push_decimal(&mut out, n as u64);
                out
            },
            None => "unknown".to_owned(),
        }
    }
}

proof fn lemma_within_second(start: Timecode, i: nat, fps: u8)
    requires
        start.frames + i < fps,
    ensures
        nth_frame(start, i, fps) == (Timecode { frames: (start.frames + i) as u8, ..start }),
    decreases i,
{
    if i > 0 {
        lemma_within_second(start, (i - 1) as nat, fps);
    }
}

/// A run of consecutive frames is found continuous, and at its own rate, where it has a
/// rollover; every run of more than a second has one.
pub proof fn law_run_is_continuous(
    start: Timecode,
    fps: u8,
    frames: Seq<Timecode>,
    nominal: Option<u8>,
)
    requires
        shown(start, fps),
        forall|i: int|
            0 <= i < frames.len() ==> #[trigger] frames[i] == nth_frame(start, i as nat, fps),
        is_nominal(frames, nominal),
    ensures
        nominal is None || nominal == Some(fps),
        frames.len() > fps ==> nominal == Some(fps),
        is_continuous(frames, fps),
{
    assert forall|i: int| #[trigger] rollover(frames, i) implies frames[i].frames + 1 == fps by {
        law_sequence_counts_up(start, i as nat, fps);
        assert(frames[i + 1] == nth_frame(start, (i + 1) as nat, fps));
    }
    assert forall|i: int, j: int|
        0 <= i && j == i + 1 && j < frames.len() implies #[trigger] frames[j] == successor(
        #[trigger] frames[i],
        fps,
    ) by {
        assert(frames[j] == nth_frame(start, j as nat, fps));
    }
    if frames.len() > fps {
        let i = fps - 1 - start.frames;
        lemma_within_second(start, i as nat, fps);
        assert(frames[i] == nth_frame(start, i as nat, fps));
        assert(frames[i + 1] == successor(frames[i], fps));
        assert(rollover(frames, i));
    }
}

proof fn lemma_run_from_first(frames: Seq<Timecode>, fps: u8, i: int)
    requires
        0 <= i < frames.len(),
        is_continuous(frames, fps),
    ensures
        frames[i] == nth_frame(frames[0], i as nat, fps),
    decreases i,
{
    if i > 0 {
        lemma_run_from_first(frames, fps, i - 1);
        assert(frames[i] == successor(frames[i - 1], fps));
    }
}

/// What is found continuous is a run: every frame is the timecode so many frames after the first,
/// counted at the rate that was found. What is not has two frames in a row of which the second is
/// not one increment after the first. Where no rate was found, nothing is said.
pub proof fn law_continuous_is_a_run(
    s: FileSummary,
    frames: Seq<Timecode>,
    samples: usize,
    sample_rate: u32,
)
    requires
        is_summary(s, frames, samples, sample_rate),
    ensures
        s.continuous is Some <==> s.nominal_fps is Some,
        s.continuous == Some(true) ==> forall|i: int|
            0 <= i < frames.len() ==> #[trigger] frames[i] == nth_frame(
                frames[0],
                i as nat,
                s.nominal_fps->0,
            ),
        s.continuous == Some(false) ==> exists|i: int|
            0 <= i < frames.len() - 1 && frames[i + 1] != successor(
                #[trigger] frames[i],
                s.nominal_fps->0,
            ),
{
    if s.continuous == Some(true) {
        let fps = s.nominal_fps->0;
        assert forall|i: int| 0 <= i < frames.len() implies #[trigger] frames[i] == nth_frame(
            frames[0],
            i as nat,
            fps,
        ) by {
            lemma_run_from_first(frames, fps, i);
        }
    }
}

/// A jump is found: where a frame is not one increment after the one before, by whatever field, the
/// file is not continuous.
pub proof fn law_jump_is_found(
    s: FileSummary,
    frames: Seq<Timecode>,
    samples: usize,
    sample_rate: u32,
    i: int,
)
    requires
        is_summary(s, frames, samples, sample_rate),
        s.nominal_fps is Some,
        0 <= i < frames.len() - 1,
        frames[i + 1] != successor(frames[i], s.nominal_fps->0),
    ensures
        s.continuous == Some(false),
{
    if is_continuous(frames, s.nominal_fps->0) {
        assert(frames[i + 1] == successor(frames[i], s.nominal_fps->0));
    }
}

/// The rate is found from the seconds: it is one more than a frame number just before the seconds
/// change, and than no other such number is it less or equal. Where the seconds never change, it is
/// not known.
pub proof fn law_rate_is_found_where_seconds_change(
    s: FileSummary,
    frames: Seq<Timecode>,
    samples: usize,
    sample_rate: u32,
)
    requires
        is_summary(s, frames, samples, sample_rate),
    ensures
        s.nominal_fps is Some <==> exists|i: int|
            0 <= i < frames.len() - 1 && (#[trigger] frames[i]).seconds != frames[i + 1].seconds,
        s.nominal_fps matches Some(n) ==> {
            &&& exists|i: int|
                0 <= i < frames.len() - 1 && (#[trigger] frames[i]).seconds != frames[i + 1].seconds
                    && frames[i].frames + 1 == n
            &&& forall|i: int|
                0 <= i < frames.len() - 1 && (#[trigger] frames[i]).seconds != frames[i + 1].seconds
                    ==> frames[i].frames < n
        },
{
    match s.nominal_fps {
        Some(n) => {
            let i = choose|i: int| #[trigger] rollover(frames, i) && frames[i].frames + 1 == n;
            assert(frames[i].seconds != frames[i + 1].seconds);
            assert forall|i: int|
                0 <= i < frames.len() - 1 && (#[trigger] frames[i]).seconds != frames[i
                    + 1].seconds implies frames[i].frames < n by {
                assert(rollover(frames, i));
            }
        },
        None => {
            assert forall|i: int| 0 <= i < frames.len() - 1 implies (
            #[trigger] frames[i]).seconds == frames[i + 1].seconds by {
                assert(!rollover(frames, i));
            }
        },
    }
}

/// The summary of a file tells its first and its last timecode, how many there are, whether the
/// first counts in drop-frame, and how long the file is.
pub proof fn law_summary_tells_the_ends(
    s: FileSummary,
    frames: Seq<Timecode>,
    samples: usize,
    sample_rate: u32,
)
    requires
        is_summary(s, frames, samples, sample_rate),
    ensures
        s.frame_count == frames.len(),
        s.samples == samples,
        s.sample_rate == sample_rate,
        frames.len() == 0 ==> s.start is None && s.end is None && !s.drop_frame,
        frames.len() > 0 ==> s.start == Some(frames[0]) && s.end == Some(frames[frames.len() - 1])
            && s.drop_frame == frames[0].drop_frame,
{
}

/// A rate that was found is called by its number, or 29.97 in drop-frame; one that was not found is
/// unknown.
pub proof fn law_found_rate_is_told(s: FileSummary)
    ensures
        s.nominal_fps is None <==> summary_rate_label(s) == "unknown"@,
        s.nominal_fps is Some && s.drop_frame ==> summary_rate_label(s) == "29.97 drop"@,
        s.nominal_fps is Some && !s.drop_frame ==> number_value(summary_rate_label(s)) == Some(
            s.nominal_fps->0 as nat,
        ),
{
    reveal_strlit("unknown");
    reveal_strlit("29.97 drop");
    if s.nominal_fps is Some {
        law_decimal_is_read_back(s.nominal_fps->0 as nat);
        assert("unknown"@[0] == 'u' && "29.97 drop"@[0] == '2');
        let label = decimal(s.nominal_fps->0 as nat);
        assert(label.len() > 0 ==> '0' <= label[0] <= '9');
        assert("unknown"@.len() == 7);
    }
}

} // verus!
