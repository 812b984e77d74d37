//! Generating an LTC file: from a start, a rate and a number of frames to the samples, and to a
//! name for the file.

use vstd::prelude::*;

use crate::analyze::is_continuous;
use crate::biphase::{all_bits, encode_bits_to_samples, is_signal, lemma_tick_bounds, signal_fits, tick};
use crate::decoder::in_range;
use crate::frame::{
    bits_of, can_count, checked_sequence, encode_frame, frame_bits, law_counting_does_not_stop,
    nth_frame, parsed, successor, Timecode,
};
use crate::rate::{parse_rate_option, parsed_rate, rate_label, RateSpec};
use crate::roundtrip::signs_of;
use crate::roundtrip::tracking::{law_tracking_decoder_inverts_encoding, self_timed};
use crate::text::{
    decimal, dots_replaced, law_decimal_is_read_back, law_full_stops_are_replaced,
    law_two_digits_are_read_back, number_value, push_decimal, push_dots_replaced, push_two_digits, two_digits,
};

verus! {

/// The amplitude of the signal.
pub const AMPLITUDE: i16 = 16_000;

/// What was generated.
#[derive(Debug)]
pub struct GenReport {
    pub path: String,
    pub start: Timecode,
    pub end: Timecode,
    pub rate: RateSpec,
    pub payload_frames: u32,
    pub samples: usize,
}

/// The samples of a file, and the last timecode in it.
#[derive(Debug)]
pub struct Generated {
    pub samples: Vec<i16>,
    pub end: Timecode,
}

/// The start and the rate that are asked for, or what is wrong with them. The start counts in
/// drop-frame where the rate does.
pub open spec fn prepared(start: Seq<char>, option: Seq<char>, fps: Seq<char>) -> Result<
    (Timecode, RateSpec),
    Seq<char>,
> {
    match parsed(start) {
        Err(m) => Err(m),
        Ok(tc) => match parsed_rate(option, fps, tc.drop_frame) {
            Err(m) => Err(m),
            Ok(rate) => Ok((Timecode { drop_frame: rate.drop, ..tc }, rate)),
        },
    }
}

/// Reads the start and the rate that are asked for, where messages call the rate by the name
/// `option`.
pub fn prepare_option(start: &str, option: &str, fps: &str) -> (r: Result<
    (Timecode, RateSpec),
    String,
>)
    ensures
        match r {
            Ok(v) => prepared(start@, option@, fps@) == Ok::<(Timecode, RateSpec), Seq<char>>(v),
            Err(m) => prepared(start@, option@, fps@) == Err::<(Timecode, RateSpec), Seq<char>>(m@),
        },
{
    let tc: Timecode = match Timecode::parse(start) {
        Ok(tc) => tc,
        Err(m) => return Err(m),
    };
    match parse_rate_option(option, fps, tc.drop_frame) {
        Ok(rate) => Ok((Timecode { drop_frame: rate.drop, ..tc }, rate)),
        Err(m) => Err(m),
    }
}

/// Reads the start and the rate that are asked for.
pub fn prepare(start: &str, fps: &str) -> (r: Result<(Timecode, RateSpec), String>)
    ensures
        match r {
            Ok(v) => prepared(start@, "fps"@, fps@) == Ok::<(Timecode, RateSpec), Seq<char>>(v),
            Err(m) => prepared(start@, "fps"@, fps@) == Err::<(Timecode, RateSpec), Seq<char>>(m@),
        },
{
    prepare_option(start, "fps", fps)
}

/// The timecodes of a file: the start as often as the preroll asks, then the payload, which
/// counts up from the start.
pub open spec fn file_timecodes(
    start: Timecode,
    payload_frames: u32,
    preroll: u32,
    fps: u8,
) -> Seq<Timecode> {
    Seq::new(
        preroll as nat + payload_frames as nat,
        |i: int|
            if i < preroll {
                start
            } else {
                nth_frame(start, (i - preroll) as nat, fps)
            },
    )
}

/// The last timecode of the payload, or the start where there is no payload.
pub open spec fn last_timecode(start: Timecode, payload_frames: u32, fps: u8) -> Timecode {
    if payload_frames == 0 {
        start
    } else {
        nth_frame(start, (payload_frames - 1) as nat, fps)
    }
}

/// No field of a timecode has to be counted past 255, and the samples can be held.
pub open spec fn can_generate(
    start: Timecode,
    rate: RateSpec,
    payload_frames: u32,
    preroll: u32,
    sample_rate: u32,
) -> bool {
    &&& can_count(start, payload_frames as nat, rate.nominal)
    &&& preroll + payload_frames <= usize::MAX
    &&& tick(160 * (preroll + payload_frames), sample_rate, rate.real) <= usize::MAX
}

/// The frames of a file.
fn file_frames(
    start: Timecode,
    payload: &Vec<Timecode>,
    preroll: u32,
) -> (frames: Vec<[bool; 80]>)
    requires
        preroll + payload.len() <= usize::MAX,
    ensures
        frames.len() == preroll + payload.len(),
        forall|i: int|
            0 <= i < frames.len() ==> (#[trigger] frames@[i])@ == frame_bits(
                if i < preroll {
                    start
                } else {
                    payload@[i - preroll]
                },
            ),
{
    let mut frames: Vec<[bool; 80]> = Vec::new();
    let mut p: u32 = 0;
    while p < preroll
        invariant
            p <= preroll,
            frames.len() == p,
            forall|i: int| 0 <= i < p ==> (#[trigger] frames@[i])@ == frame_bits(start),
        decreases preroll - p,
    {
        frames.push(encode_frame(start));
        p += 1;
    }
    let mut k: usize = 0;
    while k < payload.len()
        invariant
            k <= payload.len(),
            frames.len() == preroll + k,
            forall|i: int|
                0 <= i < frames.len() ==> (#[trigger] frames@[i])@ == frame_bits(
                    if i < preroll {
                        start
                    } else {
                        payload@[i - preroll]
                    },
                ),
        decreases payload.len() - k,
    {
        frames.push(encode_frame(payload[k]));
        k += 1;
    }
    frames
}

/// Generates the samples of a file; nothing where a field of a timecode would have to be counted
/// past 255, or the samples could not be held.
pub fn generate(
    start: Timecode,
    rate: RateSpec,
    payload_frames: u32,
    preroll: u32,
    sample_rate: u32,
) -> (r: Option<Generated>)
    requires
        rate.real.num > 0,
    ensures
        match r {
            Some(g) => {
                &&& can_generate(start, rate, payload_frames, preroll, sample_rate)
                &&& is_signal(
                    g.samples@,
                    bits_of(file_timecodes(start, payload_frames, preroll, rate.nominal)),
                    sample_rate,
                    rate.real,
                    AMPLITUDE,
                )
                &&& g.end == last_timecode(start, payload_frames, rate.nominal)
            },
            None => !can_generate(start, rate, payload_frames, preroll, sample_rate),
        },
{
    let payload: Vec<Timecode> = match checked_sequence(start, payload_frames, rate.nominal) {
        Some(v) => v,
        None => return None,
    };
    let total: u64 = preroll as u64 + payload_frames as u64;
    if total > usize::MAX as u64 || !signal_fits(total as usize, sample_rate, rate.real) {
        return None;
    }
    let end: Timecode = if payload.len() == 0 {
        start
    } else {
        payload[payload.len() - 1]
    };
    let frames: Vec<[bool; 80]> = file_frames(start, &payload, preroll);
    proof {
        let tcs = file_timecodes(start, payload_frames, preroll, rate.nominal);
        assert(all_bits(frames@) =~= bits_of(tcs)) by {
            assert forall|i: int| 0 <= i < 80 * tcs.len() implies all_bits(frames@)[i] == bits_of(
                tcs,
            )[i] by {
                assert(frames@[i / 80]@ == frame_bits(tcs[i / 80]));
            }
        }
    }
    let samples: Vec<i16> = encode_bits_to_samples(
        frames.as_slice(),
        sample_rate,
        rate.real,
        AMPLITUDE,
    );
    Some(Generated { samples, end })
}

/// The name of a file that starts at `tc`: its start, its length in seconds, its rate and its
/// sample rate. The letter p stands for the decimal point.
pub open spec fn file_name(tc: Timecode, length: Seq<char>, rate: RateSpec, sr: u32) -> Seq<char> {
    "ltc_"@ + two_digits(tc.hours as nat) + "h"@ + two_digits(tc.minutes as nat) + "m"@ + two_digits(
        tc.seconds as nat,
    ) + "s"@ + two_digits(tc.frames as nat) + "f_"@ + dots_replaced(length) + "s_"@ + dots_replaced(
        rate_label(rate),
    ) + "fps"@ + (if rate.drop {
        "DF"@
    } else {
        ""@
    }) + "_"@ + decimal(sr as nat) + "Hz.wav"@
}

/// A name for a file that is `length` seconds long, where `length` is the number in decimal.
pub fn default_name(tc: Timecode, length: &str, rate: &RateSpec, sr: u32) -> (r: String)
    requires
        rate.real.den > 0,
    ensures
        r@ == file_name(tc, length@, *rate, sr),
{
    let mut out: String = "ltc_".to_owned();
    push_two_digits(&mut out, tc.hours);
    out.append("h");
    push_two_digits(&mut out, tc.minutes);
    out.append("m");
    push_two_digits(&mut out, tc.seconds);
    out.append("s");
    push_two_digits(&mut out, tc.frames);
    out.append("f_");
    push_dots_replaced(&mut out, length);
    out.append("s_");
    let label: String = rate.label();
    push_dots_replaced(&mut out, label.as_str());
    out.append("fps");
    out.append(if rate.drop {
        "DF"
    } else {
        ""
    });
    out.append("_");
    push_decimal(&mut out, sr as u64);
    out.append("Hz.wav");
    out
}

proof fn lemma_stays_in_range(start: Timecode, n: nat, fps: u8)
    requires
        in_range(start),
        fps <= 30,
    ensures
        in_range(nth_frame(start, n, fps)),
    decreases n,
{
    if n > 0 {
        lemma_stays_in_range(start, (n - 1) as nat, fps);
    }
}

/// A generated file decodes to its timecodes, but the first and the last: from any start whose
/// fields are in range, at any rate of up to 30 frames a second, and at any sample rate that
/// leaves at least ten samples for a bit, and no more than can be counted.
pub proof fn law_generated_file_decodes(
    start: Timecode,
    rate: RateSpec,
    payload_frames: u32,
    preroll: u32,
    sample_rate: u32,
    samples: Seq<i16>,
)
    requires
        in_range(start),
        rate.nominal <= 30,
        rate.real.num > 0,
        800 * rate.real.num <= sample_rate * rate.real.den <= 80 * rate.real.num * (u32::MAX - 1),
        is_signal(
            samples,
            bits_of(file_timecodes(start, payload_frames, preroll, rate.nominal)),
            sample_rate,
            rate.real,
            AMPLITUDE,
        ),
    ensures
        ({
            let tcs = file_timecodes(start, payload_frames, preroll, rate.nominal);
            self_timed(signs_of(samples)).run.out == if tcs.len() < 2 {
                Seq::empty()
            } else {
                tcs.subrange(1, tcs.len() - 1)
            }
        }),
{
    let tcs = file_timecodes(start, payload_frames, preroll, rate.nominal);
    assert forall|i: int| 0 <= i < tcs.len() implies in_range(#[trigger] tcs[i]) by {
        if i >= preroll {
            lemma_stays_in_range(start, (i - preroll) as nat, rate.nominal);
        }
    }
    law_tracking_decoder_inverts_encoding(tcs, samples, sample_rate, rate.real, AMPLITUDE);
}

/// A generated file without preroll decodes cleanly: all frames but two come out, each in range,
/// and each one increment after the one before, with no gap, repeat or jump.
pub proof fn law_generated_file_decodes_cleanly(
    start: Timecode,
    rate: RateSpec,
    payload_frames: u32,
    sample_rate: u32,
    samples: Seq<i16>,
)
    requires
        in_range(start),
        rate.nominal <= 30,
        rate.real.num > 0,
        800 * rate.real.num <= sample_rate * rate.real.den <= 80 * rate.real.num * (u32::MAX - 1),
        is_signal(
            samples,
            bits_of(file_timecodes(start, payload_frames, 0, rate.nominal)),
            sample_rate,
            rate.real,
            AMPLITUDE,
        ),
        payload_frames >= 2,
    ensures
        ({
            let out = self_timed(signs_of(samples)).run.out;
            &&& out.len() == payload_frames - 2
            &&& forall|i: int| 0 <= i < out.len() ==> in_range(#[trigger] out[i])
            &&& is_continuous(out, rate.nominal)
        }),
{
    let tcs = file_timecodes(start, payload_frames, 0, rate.nominal);
    law_generated_file_decodes(start, rate, payload_frames, 0, sample_rate, samples);
    let out = self_timed(signs_of(samples)).run.out;
    assert forall|i: int| 0 <= i < out.len() implies in_range(#[trigger] out[i]) by {
        assert(out[i] == tcs[i + 1]);
        lemma_stays_in_range(start, (i + 1) as nat, rate.nominal);
    }
    assert forall|i: int, j: int|
        0 <= i && j == i + 1 && j < out.len() implies #[trigger] out[j] == successor(
        #[trigger] out[i],
        rate.nominal,
    ) by {
        assert(out[i] == nth_frame(start, (i + 1) as nat, rate.nominal));
        assert(out[j] == nth_frame(start, (i + 2) as nat, rate.nominal));
    }
}

/// Every file that can be held is generated: from any start with no field at 255, for any payload
/// and preroll, and at any rate, unless there are too many frames or samples to be held.
pub proof fn law_every_file_is_generated(
    start: Timecode,
    rate: RateSpec,
    payload_frames: u32,
    preroll: u32,
    sample_rate: u32,
)
    requires
        start.hours < 255 && start.minutes < 255 && start.seconds < 255 && start.frames < 255,
        preroll + payload_frames <= usize::MAX,
        tick(160 * (preroll + payload_frames), sample_rate, rate.real) <= usize::MAX,
    ensures
        can_generate(start, rate, payload_frames, preroll, sample_rate),
{
    law_counting_does_not_stop(start, payload_frames as nat, rate.nominal);
}

/// At every rate that has a name, every file that can be asked for is generated where 64 bits count
/// samples: any payload, any preroll and any sample rate.
pub proof fn law_named_rates_generate_every_file(
    start: Timecode,
    option: Seq<char>,
    fps: Seq<char>,
    rate: RateSpec,
    payload_frames: u32,
    preroll: u32,
    sample_rate: u32,
)
    requires
        start.hours < 255 && start.minutes < 255 && start.seconds < 255 && start.frames < 255,
        parsed_rate(option, fps, start.drop_frame) == Ok::<RateSpec, Seq<char>>(rate),
        usize::MAX == 0xffff_ffff_ffff_ffff,
    ensures
        can_generate(start, rate, payload_frames, preroll, sample_rate),
{
    let f = preroll + payload_frames;
    let x = (sample_rate * rate.real.den) as int;
    let n = rate.real.num as int;
    let t = tick(160 * f, sample_rate, rate.real);
    assert(24 <= n && rate.real.den <= 1001);
    lemma_tick_bounds(160 * f, sample_rate, rate.real);
    assert(x <= 0xffff_ffff * 1001) by (nonlinear_arith)
        requires
            x == sample_rate * rate.real.den,
            rate.real.den <= 1001,
            sample_rate <= 0xffff_ffff,
    ;
    assert(160 * f * x <= 160 * (2 * 0xffff_ffff) * (0xffff_ffff * 1001)) by (nonlinear_arith)
        requires
            0 <= f <= 2 * 0xffff_ffff,
            0 <= x <= 0xffff_ffff * 1001,
    ;
    assert(n >= 24000 || rate.real.den == 1);
    assert(rate.real.den == 1 ==> x <= 0xffff_ffff) by (nonlinear_arith)
        requires
            x == sample_rate * rate.real.den,
            sample_rate <= 0xffff_ffff,
    ;
    assert(n < 24000 ==> 160 * f * x <= 160 * (2 * 0xffff_ffff) * 0xffff_ffff) by (nonlinear_arith)
        requires
            0 <= f <= 2 * 0xffff_ffff,
            n >= 24000 || 0 <= x <= 0xffff_ffff,
            0 <= x,
    ;
    assert(t <= 0xffff_ffff_ffff_ffff) by (nonlinear_arith)
        requires
            160 * n * t <= 160 * f * x + 80 * n,
            n >= 24,
            n < 24000 ==> 160 * f * x <= 160 * (2 * 0xffff_ffff) * 0xffff_ffff,
            160 * f * x <= 160 * (2 * 0xffff_ffff) * (0xffff_ffff * 1001),
    ;
    law_every_file_is_generated(start, rate, payload_frames, preroll, sample_rate);
}

/// A file has its preroll and its payload: the start, as often as the preroll asks, and then the
/// start once more, where there is a payload, and each frame one increment after the one before.
/// It ends in the last timecode of the payload.
pub proof fn law_file_counts_up_behind_its_preroll(
    start: Timecode,
    payload_frames: u32,
    preroll: u32,
    fps: u8,
)
    ensures
        ({
            let tcs = file_timecodes(start, payload_frames, preroll, fps);
            &&& tcs.len() == preroll + payload_frames
            &&& forall|i: int|
                0 <= i <= preroll && i < tcs.len() ==> #[trigger] tcs[i] == start
            &&& forall|i: int, j: int|
                preroll <= i && j == i + 1 && j < tcs.len() ==> #[trigger] tcs[j] == successor(
                    #[trigger] tcs[i],
                    fps,
                )
            &&& last_timecode(start, payload_frames, fps) == if tcs.len() > 0 {
                tcs[tcs.len() - 1]
            } else {
                start
            }
        }),
{
}

/// What is asked for is a start and a rate: the start as it is written, and the rate as it is
/// named. The start is in drop-frame just where it is written so. Where either cannot be read, that
/// is what is said; of the start first.
pub proof fn law_start_and_rate_are_read(start: Seq<char>, option: Seq<char>, fps: Seq<char>)
    ensures
        match prepared(start, option, fps) {
            Ok((tc, rate)) => {
                &&& parsed(start) == Ok::<Timecode, Seq<char>>(tc)
                &&& parsed_rate(option, fps, tc.drop_frame) == Ok::<RateSpec, Seq<char>>(rate)
                &&& rate.drop == tc.drop_frame
            },
            Err(m) => parsed(start) == Err::<Timecode, Seq<char>>(m) || (parsed(start) is Ok
                && parsed_rate(option, fps, parsed(start)->Ok_0.drop_frame) == Err::<
                RateSpec,
                Seq<char>,
            >(m)),
        },
{
}

/// The start in the name of a file.
spec fn name_start(tc: Timecode) -> Seq<char> {
    "ltc_"@ + two_digits(tc.hours as nat) + "h"@ + two_digits(tc.minutes as nat) + "m"@ + two_digits(
        tc.seconds as nat,
    ) + "s"@ + two_digits(tc.frames as nat) + "f_"@
}

/// The rate in the name of a file.
spec fn name_rate(rate: RateSpec) -> Seq<char> {
    "s_"@ + dots_replaced(rate_label(rate)) + "fps"@ + (if rate.drop {
        "DF"@
    } else {
        ""@
    })
}

/// The sample rate in the name of a file, and its end.
spec fn name_end(sr: u32) -> Seq<char> {
    "_"@ + decimal(sr as nat) + "Hz.wav"@
}

proof fn lemma_name_parts(tc: Timecode, length: Seq<char>, rate: RateSpec, sr: u32)
    ensures
        file_name(tc, length, rate, sr) == name_start(tc) + dots_replaced(length) + name_rate(rate)
            + name_end(sr),
{
    let a = name_start(tc) + dots_replaced(length);
    let df = if rate.drop {
        "DF"@
    } else {
        ""@
    };
    let label = dots_replaced(rate_label(rate));
    let digits = decimal(sr as nat);
    assert(a + name_rate(rate) =~= a + "s_"@ + label + "fps"@ + df);
    let b = a + name_rate(rate);
    assert(b + name_end(sr) =~= b + "_"@ + digits + "Hz.wav"@);
}

#[verifier::spinoff_prover]
#[verifier::rlimit(40)]
proof fn lemma_name_start(tc: Timecode)
    requires
        tc.hours < 100 && tc.minutes < 100 && tc.seconds < 100 && tc.frames < 100,
    ensures
        ({
            let head = name_start(tc);
            &&& head.len() == 17
            &&& head.subrange(4, 6) == two_digits(tc.hours as nat)
            &&& head.subrange(7, 9) == two_digits(tc.minutes as nat)
            &&& head.subrange(10, 12) == two_digits(tc.seconds as nat)
            &&& head.subrange(13, 15) == two_digits(tc.frames as nat)
            &&& head[6] == 'h' && head[9] == 'm' && head[12] == 's' && head[15] == 'f'
            &&& forall|i: int| 0 <= i < 17 ==> #[trigger] head[i] != '.'
        }),
{
    reveal_strlit("ltc_");
    reveal_strlit("h");
    reveal_strlit("m");
    reveal_strlit("s");
    reveal_strlit("f_");
    let hh = two_digits(tc.hours as nat);
    let mm = two_digits(tc.minutes as nat);
    let ss = two_digits(tc.seconds as nat);
    let ff = two_digits(tc.frames as nat);
    law_two_digits_are_read_back(tc.hours as nat);
    law_two_digits_are_read_back(tc.minutes as nat);
    law_two_digits_are_read_back(tc.seconds as nat);
    law_two_digits_are_read_back(tc.frames as nat);
    let head = name_start(tc);
    assert(head.len() == 17);
    assert(head.subrange(4, 6) =~= hh);
    assert(head.subrange(7, 9) =~= mm);
    assert(head.subrange(10, 12) =~= ss);
    assert(head.subrange(13, 15) =~= ff);
    assert forall|i: int| 0 <= i < 17 implies #[trigger] head[i] != '.' by {
        if 4 <= i < 6 {
            assert(head[i] == hh[i - 4]);
        } else if 7 <= i < 9 {
            assert(head[i] == mm[i - 7]);
        } else if 10 <= i < 12 {
            assert(head[i] == ss[i - 10]);
        } else if 13 <= i < 15 {
            assert(head[i] == ff[i - 13]);
        }
    }
}

/// The name of a file tells its start: two digits for each field, behind which stand h, m, s and f.
#[verifier::spinoff_prover]
#[verifier::rlimit(40)]
pub proof fn law_name_tells_the_start(tc: Timecode, length: Seq<char>, rate: RateSpec, sr: u32)
    requires
        tc.hours < 100 && tc.minutes < 100 && tc.seconds < 100 && tc.frames < 100,
    ensures
        ({
            let name = file_name(tc, length, rate, sr);
            &&& name.len() > 17
            &&& number_value(name.subrange(4, 6)) == Some(tc.hours as nat)
            &&& number_value(name.subrange(7, 9)) == Some(tc.minutes as nat)
            &&& number_value(name.subrange(10, 12)) == Some(tc.seconds as nat)
            &&& number_value(name.subrange(13, 15)) == Some(tc.frames as nat)
            &&& name[6] == 'h' && name[9] == 'm' && name[12] == 's' && name[15] == 'f'
        }),
{
    reveal_strlit("_");
    law_two_digits_are_read_back(tc.hours as nat);
    law_two_digits_are_read_back(tc.minutes as nat);
    law_two_digits_are_read_back(tc.seconds as nat);
    law_two_digits_are_read_back(tc.frames as nat);
    lemma_name_parts(tc, length, rate, sr);
    lemma_name_start(tc);
    let head = name_start(tc);
    let rest = dots_replaced(length) + name_rate(rate) + name_end(sr);
    let name = file_name(tc, length, rate, sr);
    assert(name =~= head + rest);
    assert(name.subrange(4, 6) =~= head.subrange(4, 6));
    assert(name.subrange(7, 9) =~= head.subrange(7, 9));
    assert(name.subrange(10, 12) =~= head.subrange(10, 12));
    assert(name.subrange(13, 15) =~= head.subrange(13, 15));
}

/// Behind the start, the name of a file tells its length, with the letter p for the point, and in
/// the end the sample rate. But for that of ".wav" there is no full stop in it.
#[verifier::spinoff_prover]
#[verifier::rlimit(40)]
pub proof fn law_name_tells_length_and_sample_rate(
    tc: Timecode,
    length: Seq<char>,
    rate: RateSpec,
    sr: u32,
)
    requires
        tc.hours < 100 && tc.minutes < 100 && tc.seconds < 100 && tc.frames < 100,
    ensures
        ({
            let name = file_name(tc, length, rate, sr);
            let n = name.len() as int;
            let k = decimal(sr as nat).len() as int;
            &&& n > 17 + length.len() + k + 6
            &&& forall|i: int|
                0 <= i < length.len() ==> name[17 + i] == if #[trigger] length[i] == '.' {
                    'p'
                } else {
                    length[i]
                }
            &&& name[n - k - 7] == '_'
            &&& number_value(name.subrange(n - k - 6, n - 6)) == Some(sr as nat)
            &&& name.subrange(n - 4, n) == seq!['.', 'w', 'a', 'v']
            &&& forall|i: int| 0 <= i < n - 4 ==> #[trigger] name[i] != '.'
        }),
{
    reveal_strlit("s_");
    reveal_strlit("fps");
    reveal_strlit("DF");
    reveal_strlit("");
    reveal_strlit("_");
    reveal_strlit("Hz.wav");
    law_decimal_is_read_back(sr as nat);
    lemma_name_parts(tc, length, rate, sr);
    lemma_name_start(tc);
    let head = name_start(tc);
    let long = dots_replaced(length);
    let label = dots_replaced(rate_label(rate));
    let middle = name_rate(rate);
    let digits = decimal(sr as nat);
    let tail = name_end(sr);
    let name = file_name(tc, length, rate, sr);
    let n = name.len() as int;
    assert(name.subrange(n - digits.len() - 6, n - 6) =~= digits);
    assert(name.subrange(n - 4, n) =~= seq!['.', 'w', 'a', 'v']);
    assert forall|i: int| 0 <= i < length.len() implies name[17 + i] == if #[trigger] length[i]
        == '.' {
        'p'
    } else {
        length[i]
    } by {
        law_full_stops_are_replaced(length, i);
        assert(name[17 + i] == long[i]);
    }
    assert forall|i: int| 0 <= i < n - 4 implies #[trigger] name[i] != '.' by {
        if i < 17 {
            assert(name[i] == head[i]);
        } else if i < 17 + long.len() {
            law_full_stops_are_replaced(length, i - 17);
            assert(name[i] == long[i - 17]);
        } else if i < 17 + long.len() + middle.len() {
            let j = i - 17 - long.len();
            assert(name[i] == middle[j]);
            if 2 <= j < 2 + label.len() {
                law_full_stops_are_replaced(rate_label(rate), j - 2);
                assert(middle[j] == label[j - 2]);
            }
        } else {
            let j = i - 17 - long.len() - middle.len();
            assert(name[i] == tail[j]);
            if 1 <= j < 1 + digits.len() {
                assert(tail[j] == digits[j - 1]);
            }
        }
    }
}

} // verus!
