use ltc_lab::analyze::{analyze, FileSummary};
use ltc_lab::biphase::encode_bits_to_samples;
use ltc_lab::decoder::{Decoder, Period, WARMUP_INTERVALS};
use ltc_lab::frame::{encode_frame, next_frame, sequence, Timecode};
use ltc_lab::rate::Ratio;
use ltc_lab::tui::decode::DecodePlayer;

const FPS_30: Ratio = Ratio { num: 30, den: 1 };
const FPS_25: Ratio = Ratio { num: 25, den: 1 };
const FPS_24: Ratio = Ratio { num: 24, den: 1 };
const FPS_2997: Ratio = Ratio { num: 30_000, den: 1001 };
const FPS_2398: Ratio = Ratio { num: 24_000, den: 1001 };

/// A slicer and a bit-length estimate in front of the decoder.
struct Reader {
    dc_prev_x: f32,
    dc_prev_y: f32,
    peak: f32,
    sign: bool,
    bit_period: f32,
    dec: Decoder,
}

impl Reader {
    fn new() -> Self {
        Reader {
            dc_prev_x: 0.0,
            dc_prev_y: 0.0,
            peak: 1.0,
            sign: true,
            bit_period: 0.0,
            dec: Decoder::new(),
        }
    }

    fn push_sample(&mut self, x: i16) -> Option<Timecode> {
        let xf = x as f32;
        let y = xf - self.dc_prev_x + 0.9995 * self.dc_prev_y;
        self.dc_prev_x = xf;
        self.dc_prev_y = y;
        if y.abs() > self.peak {
            self.peak = y.abs();
        }
        self.peak *= 0.9999;
        let hyst = self.peak * 0.10;
        if y > hyst {
            self.sign = true;
        } else if y < -hyst {
            self.sign = false;
        }
        let interval = self.dec.push_sign(self.sign)?;
        let whole = interval as f32 >= 0.75 * self.bit_period;
        let step = self.dec.on_interval(interval, whole);
        let target = match step.period {
            Period::Keep => self.bit_period,
            Period::Seed { shortest } => {
                self.bit_period = 2.0 * shortest as f32;
                self.bit_period
            }
            Period::Whole { interval } => interval as f32,
            Period::Halves { first, second } => first as f32 + second as f32,
        };
        self.bit_period += (target - self.bit_period) / 16.0;
        step.timecode
    }
}

fn tc(h: u8, m: u8, s: u8, f: u8, d: bool) -> Timecode {
    Timecode { hours: h, minutes: m, seconds: s, frames: f, drop_frame: d }
}

fn samples_for(start: Timecode, secs: f64, nominal: u8, real: Ratio) -> Vec<i16> {
    let n = (secs * real.num as f64 / real.den as f64).round() as u32;
    let frames: Vec<[bool; 80]> =
        sequence(start, n, nominal).iter().map(|&t| encode_frame(t)).collect();
    encode_bits_to_samples(&frames, 48_000, real, 16_000)
}

fn decode(samples: &[i16]) -> Vec<Timecode> {
    let mut reader = Reader::new();
    samples.iter().filter_map(|&s| reader.push_sample(s)).collect()
}

fn decode_generated(start: Timecode, secs: f64, nominal: u8, real: Ratio) -> Vec<Timecode> {
    decode(&samples_for(start, secs, nominal, real))
}

fn summary_of(samples: &[i16], sample_rate: u32) -> FileSummary {
    analyze(&decode(samples), samples.len(), sample_rate)
}

fn assert_clean(out: &[Timecode], nominal: u8, min_len: usize) {
    assert!(out.len() >= min_len, "recovered only {} frames", out.len());
    for t in out {
        assert!(
            t.hours < 24 && t.minutes < 60 && t.seconds < 60 && t.frames < 30,
            "invalid BCD: {}",
            t.to_string()
        );
    }
    for w in out.windows(2) {
        assert_eq!(
            w[1],
            next_frame(w[0], nominal),
            "continuity break {} -> {}",
            w[0].to_string(),
            w[1].to_string()
        );
    }
}

#[test]
fn roundtrip_30() {
    assert_clean(&decode_generated(tc(1, 0, 0, 0, false), 5.0, 30, FPS_30), 30, 145);
}

#[test]
fn roundtrip_25() {
    assert_clean(&decode_generated(tc(1, 0, 0, 0, false), 5.0, 25, FPS_25), 25, 120);
}

#[test]
fn roundtrip_24() {
    assert_clean(&decode_generated(tc(1, 0, 0, 0, false), 5.0, 24, FPS_24), 24, 110);
}

#[test]
fn roundtrip_2997_drop_noninteger_timing() {
    assert_clean(&decode_generated(tc(0, 0, 0, 0, true), 5.0, 30, FPS_2997), 30, 145);
}

#[test]
fn roundtrip_23976_noninteger_timing() {
    assert_clean(&decode_generated(tc(1, 0, 0, 0, false), 5.0, 24, FPS_2398), 24, 110);
}

#[test]
fn no_drift_on_zero_heavy_start() {
    // 01:00:00:00 starts with many zeros, which are whole bits without a half.
    assert_clean(&decode_generated(tc(1, 0, 0, 0, false), 30.0, 30, FPS_30), 30, 880);
}

#[test]
fn drop_frame_skips_at_normal_minute() {
    let out = decode_generated(tc(1, 0, 58, 0, true), 4.0, 30, FPS_2997);
    assert!(
        out.windows(2).any(|w| w[0] == tc(1, 0, 59, 29, true) && w[1] == tc(1, 1, 0, 2, true)),
        "did not observe ;29 -> ;02 across a normal minute"
    );
}

#[test]
fn drop_frame_no_skip_at_tenth_minute() {
    let out = decode_generated(tc(1, 9, 58, 0, true), 4.0, 30, FPS_2997);
    assert!(
        out.windows(2).any(|w| w[0] == tc(1, 9, 59, 29, true) && w[1] == tc(1, 10, 0, 0, true)),
        "did not observe ;29 -> ;00 at the tenth minute"
    );
}

#[test]
fn infers_30_ndf() {
    let s = summary_of(&samples_for(tc(1, 0, 0, 0, false), 3.0, 30, FPS_30), 48_000);
    assert_eq!(s.nominal_fps, Some(30));
    assert!(!s.drop_frame);
    assert_eq!(s.continuous, Some(true));
    assert_eq!(s.start.unwrap().hours, 1);
    assert_eq!(s.rate_label(), "30");
}

#[test]
fn infers_25() {
    let s = summary_of(&samples_for(tc(1, 0, 0, 0, false), 3.0, 25, FPS_25), 48_000);
    assert_eq!(s.nominal_fps, Some(25));
    assert_eq!(s.rate_label(), "25");
}

#[test]
fn infers_2997_drop() {
    let s = summary_of(&samples_for(tc(0, 0, 0, 0, true), 3.0, 30, FPS_2997), 48_000);
    assert_eq!(s.nominal_fps, Some(30));
    assert!(s.drop_frame);
    assert_eq!(s.continuous, Some(true));
    assert_eq!(s.rate_label(), "29.97 drop");
}

#[test]
fn short_clip_cannot_infer_fps() {
    let s = summary_of(&samples_for(tc(1, 0, 0, 0, false), 0.3, 30, FPS_30), 48_000);
    assert_eq!(s.nominal_fps, None);
    assert_eq!(s.continuous, None);
    assert_eq!(s.rate_label(), "unknown");
}

#[test]
fn decode_player_advances_timecode() {
    let start = tc(1, 0, 0, 0, false);
    let frames: Vec<[bool; 80]> =
        sequence(start, 60, 30).iter().map(|&t| encode_frame(t)).collect();
    let samples = encode_bits_to_samples(&frames, 48_000, FPS_30, 16_000);
    let mut reader = Reader::new();
    let mut p = DecodePlayer::new(samples, 48_000);
    for _ in 0..25 {
        let n = (p.sample_rate as f64 * 0.1) as usize;
        let end = p.next_pos(n);
        let mut decoded: Vec<Timecode> = Vec::new();
        for i in p.pos..end {
            if let Some(t) = reader.push_sample(p.samples[i]) {
                decoded.push(t);
            }
        }
        p.advance(n, &decoded);
    }
    assert!(!p.playing, "should have consumed all samples");
    assert!(p.frames_seen > 50, "expected most frames, got {}", p.frames_seen);
    let t = p.current.expect("should have a current timecode");
    assert!(t.hours == 1 && t.minutes == 0 && t.seconds >= 1, "unexpected {}", t.to_string());
}

#[test]
fn all_but_the_first_and_the_last_frame_are_decoded() {
    for (start, nominal, real) in [
        (tc(1, 0, 0, 0, false), 30u8, FPS_30),
        (tc(10, 0, 59, 20, true), 30, FPS_2997),
        (tc(23, 59, 59, 0, false), 24, FPS_2398),
        (tc(0, 0, 0, 0, false), 25, FPS_25),
    ] {
        let tcs = sequence(start, 40, nominal);
        let frames: Vec<[bool; 80]> = tcs.iter().map(|&t| encode_frame(t)).collect();
        for rate in [32_000u32, 44_100, 48_000, 96_000] {
            let out = decode(&encode_bits_to_samples(&frames, rate, real, 16_000));
            assert_eq!(out, tcs[1..39].to_vec());
        }
    }
}

#[test]
fn silence_gives_nothing() {
    assert!(decode(&[0i16; 10_000]).is_empty());
}

#[test]
fn edges_give_intervals() {
    let mut dec = Decoder::new();
    assert_eq!(dec.push_sign(true), None);
    assert_eq!(dec.push_sign(true), None);
    assert_eq!(dec.samples_since_edge(), 2);
    // The first edge ends no interval that has a beginning.
    assert_eq!(dec.push_sign(false), None);
    assert_eq!(dec.samples_since_edge(), 0);
    assert_eq!(dec.push_sign(false), None);
    assert_eq!(dec.push_sign(false), None);
    assert_eq!(dec.push_sign(true), Some(3));
    assert_eq!(dec.push_sign(false), Some(1));
}

#[test]
fn the_shortest_of_the_first_intervals_seeds_the_bit_length() {
    let mut dec = Decoder::new();
    for k in 0..WARMUP_INTERVALS - 1 {
        let step = dec.on_interval(if k == 7 { 9 } else { 20 }, true);
        assert_eq!(step.period, Period::Keep);
        assert_eq!(step.timecode, None);
    }
    assert_eq!(dec.on_interval(21, false).period, Period::Seed { shortest: 9 });
    assert_eq!(dec.on_interval(20, true).period, Period::Whole { interval: 20 });
    assert_eq!(dec.on_interval(10, false).period, Period::Keep);
    assert_eq!(dec.on_interval(11, false).period, Period::Halves { first: 10, second: 11 });
    // A whole interval drops a half that waits.
    assert_eq!(dec.on_interval(10, false).period, Period::Keep);
    assert_eq!(dec.on_interval(20, true).period, Period::Whole { interval: 20 });
    assert_eq!(dec.on_interval(12, false).period, Period::Keep);
}

#[test]
fn bits_give_a_timecode_where_they_end_in_sync_and_are_in_range() {
    let push_all = |dec: &mut Decoder, bits: &[bool]| -> Vec<Option<Timecode>> {
        bits.iter().map(|&b| dec.push_bit(b)).collect()
    };
    let mut dec = Decoder::new();
    let good = tc(12, 34, 56, 21, true);
    let out = push_all(&mut dec, &encode_frame(good));
    assert!(out[..79].iter().all(|r| r.is_none()));
    assert_eq!(out[79], Some(good));
    for bad in [tc(24, 0, 0, 0, false), tc(0, 60, 0, 0, false), tc(0, 0, 60, 0, false), tc(0, 0, 0, 30, false)] {
        let out = push_all(&mut dec, &encode_frame(bad));
        assert!(out.iter().all(|r| r.is_none()));
    }
    let mut broken = encode_frame(good);
    broken[70] = !broken[70];
    assert!(push_all(&mut dec, &broken).iter().all(|r| r.is_none()));
    assert_eq!(push_all(&mut dec, &encode_frame(good))[79], Some(good));
}

#[test]
fn a_jump_is_not_continuous() {
    let mut frames = sequence(tc(0, 0, 0, 0, false), 60, 30);
    frames.remove(40);
    let s = analyze(&frames, 96_000, 48_000);
    assert_eq!(s.nominal_fps, Some(30));
    assert_eq!(s.continuous, Some(false));
    assert_eq!(s.frame_count, 59);
    assert_eq!(s.start, Some(tc(0, 0, 0, 0, false)));
    assert_eq!(s.end, Some(tc(0, 0, 1, 29, false)));
    assert_eq!((s.samples, s.sample_rate), (96_000, 48_000));
}

#[test]
fn a_run_is_continuous_at_its_rate() {
    for (start, fps) in [(tc(0, 0, 58, 3, true), 30u8), (tc(23, 59, 58, 0, false), 24)] {
        let s = analyze(&sequence(start, 100, fps), 0, 0);
        assert_eq!(s.nominal_fps, Some(fps));
        assert_eq!(s.continuous, Some(true));
    }
}

#[test]
fn a_file_without_timecode_has_an_empty_summary() {
    let s = analyze(&[], 10, 0);
    assert_eq!((s.start, s.end, s.frame_count), (None, None, 0));
    assert_eq!((s.nominal_fps, s.drop_frame, s.continuous), (None, false, None));
}

/// The next of a row of numbers that look random.
fn next_noise(x: u64) -> u64 {
    x.wrapping_mul(6364136223846793005).wrapping_add(1442695040888963407)
}

#[test]
fn noise_gives_nothing_out_of_range() {
    let mut x: u64 = 1;
    let mut noise: Vec<i16> = Vec::new();
    for _ in 0..200_000 {
        x = next_noise(x);
        noise.push((x >> 48) as u16 as i16);
    }
    for t in decode(&noise) {
        assert!(t.hours < 24 && t.minutes < 60 && t.seconds < 60 && t.frames < 30);
    }
    // Whatever the intervals are taken for.
    let mut dec = Decoder::new();
    for _ in 0..200_000 {
        x = next_noise(x);
        if let Some(interval) = dec.push_sign(x >> 63 == 1) {
            if let Some(t) = dec.on_interval(interval, (x >> 62) & 1 == 1).timecode {
                assert!(t.hours < 24 && t.minutes < 60 && t.seconds < 60 && t.frames < 30);
            }
        }
    }
}

#[test]
fn the_earliest_timecode_comes_of_sample_158() {
    // Every sample is an edge; behind the first intervals come 64 zeros and the sync word.
    let mut wholes: Vec<bool> = vec![true; WARMUP_INTERVALS + 64];
    for bit in ltc_lab::frame::SYNC {
        if bit {
            wholes.push(false);
        }
        wholes.push(!bit);
    }
    let mut dec = Decoder::new();
    let mut sign = true;
    let mut intervals: usize = 0;
    for sample in 1..=158usize {
        sign = !sign;
        let out = match dec.push_sign(sign) {
            Some(interval) => {
                assert_eq!(interval, 1);
                intervals += 1;
                dec.on_interval(interval, wholes[intervals - 1]).timecode
            }
            None => None,
        };
        assert_eq!(out, if sample < 158 { None } else { Some(tc(0, 0, 0, 0, false)) });
    }
}

#[test]
fn a_constant_level_gives_nothing() {
    for level in [i16::MIN, -1000, 0, 1000, i16::MAX] {
        assert!(decode(&vec![level; 20_000]).is_empty());
    }
    for sign in [false, true] {
        let mut dec = Decoder::new();
        assert!((0..20_000).all(|_| dec.push_sign(sign).is_none()));
    }
}
