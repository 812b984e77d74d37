use ltc_lab::biphase::{encode_bits_to_samples, signal_fits};
use ltc_lab::frame::{encode_frame, Timecode};
use ltc_lab::rate::Ratio;

fn frame() -> [bool; 80] {
    encode_frame(Timecode { hours: 1, minutes: 0, seconds: 0, frames: 0, drop_frame: false })
}

const FPS_30: Ratio = Ratio { num: 30, den: 1 };
const FPS_2997: Ratio = Ratio { num: 30_000, den: 1001 };

#[test]
fn integer_rate_exact_20_samples_per_bit() {
    let s = encode_bits_to_samples(&[frame()], 48_000, FPS_30, 16_000);
    assert_eq!(s.len(), 80 * 20);
}

#[test]
fn fractional_rate_matches_ideal_length() {
    let frames = vec![frame(); 30];
    let s = encode_bits_to_samples(&frames, 48_000, FPS_2997, 16_000);
    let bits = (frames.len() * 80) as f64;
    let expected = (bits * 48_000.0 / (80.0 * (30_000.0 / 1001.0))).round() as usize;
    assert_eq!(s.len(), expected);
}

#[test]
fn every_bit_starts_with_a_transition() {
    let bits = frame();
    let s = encode_bits_to_samples(&[bits], 48_000, FPS_30, 16_000);
    let mut level: i16 = 16_000;
    for (k, &bit) in bits.iter().enumerate() {
        level = -level;
        assert!(s[20 * k..20 * k + 10].iter().all(|&x| x == level), "bit {k}");
        if bit {
            level = -level;
        }
        assert!(s[20 * k + 10..20 * k + 20].iter().all(|&x| x == level), "bit {k}");
    }
}

#[test]
fn fractional_bits_stay_on_the_ideal_clock() {
    // At 44100 samples a second and 25 frames a second a bit is 22.05 samples long.
    let s = encode_bits_to_samples(&[[false; 80]; 3], 44_100, Ratio { num: 25, den: 1 }, 100);
    let mut edges = vec![0usize];
    for i in 1..s.len() {
        if s[i] != s[i - 1] {
            edges.push(i);
        }
    }
    edges.push(s.len());
    assert_eq!(edges.len(), 241);
    for (k, &e) in edges.iter().enumerate() {
        assert!((e as f64 - k as f64 * 22.05).abs() <= 0.5 + 1e-9, "edge {k} at {e}");
    }
    assert_eq!(&edges[..5], &[0, 22, 44, 66, 88]);
    assert_eq!(edges[10], 221);
}

#[test]
fn samples_at_29_97_match_the_float_clock() {
    let frames = vec![frame(); 40];
    let s = encode_bits_to_samples(&frames, 48_000, FPS_2997, 16_000);
    let spb = 48_000.0 / (80.0 * (30_000.0 / 1001.0));
    let mut expected: Vec<i16> = Vec::new();
    let mut level: i16 = 16_000;
    let mut k: u64 = 0;
    for f in &frames {
        for &bit in f.iter() {
            let mid = ((k as f64 + 0.5) * spb).round() as usize;
            let end = ((k as f64 + 1.0) * spb).round() as usize;
            level = -level;
            if bit {
                expected.resize(mid, level);
                level = -level;
            }
            expected.resize(end, level);
            k += 1;
        }
    }
    assert_eq!(s, expected);
}

#[test]
fn no_frames_give_no_samples() {
    assert!(encode_bits_to_samples(&[], 48_000, FPS_30, i16::MIN).is_empty());
    assert!(encode_bits_to_samples(&[frame()], 0, FPS_30, 1).is_empty());
}

#[test]
fn a_signal_that_is_too_long_is_known_beforehand() {
    assert!(signal_fits(100, 48_000, FPS_30));
    assert!(signal_fits(0, u32::MAX, Ratio { num: 1, den: u32::MAX }));
    assert!(!signal_fits(usize::MAX, u32::MAX, Ratio { num: 1, den: u32::MAX }));
}

#[test]
fn the_signal_of_the_first_frames_is_a_prefix() {
    let frames: Vec<[bool; 80]> = (0..5u8)
        .map(|f| {
            encode_frame(Timecode { hours: 9, minutes: 8, seconds: 7, frames: f, drop_frame: true })
        })
        .collect();
    let all = encode_bits_to_samples(&frames, 44_100, FPS_2997, 16_000);
    for n in 0..=5 {
        let first = encode_bits_to_samples(&frames[..n], 44_100, FPS_2997, 16_000);
        assert_eq!(first, all[..first.len()]);
        assert_eq!(first.is_empty(), n == 0);
    }
}

#[test]
fn the_negated_amplitude_gives_the_negated_signal() {
    let frames = vec![frame(); 2];
    let signal = encode_bits_to_samples(&frames, 48_000, FPS_2997, 123);
    let negated = encode_bits_to_samples(&frames, 48_000, FPS_2997, -123);
    assert_eq!(negated, signal.iter().map(|&x| -x).collect::<Vec<i16>>());
}
