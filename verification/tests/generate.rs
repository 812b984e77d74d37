use ltc_lab::frame::Timecode;
use ltc_lab::generate::{default_name, generate, prepare, GenReport};
use ltc_lab::rate::{parse_rate, Ratio};
use ltc_lab::wav::{encode_wav_mono16, parse_wav};

fn tc(h: u8, m: u8, s: u8, f: u8, d: bool) -> Timecode {
    Timecode { hours: h, minutes: m, seconds: s, frames: f, drop_frame: d }
}

/// Generates `length` seconds, and gives the report and the file.
fn generate_file(
    start: &str,
    length: f64,
    fps: &str,
    sample_rate: u32,
    preroll: u32,
    out: &str,
) -> Result<(GenReport, Vec<u8>), String> {
    let (start, rate) = prepare(start, fps)?;
    let payload_frames = (length * rate.real.num as f64 / rate.real.den as f64).round() as u32;
    let g = generate(start, rate, payload_frames, preroll, sample_rate).ok_or("too long")?;
    let file = encode_wav_mono16(&g.samples, sample_rate);
    let report = GenReport {
        path: out.to_string(),
        start,
        end: g.end,
        rate,
        payload_frames,
        samples: g.samples.len(),
    };
    Ok((report, file))
}

#[test]
fn generates_and_reports() {
    let (r, file) =
        generate_file("01:00:00:00", 1.0, "30", 48_000, 0, "ltc_lab_gentest.wav").unwrap();
    assert_eq!(r.payload_frames, 30);
    assert_eq!(r.end, tc(1, 0, 0, 29, false));
    assert_eq!(r.path, "ltc_lab_gentest.wav");
    assert_eq!((r.start, r.rate.nominal, r.samples), (tc(1, 0, 0, 0, false), 30, 48_000));
    let (samples, sr) = parse_wav(&file).unwrap();
    assert_eq!((samples.len(), sr), (48_000, 48_000));
}

#[test]
fn bad_start_errors() {
    assert!(generate_file("nope", 1.0, "30", 48_000, 0, "x.wav").is_err());
}

#[test]
fn the_start_counts_as_the_rate_does() {
    let (start, rate) = prepare("01:00:00;00", "30").unwrap();
    assert_eq!(start, tc(1, 0, 0, 0, true));
    assert_eq!((rate.nominal, rate.real, rate.drop), (30, Ratio { num: 30_000, den: 1001 }, true));
    assert_eq!(prepare("01:00:00:00", "29.97").unwrap().0, tc(1, 0, 0, 0, false));
    assert_eq!(
        prepare("01:00:00;00", "25").unwrap_err(),
        "drop-frame (';') is only defined for 29.97, not 25 fps"
    );
    assert_eq!(prepare("x", "25").unwrap_err(), "expected HH:MM:SS:FF, got \"x\"");
}

#[test]
fn preroll_repeats_the_start() {
    let rate = parse_rate("25", false).unwrap();
    let start = tc(0, 0, 59, 24, false);
    let plain = generate(start, rate, 2, 0, 48_000).unwrap();
    let rolled = generate(start, rate, 2, 3, 48_000).unwrap();
    assert_eq!(plain.end, tc(0, 1, 0, 0, false));
    assert_eq!(rolled.end, plain.end);
    assert_eq!(plain.samples.len(), 2 * 1920);
    assert_eq!(rolled.samples.len(), 5 * 1920);
    // A frame has an even number of zeros, so each starts at the same level as the one before.
    assert_eq!(rolled.samples[..1920], plain.samples[..1920]);
    assert_eq!(rolled.samples[1920..2 * 1920], plain.samples[..1920]);
    assert_eq!(rolled.samples[3 * 1920..], plain.samples[..]);
}

#[test]
fn nothing_to_generate_ends_at_the_start() {
    let rate = parse_rate("24", false).unwrap();
    let g = generate(tc(3, 0, 0, 0, false), rate, 0, 0, 48_000).unwrap();
    assert_eq!(g.end, tc(3, 0, 0, 0, false));
    assert!(g.samples.is_empty());
}

#[test]
fn what_cannot_be_counted_is_not_generated() {
    let rate = parse_rate("30", false).unwrap();
    assert!(generate(tc(0, 0, 0, 255, false), rate, 2, 0, 48_000).is_none());
}

#[test]
fn file_names_say_what_is_inside() {
    assert_eq!(
        default_name(tc(1, 0, 0, 0, false), "10", &parse_rate("30", false).unwrap(), 48_000),
        "ltc_01h00m00s00f_10s_30fps_48000Hz.wav"
    );
    assert_eq!(
        default_name(tc(1, 2, 3, 14, true), "2.5", &parse_rate("29.97", true).unwrap(), 44_100),
        "ltc_01h02m03s14f_2p5s_29p97fpsDF_44100Hz.wav"
    );
}
