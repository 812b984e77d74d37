use ltc_lab::cli::{
    command, decoded_text, flags, generate_request, generated_text, get_str, get_u32, listing,
    positional, Command, Readout,
};
use ltc_lab::frame::{sequence, Timecode};
use ltc_lab::generate::GenReport;
use ltc_lab::rate::parse_rate;

fn args(list: &[&str]) -> Vec<String> {
    list.iter().map(|s| s.to_string()).collect()
}

fn tc(h: u8, m: u8, s: u8, f: u8, d: bool) -> Timecode {
    Timecode { hours: h, minutes: m, seconds: s, frames: f, drop_frame: d }
}

#[test]
fn options_take_the_argument_behind_them() {
    let m = flags(&args(&["--fps", "25", "x", "--out", "--fps", "--rate"]));
    assert_eq!(m.get("fps"), Some("25".to_string()));
    assert_eq!(m.get("out"), Some("--fps".to_string()));
    assert_eq!(m.get("rate"), None);
    assert_eq!(m.get("x"), None);
}

#[test]
fn of_two_values_the_later_counts() {
    let m = flags(&args(&["--fps", "25", "--fps", "30"]));
    assert_eq!(get_str(&m, "fps", "24"), "30");
    assert_eq!(get_str(&m, "start", "01:00:00:00"), "01:00:00:00");
}

#[test]
fn numbers_fall_back() {
    let m = flags(&args(&[
        "--a", "12", "--b", "x", "--c", "4294967295", "--d", "4294967296", "--e", "+7", "--f", "-1",
    ]));
    assert_eq!(get_u32(&m, "a", 1), 12);
    assert_eq!(get_u32(&m, "b", 1), 1);
    assert_eq!(get_u32(&m, "c", 1), u32::MAX);
    assert_eq!(get_u32(&m, "d", 1), 1);
    assert_eq!(get_u32(&m, "e", 1), 7);
    assert_eq!(get_u32(&m, "f", 1), 1);
    assert_eq!(get_u32(&m, "g", 1), 1);
}

#[test]
fn the_first_argument_that_is_no_option_is_positional() {
    assert_eq!(positional(&args(&["--x", "a.wav", "b.wav"])), Some("a.wav".to_string()));
    assert_eq!(positional(&args(&["--x", "--"])), None);
    assert_eq!(positional(&[]), None);
}

#[test]
fn commands_are_told_apart() {
    assert!(matches!(command(&[]), Command::Help));
    assert!(matches!(command(&args(&["-h"])), Command::Help));
    assert!(matches!(command(&args(&["--help", "x"])), Command::Help));
    assert!(matches!(command(&args(&["decode-file"])), Command::DecodeNoFile));
    assert!(matches!(command(&args(&["decode-file", "a b.wav"])), Command::DecodeFile(p) if p == "a b.wav"));
    assert!(matches!(command(&args(&["listen"])), Command::Listen(30)));
    assert!(matches!(command(&args(&["listen", "--fps", "25"])), Command::Listen(25)));
    assert!(matches!(command(&args(&["encode"])), Command::Unknown(c) if c == "encode"));
    match command(&args(&["generate", "--rate", "8000"])) {
        Command::Generate(f) => assert_eq!(f.get("rate"), Some("8000".to_string())),
        _ => panic!("expected generate"),
    }
}

#[test]
fn generate_has_its_defaults() {
    let r = generate_request(&flags(&[])).ok().unwrap();
    assert_eq!(r.start, tc(1, 0, 0, 0, false));
    assert_eq!((r.rate.nominal, r.rate.drop), (30, false));
    assert_eq!((r.preroll, r.sample_rate), (0, 48_000));
    assert!(r.out.is_none());
}

#[test]
fn generate_reads_its_options() {
    let r = generate_request(&flags(&args(&[
        "--start", "02:00:00;00", "--rate", "44100", "--preroll", "5", "--out", "o.wav",
    ])))
    .ok()
    .unwrap();
    assert_eq!(r.start, tc(2, 0, 0, 0, true));
    assert!(r.rate.drop);
    assert_eq!((r.preroll, r.sample_rate), (5, 44_100));
    assert_eq!(r.out, Some("o.wav".to_string()));
    let e = generate_request(&flags(&args(&["--fps", "50"]))).err().unwrap();
    assert_eq!(e, "unsupported --fps \"50\" (try 24, 25, 30, 29.97, 23.976)");
}

#[test]
fn long_lists_are_cut_in_the_middle() {
    let start = tc(0, 0, 0, 0, false);
    assert!(listing(&[]).is_empty());
    assert_eq!(listing(&sequence(start, 2, 30)), args(&["  00:00:00:00", "  00:00:00:01"]));
    assert_eq!(listing(&sequence(start, 6, 30)).len(), 6);
    assert_eq!(
        listing(&sequence(start, 8, 30)),
        args(&[
            "  00:00:00:00",
            "  00:00:00:01",
            "  00:00:00:02",
            "  ...",
            "  00:00:00:05",
            "  00:00:00:06",
            "  00:00:00:07"
        ])
    );
}

#[test]
fn a_readout_shows_each_text_once() {
    let mut r = Readout::new();
    assert_eq!(r.show(tc(1, 0, 0, 0, false)), Some("01:00:00:00".to_string()));
    assert_eq!(r.show(tc(1, 0, 0, 0, false)), None);
    assert_eq!(r.show(tc(1, 0, 0, 0, true)), Some("01:00:00;00".to_string()));
    assert_eq!(r.show(tc(1, 0, 0, 0, false)), Some("01:00:00:00".to_string()));
}

#[test]
fn a_generated_file_is_reported() {
    let mut r = GenReport {
        path: "a.wav".to_string(),
        start: tc(1, 0, 0, 0, true),
        end: tc(1, 0, 9, 29, true),
        rate: parse_rate("29.97", true).unwrap(),
        payload_frames: 300,
        samples: 480_480,
    };
    assert_eq!(
        generated_text(&r, "10.01", 2, 48_000),
        "wrote a.wav\n  01:00:00;00 -> 01:00:09;29  (10.01s, 29.97 fps drop, 48000 Hz)\n  \
         300 payload frames (+2 preroll), 480480 samples"
    );
    r.rate = parse_rate("25", false).unwrap();
    assert!(generated_text(&r, "10", 0, 8000).contains("(10s, 25 fps, 8000 Hz)"));
}

#[test]
fn a_decoded_file_is_reported() {
    assert_eq!(decoded_text("x y.wav", 12, 44_100), "x y.wav: 12 frames at 44100 Hz");
}
