use ltc_lab::frame::{
    checked_sequence, decode_frame, encode_frame, get_field, has_next, next_frame, sequence, set_field,
    Timecode, SYNC,
};

fn tc(h: u8, m: u8, s: u8, f: u8, d: bool) -> Timecode {
    Timecode { hours: h, minutes: m, seconds: s, frames: f, drop_frame: d }
}

#[test]
fn bcd_field_placement() {
    // frames = 23: units 3 in bits 0 to 3, low bit first, tens 2 in bits 8 and 9.
    let b = encode_frame(tc(0, 0, 0, 23, false));
    assert_eq!(&b[0..4], &[true, true, false, false]);
    assert_eq!(&b[8..10], &[false, true]);
}

#[test]
fn sync_word_present() {
    assert_eq!(&encode_frame(tc(1, 2, 3, 4, false))[64..80], &SYNC[..]);
}

#[test]
fn frame_layer_roundtrip_sweep() {
    for h in [0u8, 1, 12, 23] {
        for m in [0u8, 7, 59] {
            for s in [0u8, 30, 59] {
                for f in [0u8, 15, 29] {
                    let t = tc(h, m, s, f, false);
                    assert_eq!(decode_frame(&encode_frame(t)), t, "roundtrip {}", t.to_string());
                }
            }
        }
    }
}

#[test]
fn parse_and_display() {
    assert_eq!(Timecode::parse("01:02:03:04").unwrap(), tc(1, 2, 3, 4, false));
    assert!(Timecode::parse("01:02:03;04").unwrap().drop_frame);
    assert_eq!(tc(1, 2, 3, 4, false).to_string(), "01:02:03:04");
    assert_eq!(tc(1, 2, 3, 4, true).to_string(), "01:02:03;04");
}

#[test]
fn ndf_no_skip_at_minute() {
    assert_eq!(next_frame(tc(1, 0, 59, 29, false), 30), tc(1, 1, 0, 0, false));
}

#[test]
fn df_skips_at_normal_minute() {
    assert_eq!(next_frame(tc(1, 0, 59, 29, true), 30), tc(1, 1, 0, 2, true));
    assert_eq!(next_frame(tc(1, 1, 59, 29, true), 30), tc(1, 2, 0, 2, true));
}

#[test]
fn df_no_skip_at_tenth_minute() {
    assert_eq!(next_frame(tc(1, 9, 59, 29, true), 30), tc(1, 10, 0, 0, true));
    assert_eq!(next_frame(tc(1, 19, 59, 29, true), 30), tc(1, 20, 0, 0, true));
}

#[test]
fn df_no_skip_within_second_or_nonminute_rollover() {
    assert_eq!(next_frame(tc(1, 5, 10, 15, true), 30), tc(1, 5, 10, 16, true));
    assert_eq!(next_frame(tc(1, 5, 10, 29, true), 30), tc(1, 5, 11, 0, true));
}

#[test]
fn df_ten_minute_realignment() {
    // Ten minutes of 29.97 drop-frame are exactly 17982 frame numbers.
    let mut t = tc(0, 0, 0, 0, true);
    for _ in 0..17982 {
        t = next_frame(t, 30);
    }
    assert_eq!(t, tc(0, 10, 0, 0, true));
}

#[test]
fn the_number_of_zeros_is_even() {
    for f in 0..30 {
        let b = encode_frame(tc(1, 2, 3, f, f % 2 == 0));
        assert_eq!(b.iter().filter(|&&x| !x).count() % 2, 0);
    }
}

#[test]
fn exact_bits_of_a_frame() {
    // 12:34:56;21
    let b = encode_frame(tc(12, 34, 56, 21, true));
    let expected: Vec<usize> = vec![
        0, 9, 10, // 21 frames, drop-frame
        17, 18, 24, 26, // 56 seconds
        34, 40, 41, // 34 minutes
        49, 56, // 12 hours
        66, 67, 68, 69, 70, 71, 72, 73, 74, 75, 76, 77, 79, // the sync word
    ];
    let mut set: Vec<usize> = (0..80).filter(|&i| b[i]).collect();
    set.retain(|&i| i != 27);
    assert_eq!(set, expected);
    assert_eq!(b[27], expected.len() % 2 == 1);
}

#[test]
fn fields_are_low_bit_first() {
    let mut b = [false; 80];
    set_field(&mut b, 3, 4, 0b0110);
    assert_eq!(&b[2..8], &[false, false, true, true, false, false]);
    assert_eq!(get_field(&b, 3, 4), 6);
    assert_eq!(get_field(&b, 4, 8), 3);
    // Only the low bits are written.
    set_field(&mut b, 0, 2, 0xff);
    assert_eq!(&b[0..3], &[true, true, false]);
}

#[test]
fn values_too_large_for_their_field_are_cut() {
    // The hours' tens have two bits: 4 is cut to 0.
    assert_eq!(decode_frame(&encode_frame(tc(45, 0, 0, 0, false))), tc(5, 0, 0, 0, false));
    assert_eq!(decode_frame(&encode_frame(tc(39, 79, 79, 39, true))), tc(39, 79, 79, 39, true));
}

#[test]
fn parse_errors_say_what_is_wrong() {
    let err = |s: &str| Timecode::parse(s).unwrap_err();
    assert_eq!(err("nope"), "expected HH:MM:SS:FF, got \"nope\"");
    assert_eq!(err("1:2:3"), "expected HH:MM:SS:FF, got \"1:2:3\"");
    assert_eq!(err("1:2:3:4:5"), "expected HH:MM:SS:FF, got \"1:2:3:4:5\"");
    assert_eq!(err(""), "expected HH:MM:SS:FF, got \"\"");
    assert_eq!(err("1:2:x\t:256"), "bad field \"x\\t\"");
    assert_eq!(err("1:2:3:256"), "bad field \"256\"");
    assert_eq!(err(":2:3:4"), "bad field \"\"");
    assert_eq!(err("1:-2:3:4"), "bad field \"-2\"");
    assert_eq!(err("1:2 :3:é"), "bad field \"2 \"");
}

#[test]
fn parse_takes_any_number_up_to_255() {
    assert_eq!(Timecode::parse("1:2:3:4"), Ok(tc(1, 2, 3, 4, false)));
    assert_eq!(Timecode::parse("255:099:0003:+7"), Ok(tc(255, 99, 3, 7, false)));
    assert_eq!(Timecode::parse("1;2:3:4"), Ok(tc(1, 2, 3, 4, true)));
    assert_eq!(Timecode::parse("01;02;03;04"), Ok(tc(1, 2, 3, 4, true)));
}

#[test]
fn parse_reads_what_to_string_writes() {
    for t in [tc(0, 0, 0, 0, false), tc(23, 59, 59, 29, true), tc(255, 100, 99, 10, true)] {
        assert_eq!(Timecode::parse(&t.to_string()), Ok(t));
    }
    assert_eq!(tc(255, 100, 99, 10, true).to_string(), "255:100:99;10");
}

#[test]
fn midnight_wraps() {
    assert_eq!(next_frame(tc(23, 59, 59, 24, false), 25), tc(0, 0, 0, 0, false));
    assert_eq!(next_frame(tc(23, 59, 59, 29, true), 30), tc(0, 0, 0, 0, true));
}

#[test]
fn a_day_has_its_number_of_frames() {
    for (drop, fps, day) in [(false, 24u8, 2_073_600u32), (true, 30, 2_589_408)] {
        let start = tc(12, 34, 56, 7, drop);
        let mut t = start;
        for k in 0..day {
            assert!(k == 0 || t != start);
            t = next_frame(t, fps);
        }
        assert_eq!(t, start);
    }
}

#[test]
fn sequences_start_at_the_start() {
    assert!(sequence(tc(1, 0, 0, 0, false), 0, 30).is_empty());
    assert_eq!(
        sequence(tc(0, 0, 59, 28, true), 4, 30),
        vec![
            tc(0, 0, 59, 28, true),
            tc(0, 0, 59, 29, true),
            tc(0, 1, 0, 2, true),
            tc(0, 1, 0, 3, true)
        ]
    );
}

#[test]
fn counting_stops_where_a_field_is_full() {
    assert!(has_next(tc(0, 0, 0, 254, false), 255));
    assert!(!has_next(tc(0, 0, 0, 255, false), 30));
    assert!(has_next(tc(255, 0, 0, 0, false), 30));
    assert!(checked_sequence(tc(0, 0, 0, 255, false), 2, 30).is_none());
    assert_eq!(
        checked_sequence(tc(0, 0, 0, 0, false), 3, 2),
        Some(vec![tc(0, 0, 0, 0, false), tc(0, 0, 0, 1, false), tc(0, 0, 1, 0, false)])
    );
}

#[test]
fn every_frame_has_a_one_before_its_sync_word() {
    let b = encode_frame(tc(0, 0, 0, 0, false));
    assert_eq!((0..64).filter(|&i| b[i]).collect::<Vec<_>>(), vec![27]);
    let b = encode_frame(tc(0, 0, 0, 0, true));
    assert_eq!((0..64).filter(|&i| b[i]).collect::<Vec<_>>(), vec![10]);
}

#[test]
fn drop_frame_keeps_time_all_day() {
    let mut t = tc(0, 0, 0, 0, true);
    for i in 0..2_589_408i64 {
        let seconds = (t.hours as i64 * 60 + t.minutes as i64) * 60 + t.seconds as i64;
        let off = 1001 * i - 1000 * (seconds * 30 + t.frames as i64);
        assert!(-5000 < off && off < 2000, "{} is off by {off}", t.to_string());
        t = next_frame(t, 30);
    }
}
