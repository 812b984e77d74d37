use ltc_lab::analyze::analyze;
use ltc_lab::frame::{sequence, Timecode};
use ltc_lab::rate::PRESETS;
use ltc_lab::tui::audio::{
    block_peak, default_position, feed, fill_output, offer, output_rate, RateRange,
};
use ltc_lab::tui::decode::{
    current_text, detail_rows, DecodePlayer, DecodeScreen, Playback, ScreenAction,
};
use ltc_lab::tui::generate::GenForm;
use ltc_lab::tui::keys::{Key, Picker};
use ltc_lab::tui::live::{
    big_text_fits, big_text_layout, Cells, GlyphSize, LiveAction, LiveScreen,
};
use ltc_lab::tui::{tick_is_due, wait_nanos, App, AppAction, TabId, TICK_NANOS};

fn tc(h: u8, m: u8, s: u8, f: u8, d: bool) -> Timecode {
    Timecode { hours: h, minutes: m, seconds: s, frames: f, drop_frame: d }
}

fn names(list: &[&str]) -> Vec<String> {
    list.iter().map(|s| s.to_string()).collect()
}

fn type_text(g: &mut GenForm, text: &str) {
    for c in text.chars() {
        assert!(!g.handle_key(Key::Char(c)));
    }
}

#[test]
fn gen_form_text_editing() {
    let mut g = GenForm::new();
    g.focus = 0;
    g.start.clear();
    for c in "12:00:00:00".chars() {
        g.input_char(c);
    }
    assert_eq!(g.start, "12:00:00:00");
    g.backspace();
    assert_eq!(g.start, "12:00:00:0");
}

#[test]
fn gen_form_focus_wraps() {
    let mut g = GenForm::new();
    g.focus = 0;
    g.focus_prev();
    assert_eq!(g.focus, GenForm::N - 1);
    g.focus_next();
    assert_eq!(g.focus, 0);
}

#[test]
fn gen_form_fps_cycles_and_ignores_typing() {
    let mut g = GenForm::new();
    g.focus = 2;
    let before = g.fps_idx;
    g.input_char('9');
    assert_eq!(g.fps_idx, before);
    g.cycle_fps(true);
    assert_eq!(g.fps_idx, (before + 1) % PRESETS.len());
}

#[test]
fn gen_form_is_sent_with_enter() {
    let mut g = GenForm::new();
    assert_eq!(g.status, "edit fields, Enter to write");
    type_text(&mut g, " ");
    g.handle_key(Key::Down);
    type_text(&mut g, ".5 ");
    assert_eq!(g.length_text(), "10.5");
    g.handle_key(Key::Down);
    g.handle_key(Key::Left);
    g.handle_key(Key::Left);
    g.handle_key(Key::Left);
    g.handle_key(Key::Backspace);
    g.handle_key(Key::Down);
    g.handle_key(Key::Left);
    for _ in 0..9 {
        g.handle_key(Key::Backspace);
    }
    type_text(&mut g, " 8000 ");
    assert!(g.handle_key(Key::Enter));
    let r = g.submit(true).unwrap();
    assert_eq!((r.start.as_str(), r.fps, r.rate), ("01:00:00:00", "23.976", 8000));
    assert_eq!(g.field(0), ("start", "01:00:00:00 ".to_string()));
    assert_eq!(g.field(1), ("length (s)", "10.5 ".to_string()));
    assert_eq!(g.field(2), ("fps", "23.976".to_string()));
    assert_eq!(g.field(3), ("sample rate", " 8000 ".to_string()));
    g.wrote("a.wav", 252);
    assert_eq!(g.status, "wrote a.wav (252 frames)");
    g.failed("no space");
    assert_eq!(g.status, "error: no space");
}

#[test]
fn gen_form_says_which_field_is_bad() {
    let mut g = GenForm::new();
    g.length = "ten\"".to_string();
    g.rate = "4 8".to_string();
    assert!(g.submit(false).is_none());
    assert_eq!(g.status, "bad length: \"ten\\\"\"");
    assert!(g.submit(true).is_none());
    assert_eq!(g.status, "bad rate: \"4 8\"");
    g.rate = "\u{2003}48000\n".to_string();
    assert_eq!(g.submit(true).unwrap().rate, 48_000);
}

#[test]
fn pickers_stop_at_the_ends() {
    let mut p = Picker::new(names(&["a", "b"]));
    assert_eq!(p.selected(), Some(0));
    p.up();
    assert_eq!(p.selected(), Some(0));
    p.down();
    p.down();
    assert_eq!(p.selected(), Some(1));
    let mut none = Picker::new(Vec::new());
    none.down();
    assert_eq!(none.selected(), None);
}

#[test]
fn player_steps_add_up() {
    let one = tc(0, 0, 0, 1, false);
    let two = tc(0, 0, 0, 2, false);
    let mut a = DecodePlayer::new(vec![0; 10], 8000);
    a.advance(3, &[one]);
    assert_eq!((a.pos, a.current, a.frames_seen, a.playing), (3, Some(one), 1, true));
    a.advance(4, &[two]);
    let mut b = DecodePlayer::new(vec![0; 10], 8000);
    b.advance(7, &[one, two]);
    assert_eq!((a.pos, a.current, a.frames_seen), (b.pos, b.current, b.frames_seen));
    assert_eq!(b.next_pos(100), 10);
    b.advance(100, &[]);
    assert_eq!((b.pos, b.current, b.playing), (10, Some(two), false));
    b.playing = true;
    b.advance(1, &[one]);
    assert_eq!((b.pos, b.frames_seen, b.playing), (10, 2, true));
    b.reset();
    assert_eq!((b.pos, b.current, b.frames_seen, b.playing), (0, None, 0, true));
}

#[test]
fn decode_screen_loads_and_unloads() {
    let mut d = DecodeScreen::new();
    assert_eq!(d.status, "enter a .wav path, Enter to load");
    for c in " a.wavv".chars() {
        assert!(matches!(d.handle_key(Key::Char(c)), ScreenAction::Nothing));
    }
    d.handle_key(Key::Backspace);
    match d.handle_key(Key::Enter) {
        ScreenAction::Load(path) => assert_eq!(path, "a.wav"),
        _ => panic!("expected a file to load"),
    }
    d.load_failed("no such file");
    assert_eq!(d.status, "load failed: no such file");
    assert_eq!(d.state_label(true, true), "no file");
    let frames = sequence(tc(0, 0, 0, 0, false), 4, 30);
    d.loaded(vec![0; 100], 48_000, analyze(&frames, 100, 48_000));
    assert_eq!(d.status, "loaded 100 samples @ 48000 Hz");
    assert_eq!(d.state_label(true, false), "playing");
    d.handle_key(Key::Char(' '));
    assert_eq!(d.state_label(true, true), "paused");
    assert_eq!(d.timecode_label(), "--:--:--:--");
    if let Playback::Paced(p) = &mut d.playback {
        p.playing = true;
        p.advance(10, &frames);
    }
    assert_eq!(d.timecode_label(), "00:00:00:03");
    assert!(matches!(d.handle_key(Key::Char('r')), ScreenAction::RestartDecoder));
    assert_eq!(d.timecode_label(), "--:--:--:--");
    assert!(d.summary.is_some());
    d.handle_key(Key::Backspace);
    assert!(matches!(d.playback, Playback::NoFile));
    assert!(d.summary.is_none());
    assert_eq!((d.path.as_str(), d.status.as_str()), (" a.wav", "enter a .wav path, Enter to load"));
}

#[test]
fn decode_screen_plays_on_a_device() {
    let mut d = DecodeScreen::new();
    d.loaded_for(names(&["out", "line"]), vec![0; 5], 8000, analyze(&[], 5, 8000));
    assert_eq!(d.status, "Up/Down: output device   Enter: play");
    d.handle_key(Key::Down);
    assert!(matches!(d.handle_key(Key::Enter), ScreenAction::Play(1)));
    d.play_failed("busy");
    assert_eq!(d.status, "play failed: busy");
    d.play_started(1, None);
    assert_eq!(d.status, "playing on \"line\"");
    assert_eq!(d.state_label(false, true), "playing");
    assert_eq!(d.state_label(false, false), "paused");
    assert_eq!(d.state_label(true, false), "finished");
    d.polled(Some(tc(1, 2, 3, 4, true)));
    d.polled(None);
    assert_eq!(d.timecode_label(), "01:02:03;04");
    assert!(matches!(d.handle_key(Key::Char(' ')), ScreenAction::TogglePlaying));
    assert!(matches!(d.handle_key(Key::Char('r')), ScreenAction::Play(1)));
    d.play_started(0, Some("slow"));
    assert_eq!(d.status, "playing on \"out\" — slow");
    assert_eq!(d.timecode_label(), "--:--:--:--");
    d.loaded_for(Vec::new(), Vec::new(), 8000, analyze(&[], 0, 8000));
    assert_eq!(d.status, "no output devices found");
    assert!(matches!(d.handle_key(Key::Enter), ScreenAction::Nothing));
}

#[test]
fn details_of_a_file() {
    let rows = |frames: &[Timecode]| -> Vec<String> {
        let s = analyze(frames, 96_000, 48_000);
        detail_rows(&s, "00:02.000").into_iter().map(|(k, v)| format!("{k}: {v}")).collect()
    };
    let frames = sequence(tc(0, 0, 0, 0, false), 60, 30);
    assert_eq!(
        rows(&frames),
        names(&[
            "start: 00:00:00:00",
            "end: 00:00:01:29",
            "frames: 60",
            "rate: 30 fps",
            "duration: 00:02.000",
            "sample rate: 48000 Hz",
            "continuous: yes"
        ])
    );
    assert_eq!(rows(&[frames[0], frames[59], frames[30]])[6], "continuous: no (jumps)");
    assert_eq!(rows(&[])[0], "start: —");
    assert_eq!(rows(&[])[3], "rate: unknown fps");
    assert_eq!(rows(&[])[6], "continuous: —");
    assert_eq!(current_text(None), "--:--:--:--");
}

#[test]
fn live_screen_starts_and_stops() {
    let mut l = LiveScreen::new(names(&["mic", "line"]));
    assert_eq!(l.status, "Up/Down: device   Enter/Space: start");
    assert_eq!(l.state_label(), "stopped");
    l.handle_key(Key::Down);
    assert_eq!(l.handle_key(Key::Char(' ')), LiveAction::Start(1));
    l.start_failed("busy");
    assert_eq!(l.status, "start failed: busy");
    l.polled(Some(tc(0, 0, 0, 1, false)));
    assert_eq!(l.timecode_label(), "--:--:--:--");
    l.started(1);
    assert_eq!(l.status, "listening on \"line\"  (Space: stop)");
    assert_eq!(l.state_label(), "waiting for signal…");
    l.polled(Some(tc(0, 0, 0, 1, false)));
    l.polled(None);
    assert_eq!(l.state_label(), "locked");
    assert_eq!(l.handle_key(Key::Enter), LiveAction::Nothing);
    assert_eq!(l.handle_key(Key::Esc), LiveAction::Stop);
    assert_eq!(l.status, "stopped   Up/Down: device   Enter/Space: start");
    assert_eq!(l.timecode_label(), "00:00:00:01");
    assert_eq!(l.handle_key(Key::Char('r')), LiveAction::Refresh);
    l.refresh(Vec::new());
    assert_eq!(l.status, "no input devices found");
    l.status.clear();
    assert_eq!(l.handle_key(Key::Enter), LiveAction::Nothing);
    assert_eq!(l.status, "no input devices found");
}

#[test]
fn big_text_takes_the_largest_size_that_fits() {
    let area = |width, height| Cells { x: 2, y: 3, width, height };
    assert_eq!(
        big_text_layout(11, area(100, 20)),
        (GlyphSize::Full, Cells { x: 8, y: 9, width: 88, height: 8 })
    );
    assert_eq!(
        big_text_layout(11, area(87, 8)),
        (GlyphSize::HalfWidth, Cells { x: 23, y: 3, width: 44, height: 8 })
    );
    assert_eq!(
        big_text_layout(11, area(43, 3)),
        (GlyphSize::Quadrant, Cells { x: 2, y: 3, width: 43, height: 3 })
    );
}

#[test]
fn big_text_needs_room_in_its_coordinates() {
    let area = |x, y, width, height| Cells { x, y, width, height };
    assert!(big_text_fits(11, area(0, 0, 100, 20)));
    // The text is as wide and as high as the area, so it starts where the area does.
    assert!(big_text_fits(11, area(u16::MAX, u16::MAX, 88, 8)));
    assert!(!big_text_fits(11, area(u16::MAX, 0, 90, 8)));
    assert!(!big_text_fits(11, area(0, u16::MAX, 88, 10)));
    assert!(big_text_fits(8191, area(0, 0, 100, 20)));
    assert!(!big_text_fits(8192, area(0, 0, 100, 20)));
}

#[test]
fn ticks_come_every_33_milliseconds() {
    assert_eq!(TICK_NANOS, 33_000_000);
    assert_eq!(wait_nanos(0), 33_000_000);
    assert_eq!(wait_nanos(32_999_999), 1);
    assert_eq!(wait_nanos(33_000_000), 0);
    assert_eq!(wait_nanos(u64::MAX), 0);
    assert!(!tick_is_due(32_999_999));
    assert!(tick_is_due(33_000_000));
}

#[test]
fn any_cut_ends_like_the_summary() {
    // A timecode comes of every seventh sample.
    let tcs = sequence(tc(0, 0, 0, 0, false), 10, 30);
    let got = |i: usize| if i % 7 == 6 { Some(tcs[i / 7]) } else { None };
    let s = analyze(&tcs, 72, 8000);
    for cut in [vec![72], vec![1000], vec![1; 72], vec![5, 0, 30, 36, 1, 9], vec![71, 2]] {
        let mut p = DecodePlayer::new(vec![0; 72], 8000);
        for n in cut {
            let decoded: Vec<Timecode> = (p.pos..p.next_pos(n)).filter_map(got).collect();
            p.advance(n, &decoded);
        }
        assert_eq!((p.pos, p.playing), (72, false));
        assert_eq!(p.frames_seen, s.frame_count);
        assert_eq!(p.current, s.end);
    }
}

#[test]
fn keys_go_to_the_tab_in_front() {
    let mut app = App::new();
    assert_eq!(app.tab, TabId::Generate);
    assert!(matches!(app.on_key(Key::Char('c'), true), AppAction::Quit));
    assert!(matches!(app.on_key(Key::Char('q'), true), AppAction::Quit));
    assert!(matches!(app.on_key(Key::Char('q'), false), AppAction::Nothing));
    assert_eq!(app.gen.start, "01:00:00:00q");
    assert!(matches!(app.on_key(Key::Char('x'), true), AppAction::Nothing));
    assert_eq!(app.gen.start, "01:00:00:00qx");
    assert!(matches!(app.on_key(Key::Enter, false), AppAction::Send));
    assert!(matches!(app.on_key(Key::Tab, false), AppAction::Nothing));
    assert_eq!(app.tab, TabId::Decode);
    assert!(matches!(app.on_key(Key::Char('a'), false), AppAction::Screen(ScreenAction::Nothing)));
    assert_eq!((app.dec.path.as_str(), app.gen.start.as_str()), ("a", "01:00:00:00qx"));
    assert!(matches!(app.on_key(Key::Enter, false), AppAction::Screen(ScreenAction::Load(_))));
    app.on_key(Key::Tab, false);
    assert_eq!(app.tab, TabId::Generate);
}

#[test]
fn timecodes_come_out_of_the_feed_in_order() {
    let tcs = sequence(tc(0, 0, 0, 0, false), 5, 30);
    let (mut tx, mut rx) = feed(3);
    assert_eq!(rx.poll(), None);
    offer(&mut tx, &tcs[..2]);
    assert_eq!(rx.poll(), Some(tcs[1]));
    assert_eq!(rx.frames(), 2);
    // There is room for three, so the others are dropped.
    offer(&mut tx, &tcs);
    assert_eq!(rx.poll(), Some(tcs[2]));
    assert_eq!(rx.frames(), 5);
    assert_eq!(rx.poll(), None);
    assert_eq!(rx.absorb(&tcs), Some(tcs[4]));
    assert_eq!(rx.absorb(&[]), None);
    assert_eq!(rx.frames(), 10);
}

#[test]
fn draining_takes_no_more_than_asked_for_and_leaves_the_rest() {
    let tcs = sequence(tc(0, 0, 0, 0, false), 4, 30);
    let (mut tx, mut rx) = feed(4);
    offer(&mut tx, &tcs);
    assert!(rx.drain(0).is_empty());
    assert_eq!(rx.drain(1), tcs[..1]);
    assert_eq!(rx.drain(2), tcs[1..3]);
    assert_eq!(rx.frames(), 0);
    assert_eq!(rx.poll(), Some(tcs[3]));
    assert_eq!(rx.frames(), 1);
    assert!(rx.drain(usize::MAX).is_empty());
    offer(&mut tx, &tcs[..2]);
    assert_eq!(rx.drain(usize::MAX), tcs[..2]);
}

#[test]
fn peak_is_the_largest_magnitude() {
    assert_eq!(block_peak(&[]), 0);
    assert_eq!(block_peak(&[3, -7, 5]), 7);
    assert_eq!(block_peak(&[i16::MAX, i16::MIN]), 32_768);
}

#[test]
fn a_file_plays_at_its_own_rate_where_it_can() {
    let ranges = [
        RateRange { channels: 1, min: 8000, max: 8000 },
        RateRange { channels: 2, min: 44_100, max: 48_000 },
    ];
    assert_eq!(output_rate(&ranges, 2, 96_000, 44_100), (44_100, None));
    assert_eq!(output_rate(&ranges, 1, 96_000, 8000), (8000, None));
    assert_eq!(
        output_rate(&ranges, 2, 48_000, 8000),
        (48_000, Some("device rate 48000 Hz != file 8000 Hz; pitch/speed differ".to_string()))
    );
}

#[test]
fn every_channel_plays_the_same_sample() {
    let src = [1i16, 2, 3, 4];
    let mut out = [9i16; 5];
    assert_eq!(fill_output(&mut out, 2, &src, 1, true), 4);
    assert_eq!(out, [2, 2, 3, 3, 4]);
    assert_eq!(fill_output(&mut out, 2, &src, 3, true), 4);
    assert_eq!(out, [4, 4, 0, 0, 0]);
    assert_eq!(fill_output(&mut out, 1, &src, 2, false), 2);
    assert_eq!(out, [0; 5]);
}

#[test]
fn blocks_join_without_a_gap() {
    let src: Vec<i16> = (1..=10).collect();
    let mut whole = [0i16; 12];
    fill_output(&mut whole, 1, &src, 0, true);
    let mut joined: Vec<i16> = Vec::new();
    let mut pos = 0;
    for len in [3, 4, 5] {
        let mut block = vec![0i16; len];
        pos = fill_output(&mut block, 1, &src, pos, true);
        joined.extend(block);
    }
    assert_eq!(joined, whole);
    assert_eq!(pos, 10);
}

#[test]
fn the_default_device_is_found() {
    let list = names(&["a", "b", "b"]);
    assert_eq!(default_position(&list, Some("b")), Some(1));
    assert_eq!(default_position(&list, Some("c")), None);
    assert_eq!(default_position(&list, None), None);
}
