//! The decode screen: load a WAV file, look at its summary, and watch its timecode roll.
//!
//! There are two ways to play a file: a `DecodePlayer` paces the samples through the decoder
//! without sound, or an output device is picked and the file is played on it.

use vstd::prelude::*;

use super::keys::{moved_down, moved_up, selected, Key, Picker, PickerState};
use crate::analyze::{is_summary, summary_rate_label, FileSummary};
use crate::cli::texts;
use crate::decoder::{after_sign, interval_ended, step_of};
use crate::frame::{timecode_text, Timecode};
use crate::roundtrip::decoded;
use crate::text::{decimal, law_decimal_is_read_back, number_value, push_decimal, trim, trimmed};

verus! {

/// A loaded file that is paced through the decoder.
pub struct DecodePlayer {
    pub samples: Vec<i16>,
    pub sample_rate: u32,
    pub pos: usize,
    pub current: Option<Timecode>,
    pub frames_seen: usize,
    pub playing: bool,
}

/// The state of a player: its samples, how many of them were decoded, the last timecode, how
/// many timecodes there were, and whether it is playing.
#[verifier::ext_equal]
pub struct PlayerState {
    pub samples: Seq<i16>,
    pub sample_rate: u32,
    pub pos: nat,
    pub current: Option<Timecode>,
    pub frames_seen: nat,
    pub playing: bool,
}

impl View for DecodePlayer {
    type V = PlayerState;

    open spec fn view(&self) -> PlayerState {
        PlayerState {
            samples: self.samples@,
            sample_rate: self.sample_rate,
            pos: self.pos as nat,
            current: self.current,
            frames_seen: self.frames_seen as nat,
            playing: self.playing,
        }
    }
}

/// A player at the start of its samples.
pub open spec fn rewound(samples: Seq<i16>, sample_rate: u32) -> PlayerState {
    PlayerState { samples, sample_rate, pos: 0, current: None, frames_seen: 0, playing: true }
}

/// Where the player is after the next `n` samples: at most at the end, and where it was while it
/// does not play.
pub open spec fn position_after(p: PlayerState, n: nat) -> nat {
    if !p.playing || p.pos >= p.samples.len() {
        p.pos
    } else if p.pos + n < p.samples.len() {
        p.pos + n
    } else {
        p.samples.len()
    }
}

/// The player after the next `n` samples, from which `decoded` came. At the end it stops.
pub open spec fn advanced(p: PlayerState, n: nat, decoded: Seq<Timecode>) -> PlayerState {
    if !p.playing || p.pos >= p.samples.len() {
        p
    } else {
        PlayerState {
            pos: position_after(p, n),
            current: if decoded.len() > 0 {
                Some(decoded.last())
            } else {
                p.current
            },
            frames_seen: p.frames_seen + decoded.len(),
            playing: position_after(p, n) < p.samples.len(),
            ..p
        }
    }
}

impl DecodePlayer {
    /// A player at the start of `samples`.
    pub fn new(samples: Vec<i16>, sample_rate: u32) -> (r: DecodePlayer)
        ensures
            r@ == rewound(samples@, sample_rate),
    {
        DecodePlayer { samples, sample_rate, pos: 0, current: None, frames_seen: 0, playing: true }
    }

    /// Where the player is after the next `n` samples; those between are to be decoded.
    pub fn next_pos(&self, n: usize) -> (end: usize)
        requires
            self.playing && self.pos < self.samples.len() ==> self.pos + n <= usize::MAX,
        ensures
            end == position_after(self@, n as nat),
    {
        if !self.playing || self.pos >= self.samples.len() {
            self.pos
        } else if self.pos + n < self.samples.len() {
            self.pos + n
        } else {
            self.samples.len()
        }
    }

    /// Goes on by the next `n` samples, from which `decoded` came.
    pub fn advance(&mut self, n: usize, decoded: &[Timecode])
        requires
            old(self).playing && old(self).pos < old(self).samples.len() ==> old(self).pos + n
                <= usize::MAX && old(self).frames_seen + decoded.len() <= usize::MAX,
        ensures
            final(self)@ == advanced(old(self)@, n as nat, decoded@),
    {
        if !self.playing || self.pos >= self.samples.len() {
            return;
        }
        let end: usize = self.next_pos(n);
        if decoded.len() > 0 {
            self.current = Some(decoded[decoded.len() - 1]);
        }
        self.frames_seen = self.frames_seen + decoded.len();
        self.pos = end;
        if self.pos >= self.samples.len() {
            self.playing = false;
        }
    }

    /// Goes back to the start.
    pub fn reset(&mut self)
        ensures
            final(self)@ == rewound(old(self)@.samples, old(self)@.sample_rate),
    {
        self.pos = 0;
        self.current = None;
        self.frames_seen = 0;
        self.playing = true;
    }
}

/// How a file is played.
pub enum Playback {
    /// There is no file.
    NoFile,
    /// It is paced through the decoder, without sound.
    Paced(DecodePlayer),
    /// It is loaded, and an output device is to be picked.
    Picking { devices: Picker, samples: Vec<i16>, sample_rate: u32 },
    /// It is played on the device `device`, and `current` was decoded last.
    Playing {
        devices: Picker,
        device: usize,
        samples: Vec<i16>,
        sample_rate: u32,
        current: Option<Timecode>,
    },
}

/// How a file is played.
pub enum PlaybackState {
    NoFile,
    Paced(PlayerState),
    Picking { devices: PickerState, samples: Seq<i16>, sample_rate: u32 },
    Playing {
        devices: PickerState,
        device: nat,
        samples: Seq<i16>,
        sample_rate: u32,
        current: Option<Timecode>,
    },
}

impl View for Playback {
    type V = PlaybackState;

    open spec fn view(&self) -> PlaybackState {
        match self {
            Playback::NoFile => PlaybackState::NoFile,
            Playback::Paced(p) => PlaybackState::Paced(p@),
            Playback::Picking { devices, samples, sample_rate } => PlaybackState::Picking {
                devices: devices@,
                samples: samples@,
                sample_rate: *sample_rate,
            },
            Playback::Playing { devices, device, samples, sample_rate, current } => {
                PlaybackState::Playing {
                    devices: devices@,
                    device: *device as nat,
                    samples: samples@,
                    sample_rate: *sample_rate,
                    current: *current,
                }
            },
        }
    }
}

/// The decode screen: the path that is typed or loaded, the status, the summary of the file that
/// is loaded, and how it is played.
pub struct DecodeScreen {
    pub path: String,
    pub status: String,
    pub summary: Option<FileSummary>,
    pub playback: Playback,
}

/// What the screen holds.
pub struct ScreenState {
    pub path: Seq<char>,
    pub status: Seq<char>,
    pub summary: Option<FileSummary>,
    pub playback: PlaybackState,
}

impl View for DecodeScreen {
    type V = ScreenState;

    open spec fn view(&self) -> ScreenState {
        ScreenState {
            path: self.path@,
            status: self.status@,
            summary: self.summary,
            playback: self.playback@,
        }
    }
}

/// What a key asks to be done outside the screen.
pub enum ScreenAction {
    Nothing,
    /// Load the file with this path.
    Load(String),
    /// Start the decoder over.
    RestartDecoder,
    /// Play the file from its start on the device with this number.
    Play(usize),
    /// Pause, or go on.
    TogglePlaying,
}

/// The prompt for a path.
pub open spec fn prompt() -> Seq<char> {
    "enter a .wav path, Enter to load"@
}

/// The screen without a file.
pub open spec fn unloaded(s: ScreenState) -> ScreenState {
    ScreenState { status: prompt(), summary: None, playback: PlaybackState::NoFile, ..s }
}

/// The screen after a key.
pub open spec fn screen_after(s: ScreenState, key: Key) -> ScreenState {
    match s.playback {
        PlaybackState::NoFile => match key {
            Key::Char(c) => ScreenState { path: s.path.push(c), ..s },
            Key::Backspace => ScreenState {
                path: if s.path.len() > 0 {
                    s.path.drop_last()
                } else {
                    s.path
                },
                ..s
            },
            _ => s,
        },
        PlaybackState::Paced(p) => match key {
            Key::Char(c) => if c == ' ' {
                ScreenState {
                    playback: PlaybackState::Paced(PlayerState { playing: !p.playing, ..p }),
                    ..s
                }
            } else if c == 'r' {
                ScreenState {
                    playback: PlaybackState::Paced(rewound(p.samples, p.sample_rate)),
                    ..s
                }
            } else {
                s
            },
            Key::Backspace => unloaded(s),
            _ => s,
        },
        PlaybackState::Picking { devices, samples, sample_rate } => match key {
            Key::Backspace => unloaded(s),
            Key::Up => ScreenState {
                playback: PlaybackState::Picking { devices: moved_up(devices), samples, sample_rate },
                ..s
            },
            Key::Down => ScreenState {
                playback: PlaybackState::Picking {
                    devices: moved_down(devices),
                    samples,
                    sample_rate,
                },
                ..s
            },
            _ => s,
        },
        PlaybackState::Playing { .. } => match key {
            Key::Backspace => unloaded(s),
            _ => s,
        },
    }
}

/// `a` is what a key asks for.
pub open spec fn key_asks(s: ScreenState, key: Key, a: ScreenAction) -> bool {
    match s.playback {
        PlaybackState::NoFile => if key is Enter {
            a matches ScreenAction::Load(path) && path@ == trimmed(s.path)
        } else {
            a is Nothing
        },
        PlaybackState::Paced(_) => if key == Key::Char('r') {
            a is RestartDecoder
        } else {
            a is Nothing
        },
        PlaybackState::Picking { devices, .. } => if key is Enter && selected(devices) is Some {
            a matches ScreenAction::Play(i) && selected(devices) == Some(i as nat)
        } else {
            a is Nothing
        },
        PlaybackState::Playing { device, .. } => if key == Key::Char(' ') {
            a is TogglePlaying
        } else if key == Key::Char('r') {
            a matches ScreenAction::Play(i) && i == device
        } else {
            a is Nothing
        },
    }
}

/// What the status says of a file that was loaded.
pub open spec fn loaded_status(samples: nat, sample_rate: u32) -> Seq<char> {
    "loaded "@ + decimal(samples) + " samples @ "@ + decimal(sample_rate as nat) + " Hz"@
}

/// What the status says of a file that is to be played on one of `devices` devices.
pub open spec fn picking_status(devices: nat) -> Seq<char> {
    if devices == 0 {
        "no output devices found"@
    } else {
        "Up/Down: output device   Enter: play"@
    }
}

/// What the status says of a file that is played on the device `name`.
pub open spec fn playing_status(name: Seq<char>, note: Option<Seq<char>>) -> Seq<char> {
    match note {
        Some(n) => "playing on \""@ + name + "\" — "@ + n,
        None => "playing on \""@ + name + "\""@,
    }
}

impl DecodeScreen {
    /// A screen without a file.
    pub fn new() -> (r: DecodeScreen)
        ensures
            r@ == (ScreenState {
                path: Seq::empty(),
                status: prompt(),
                summary: None,
                playback: PlaybackState::NoFile,
            }),
    {
        DecodeScreen {
            path: String::new(),
            status: "enter a .wav path, Enter to load".to_owned(),
            summary: None,
            playback: Playback::NoFile,
        }
    }

    /// Takes a key, and says what it asks for.
    pub fn handle_key(&mut self, key: Key) -> (a: ScreenAction)
        ensures
            final(self)@ == screen_after(old(self)@, key),
            key_asks(old(self)@, key, a),
    {
        match &mut self.playback {
            Playback::NoFile => self.handle_path_key(key),
            Playback::Paced(p) => match key {
                Key::Char(' ') => {
                    p.playing = !p.playing;
                    ScreenAction::Nothing
                },
                Key::Char('r') => {
                    p.reset();
                    ScreenAction::RestartDecoder
                },
                Key::Backspace => {
                    self.unload();
                    ScreenAction::Nothing
                },
                _ => ScreenAction::Nothing,
            },
            Playback::Picking { devices, .. } => match key {
                Key::Backspace => {
                    self.unload();
                    ScreenAction::Nothing
                },
                Key::Up => {
                    devices.up();
                    ScreenAction::Nothing
                },
                Key::Down => {
                    devices.down();
                    ScreenAction::Nothing
                },
                Key::Enter => match devices.selected() {
                    Some(i) => ScreenAction::Play(i),
                    None => ScreenAction::Nothing,
                },
                _ => ScreenAction::Nothing,
            },
            Playback::Playing { device, .. } => match key {
                Key::Backspace => {
                    self.unload();
                    ScreenAction::Nothing
                },
                Key::Char(' ') => ScreenAction::TogglePlaying,
                Key::Char('r') => ScreenAction::Play(*device),
                _ => ScreenAction::Nothing,
            },
        }
    }

    /// Takes a key while the path is typed.
    fn handle_path_key(&mut self, key: Key) -> (a: ScreenAction)
        requires
            old(self)@.playback is NoFile,
        ensures
            final(self)@ == screen_after(old(self)@, key),
            key_asks(old(self)@, key, a),
    {
        match key {
            Key::Char(c) => {
                self.path.push(c);
                ScreenAction::Nothing
            },
            Key::Backspace => {
                let _ = self.path.pop();
                ScreenAction::Nothing
            },
            Key::Enter => ScreenAction::Load(trim(self.path.as_str())),
            _ => ScreenAction::Nothing,
        }
    }

    /// Shows a file that was loaded, and paces it through the decoder.
    pub fn loaded(&mut self, samples: Vec<i16>, sample_rate: u32, summary: FileSummary)
        ensures
            final(self)@ == (ScreenState {
                status: loaded_status(samples@.len(), sample_rate),
                summary: Some(summary),
                playback: PlaybackState::Paced(rewound(samples@, sample_rate)),
                ..old(self)@
            }),
    {
        let mut m: String = "loaded ".to_owned();
        push_decimal(&mut m, samples.len() as u64);
        m.append(" samples @ ");
        push_decimal(&mut m, sample_rate as u64);
        m.append(" Hz");
        self.status = m;
        self.summary = Some(summary);
        self.playback = Playback::Paced(DecodePlayer::new(samples, sample_rate));
    }

    /// Shows a file that was loaded, and the output devices to play it on.
    pub fn loaded_for(
        &mut self,
        devices: Vec<String>,
        samples: Vec<i16>,
        sample_rate: u32,
        summary: FileSummary,
    )
        ensures
            final(self)@ == (ScreenState {
                status: picking_status(devices@.len()),
                summary: Some(summary),
                playback: PlaybackState::Picking {
                    devices: PickerState { names: texts(devices@), sel: 0 },
                    samples: samples@,
                    sample_rate,
                },
                ..old(self)@
            }),
    {
        self.status = if devices.len() == 0 {
            "no output devices found".to_owned()
        } else {
            "Up/Down: output device   Enter: play".to_owned()
        };
        self.summary = Some(summary);
        self.playback = Playback::Picking { devices: Picker::new(devices), samples, sample_rate };
    }

    /// Shows why a file was not loaded.
    pub fn load_failed(&mut self, error: &str)
        ensures
            final(self)@ == (ScreenState { status: "load failed: "@ + error@, ..old(self)@ }),
    {
        let mut m: String = "load failed: ".to_owned();
        m.append(error);
        self.status = m;
    }

    /// Shows that the file is played from its start on the device with the number `device`, with
    /// a note if there is something to say of it.
    pub fn play_started(&mut self, device: usize, note: Option<&str>)
        requires
            device < devices_of(old(self)@.playback).names.len(),
        ensures
            final(self)@ == play_state(old(self)@, device as nat, note_text(note)),
    {
        let mut playback: Playback = Playback::NoFile;
        std::mem::swap(&mut playback, &mut self.playback);
        match playback {
            Playback::Picking { devices, samples, sample_rate } => {
                self.status = playing_text(devices.names[device].as_str(), note);
                self.playback = Playback::Playing { devices, device, samples, sample_rate, current: None };
            },
            Playback::Playing { devices, samples, sample_rate, .. } => {
                self.status = playing_text(devices.names[device].as_str(), note);
                self.playback = Playback::Playing { devices, device, samples, sample_rate, current: None };
            },
            other => {
                self.playback = other;
            },
        }
    }

    /// Shows why the file is not played.
    pub fn play_failed(&mut self, error: &str)
        ensures
            final(self)@ == (ScreenState { status: "play failed: "@ + error@, ..old(self)@ }),
    {
        let mut m: String = "play failed: ".to_owned();
        m.append(error);
        self.status = m;
    }

    /// Shows the timecode that was decoded last while the file was played.
    pub fn polled(&mut self, latest: Option<Timecode>)
        ensures
            final(self)@ == polled_state(old(self)@, latest),
    {
        if let Playback::Playing { current, .. } = &mut self.playback {
            if latest.is_some() {
                *current = latest;
            }
        }
    }

    /// The text of the timecode that was decoded last.
    pub fn timecode_label(&self) -> (r: String)
        ensures
            r@ == timecode_or_dashes(current_of(self@.playback)),
    {
        let current: Option<Timecode> = match &self.playback {
            Playback::Paced(p) => p.current,
            Playback::Playing { current, .. } => *current,
            _ => None,
        };
        current_text(current)
    }

    /// A word for what the player is doing; of a device, `finished` and `on` say whether it is
    /// at the end, and whether it is playing.
    pub fn state_label(&self, finished: bool, on: bool) -> (r: &'static str)
        ensures
            r@ == state_word(self@.playback, finished, on),
    {
        match &self.playback {
            Playback::Paced(p) => if p.playing {
                "playing"
            } else {
                "paused"
            },
            Playback::Playing { .. } => if finished {
                "finished"
            } else if on {
                "playing"
            } else {
                "paused"
            },
            _ => "no file",
        }
    }

    /// Drops the file.
    pub fn unload(&mut self)
        ensures
            final(self)@ == unloaded(old(self)@),
    {
        self.playback = Playback::NoFile;
        self.summary = None;
        self.status = "enter a .wav path, Enter to load".to_owned();
    }
}

/// The output devices to pick from.
pub open spec fn devices_of(p: PlaybackState) -> PickerState {
    match p {
        PlaybackState::Picking { devices, .. } => devices,
        PlaybackState::Playing { devices, .. } => devices,
        _ => PickerState { names: Seq::empty(), sel: 0 },
    }
}

/// The text of a note.
pub open spec fn note_text(note: Option<&str>) -> Option<Seq<char>> {
    match note {
        Some(n) => Some(n@),
        None => None,
    }
}

/// The screen when the file starts to play on a device.
pub open spec fn play_state(s: ScreenState, device: nat, note: Option<Seq<char>>) -> ScreenState {
    let status = playing_status(devices_of(s.playback).names[device as int], note);
    match s.playback {
        PlaybackState::Picking { devices, samples, sample_rate } => ScreenState {
            status,
            playback: PlaybackState::Playing { devices, device, samples, sample_rate, current: None },
            ..s
        },
        PlaybackState::Playing { devices, samples, sample_rate, .. } => ScreenState {
            status,
            playback: PlaybackState::Playing { devices, device, samples, sample_rate, current: None },
            ..s
        },
        _ => s,
    }
}

/// The screen after `latest` was decoded, if anything was, while the file was played.
pub open spec fn polled_state(s: ScreenState, latest: Option<Timecode>) -> ScreenState {
    match s.playback {
        PlaybackState::Playing { devices, device, samples, sample_rate, current } => ScreenState {
            playback: PlaybackState::Playing {
                devices,
                device,
                samples,
                sample_rate,
                current: if latest is Some {
                    latest
                } else {
                    current
                },
            },
            ..s
        },
        _ => s,
    }
}

/// The timecode that was decoded last.
pub open spec fn current_of(p: PlaybackState) -> Option<Timecode> {
    match p {
        PlaybackState::Paced(p) => p.current,
        PlaybackState::Playing { current, .. } => current,
        _ => None,
    }
}

/// The text of a timecode, or dashes where there is none.
pub open spec fn timecode_or_dashes(tc: Option<Timecode>) -> Seq<char> {
    match tc {
        Some(t) => timecode_text(t),
        None => "--:--:--:--"@,
    }
}

/// A word for what the player is doing.
pub open spec fn state_word(p: PlaybackState, finished: bool, on: bool) -> Seq<char> {
    match p {
        PlaybackState::Paced(p) => if p.playing {
            "playing"@
        } else {
            "paused"@
        },
        PlaybackState::Playing { .. } => if finished {
            "finished"@
        } else if on {
            "playing"@
        } else {
            "paused"@
        },
        _ => "no file"@,
    }
}

/// What the status says of a file that is played on the device `name`.
fn playing_text(name: &str, note: Option<&str>) -> (r: String)
    ensures
        r@ == playing_status(name@, note_text(note)),
{
    let mut m: String = "playing on \"".to_owned();
    m.append(name);
    match note {
        Some(n) => {
            m.append("\" — ");
            m.append(n);
        },
        None => {
            m.append("\"");
        },
    }
    m
}

/// The text of a timecode, or dashes where there is none.
pub fn current_text(tc: Option<Timecode>) -> (r: String)
    ensures
        r@ == timecode_or_dashes(tc),
{
    match tc {
        Some(t) => t.to_string(),
        None => "--:--:--:--".to_owned(),
    }
}

/// The text of a timecode in the summary, or a dash where there is none.
pub open spec fn timecode_or_dash(tc: Option<Timecode>) -> Seq<char> {
    match tc {
        Some(t) => timecode_text(t),
        None => "—"@,
    }
}

/// The words for whether a file is continuous.
pub open spec fn continuity_words(continuous: Option<bool>) -> Seq<char> {
    match continuous {
        Some(true) => "yes"@,
        Some(false) => "no (jumps)"@,
        None => "—"@,
    }
}

/// The rows of the summary: their names and what they say. `duration` is the duration as a text.
pub open spec fn detail_texts(s: FileSummary, duration: Seq<char>) -> Seq<(Seq<char>, Seq<char>)> {
    seq![
        ("start"@, timecode_or_dash(s.start)),
        ("end"@, timecode_or_dash(s.end)),
        ("frames"@, decimal(s.frame_count as nat)),
        ("rate"@, summary_rate_label(s) + " fps"@),
        ("duration"@, duration),
        ("sample rate"@, decimal(s.sample_rate as nat) + " Hz"@),
        ("continuous"@, continuity_words(s.continuous)),
    ]
}

/// The texts of the rows.
pub open spec fn row_texts(rows: Seq<(&'static str, String)>) -> Seq<(Seq<char>, Seq<char>)> {
    rows.map_values(|r: (&'static str, String)| (r.0@, r.1@))
}

fn dash_text(tc: Option<Timecode>) -> (r: String)
    ensures
        r@ == timecode_or_dash(tc),
{
    match tc {
        Some(t) => t.to_string(),
        None => "—".to_owned(),
    }
}

/// The rows of the summary.
pub fn detail_rows(s: &FileSummary, duration: &str) -> (rows: Vec<(&'static str, String)>)
    ensures
        row_texts(rows@) == detail_texts(*s, duration@),
{
    let mut frames = String::new();
    push_decimal(&mut frames, s.frame_count as u64);
    let mut rate: String = s.rate_label();
    rate.append(" fps");
    let mut sample_rate = String::new();
    push_decimal(&mut sample_rate, s.sample_rate as u64);
    sample_rate.append(" Hz");
    let continuous: String = match s.continuous {
        Some(true) => "yes".to_owned(),
        Some(false) => "no (jumps)".to_owned(),
        None => "—".to_owned(),
    };
    let mut rows: Vec<(&'static str, String)> = Vec::new();
    rows.push(("start", dash_text(s.start)));
    rows.push(("end", dash_text(s.end)));
    rows.push(("frames", frames));
    rows.push(("rate", rate));
    rows.push(("duration", duration.to_owned()));
    rows.push(("sample rate", sample_rate));
    rows.push(("continuous", continuous));
    assert(row_texts(rows@) =~= detail_texts(*s, duration@));
    rows
}

/// Playing on in any steps that add up, the player ends at the same place with the same count
/// of timecodes as in one step.
pub proof fn law_steps_add_up(p: PlayerState, a: nat, b: nat, da: Seq<Timecode>, db: Seq<Timecode>)
    requires
        p.playing,
        p.pos + a < p.samples.len(),
    ensures
        advanced(advanced(p, a, da), b, db) == advanced(p, a + b, da + db),
{
    assert((da + db).len() > 0 ==> (da + db).last() == if db.len() > 0 {
        db.last()
    } else {
        da.last()
    });
}

/// A player never goes past the end of its samples nor backward, and stops exactly at the end.
pub proof fn law_player_stays_in_file(p: PlayerState, n: nat, decoded: Seq<Timecode>)
    requires
        p.pos <= p.samples.len(),
    ensures
        p.pos <= advanced(p, n, decoded).pos <= p.samples.len(),
        p.playing && p.pos < p.samples.len() ==> (advanced(p, n, decoded).playing <==> advanced(
            p,
            n,
            decoded,
        ).pos < p.samples.len()),
        !p.playing ==> advanced(p, n, decoded) == p,
{
}

/// The timecodes that came of the samples from `a` to `b`, where `got[i]` came of sample `i`.
pub open spec fn given(got: Seq<Option<Timecode>>, a: int, b: int) -> Seq<Timecode>
    decreases b - a,
{
    if a >= b {
        Seq::empty()
    } else {
        match got[b - 1] {
            Some(tc) => given(got, a, b - 1).push(tc),
            None => given(got, a, b - 1),
        }
    }
}

/// The player after `steps`, of so many samples each, where `got[i]` comes of sample `i`.
pub open spec fn played_through(
    p: PlayerState,
    got: Seq<Option<Timecode>>,
    steps: Seq<nat>,
) -> PlayerState
    decreases steps.len(),
{
    if steps.len() == 0 {
        p
    } else {
        let q = played_through(p, got, steps.drop_last());
        let end = position_after(q, steps.last());
        advanced(q, steps.last(), given(got, q.pos as int, end as int))
    }
}

proof fn lemma_given_joins(got: Seq<Option<Timecode>>, a: int, b: int, c: int)
    requires
        a <= b <= c,
    ensures
        given(got, a, b) + given(got, b, c) == given(got, a, c),
    decreases c - b,
{
    if b < c {
        lemma_given_joins(got, a, b, c - 1);
        if let Some(tc) = got[c - 1] {
            assert(given(got, a, b) + given(got, b, c - 1).push(tc) =~= (given(got, a, b) + given(
                got,
                b,
                c - 1,
            )).push(tc));
        }
    } else {
        assert(given(got, a, b) + given(got, b, c) =~= given(got, a, b));
    }
}

proof fn lemma_played_through(
    samples: Seq<i16>,
    sample_rate: u32,
    got: Seq<Option<Timecode>>,
    steps: Seq<nat>,
)
    requires
        samples.len() > 0,
    ensures
        ({
            let p = played_through(rewound(samples, sample_rate), got, steps);
            let all = given(got, 0, p.pos as int);
            &&& p.samples == samples
            &&& p.pos <= samples.len()
            &&& p.playing == (p.pos < samples.len())
            &&& p.frames_seen == all.len()
            &&& p.current == if all.len() > 0 {
                Some(all.last())
            } else {
                None
            }
        }),
    decreases steps.len(),
{
    if steps.len() > 0 {
        lemma_played_through(samples, sample_rate, got, steps.drop_last());
        let q = played_through(rewound(samples, sample_rate), got, steps.drop_last());
        let end = position_after(q, steps.last());
        if q.playing {
            let more = given(got, q.pos as int, end as int);
            lemma_given_joins(got, 0, q.pos as int, end as int);
            assert(more.len() > 0 ==> (given(got, 0, q.pos as int) + more).last() == more.last());
            assert(more.len() == 0 ==> given(got, 0, q.pos as int) + more =~= given(
                got,
                0,
                q.pos as int,
            ));
        }
    }
}

/// However the time is cut up, a player that comes to the end of its samples without a pause has
/// stopped, and has seen what the summary of the file says: as many timecodes, and the same last
/// one. `got[i]` is what came of sample `i`, from whatever decoder reads the samples in order.
pub proof fn law_any_cut_ends_like_the_summary(
    samples: Seq<i16>,
    n: usize,
    sample_rate: u32,
    got: Seq<Option<Timecode>>,
    steps: Seq<nat>,
    summary: FileSummary,
)
    requires
        0 < samples.len() == n,
        got.len() == n,
        played_through(rewound(samples, sample_rate), got, steps).pos == n,
        is_summary(summary, given(got, 0, n as int), n, sample_rate),
    ensures
        ({
            let p = played_through(rewound(samples, sample_rate), got, steps);
            &&& !p.playing
            &&& p.frames_seen == summary.frame_count
            &&& p.current == summary.end
        }),
{
    lemma_played_through(samples, sample_rate, got, steps);
}

/// What comes of sample `i` from a decoder, where `whole` tells its intervals apart.
pub open spec fn came_of(signs: Seq<bool>, whole: Seq<bool>, i: int) -> Option<Timecode> {
    let r = decoded(signs.take(i), whole);
    match interval_ended(r.state, signs[i]) {
        Some(n) => step_of(
            after_sign(r.state, signs[i]),
            n as u32,
            whole[r.intervals as int],
        ).timecode,
        None => None,
    }
}

/// What comes of each sample from a decoder.
pub open spec fn came_of_each(signs: Seq<bool>, whole: Seq<bool>) -> Seq<Option<Timecode>> {
    Seq::new(signs.len(), |i: int| came_of(signs, whole, i))
}

/// Decoding is streaming: what comes of the samples one by one is what the decoder gives out for
/// all of them.
pub proof fn law_samples_add_up_to_the_file(signs: Seq<bool>, whole: Seq<bool>, n: int)
    requires
        0 <= n <= signs.len(),
    ensures
        given(came_of_each(signs, whole), 0, n) == decoded(signs.take(n), whole).out,
    decreases n,
{
    if n > 0 {
        law_samples_add_up_to_the_file(signs, whole, n - 1);
        assert(signs.take(n).drop_last() == signs.take(n - 1));
        assert(signs.take(n).last() == signs[n - 1]);
    } else {
        assert(signs.take(0).len() == 0);
    }
}

/// While there is no file, characters and backspace edit the path, enter asks to load what it names,
/// and nothing else happens.
pub proof fn law_path_is_edited(s: ScreenState, key: Key, a: ScreenAction)
    requires
        s.playback is NoFile,
        key_asks(s, key, a),
    ensures
        ({
            let t = screen_after(s, key);
            &&& t.status == s.status && t.summary == s.summary && t.playback is NoFile
            &&& key matches Key::Char(c) ==> t.path == s.path + seq![c]
            &&& key is Backspace && s.path.len() > 0 ==> t.path.push(s.path.last()) == s.path
            &&& key is Backspace && s.path.len() == 0 ==> t.path == s.path
            &&& !(key is Char) && !(key is Backspace) ==> t.path == s.path
            &&& key is Enter ==> (a matches ScreenAction::Load(path) && path@ == trimmed(s.path))
            &&& !(key is Enter) ==> a is Nothing
        }),
{
    if let Key::Char(c) = key {
        assert(s.path + seq![c] =~= s.path.push(c));
    }
}

/// Backspace drops a file, however it is played: the path stays, and can be typed again.
pub proof fn law_backspace_drops_the_file(s: ScreenState, a: ScreenAction)
    requires
        !(s.playback is NoFile),
        key_asks(s, Key::Backspace, a),
    ensures
        ({
            let t = screen_after(s, Key::Backspace);
            &&& t.playback is NoFile && t.summary is None && t.path == s.path
            &&& t.status == "enter a .wav path, Enter to load"@
            &&& a is Nothing
        }),
{
}

/// On a file that is paced, space pauses and goes on, and r starts over with the decoder; nothing
/// else is done to it, and path, status and summary stay.
pub proof fn law_paced_file_obeys_space_and_r(
    s: ScreenState,
    p: PlayerState,
    key: Key,
    a: ScreenAction,
)
    requires
        s.playback == PlaybackState::Paced(p),
        !(key is Backspace),
        key_asks(s, key, a),
    ensures
        ({
            let t = screen_after(s, key);
            &&& t.path == s.path && t.status == s.status && t.summary == s.summary
            &&& t.playback matches PlaybackState::Paced(q)
            &&& q.samples == p.samples && q.sample_rate == p.sample_rate
            &&& key == Key::Char(' ') ==> q.playing == !p.playing
            &&& key != Key::Char('r') ==> q.pos == p.pos && q.current == p.current && q.frames_seen
                == p.frames_seen
            &&& key == Key::Char('r') ==> q.pos == 0 && q.current is None && q.frames_seen == 0
                && q.playing
            &&& key != Key::Char('r') && key != Key::Char(' ') ==> q.playing == p.playing
            &&& key == Key::Char('r') <==> a is RestartDecoder
            &&& key != Key::Char('r') ==> a is Nothing
        }),
{
}

/// While a device is picked, up and down move the selection, and enter asks to play on the device
/// that is selected; while one plays, space asks to pause or go on, and r to start over on it.
pub proof fn law_devices_are_picked_and_played(s: ScreenState, key: Key, a: ScreenAction)
    requires
        s.playback is Picking || s.playback is Playing,
        !(key is Backspace),
        key_asks(s, key, a),
    ensures
        ({
            let t = screen_after(s, key);
            &&& t.path == s.path && t.status == s.status && t.summary == s.summary
            &&& s.playback is Playing ==> t.playback == s.playback
            &&& s.playback matches PlaybackState::Playing { device, .. } ==> {
                &&& key == Key::Char(' ') <==> a is TogglePlaying
                &&& key == Key::Char('r') ==> (a matches ScreenAction::Play(i) && i == device)
                &&& key != Key::Char('r') && key != Key::Char(' ') ==> a is Nothing
            }
            &&& s.playback matches PlaybackState::Picking { devices, samples, sample_rate } ==> {
                &&& t.playback matches PlaybackState::Picking {
                    devices: d,
                    samples: x,
                    sample_rate: y,
                }
                &&& x == samples && y == sample_rate
                &&& d == if key is Up {
                    moved_up(devices)
                } else if key is Down {
                    moved_down(devices)
                } else {
                    devices
                }
                &&& key is Enter && devices.sel < devices.names.len() ==> (a matches
                    ScreenAction::Play(i) && i == devices.sel)
                &&& !(key is Enter) || devices.sel >= devices.names.len() ==> a is Nothing
            }
        }),
{
}

/// A player that plays goes on by `n` samples, or to the end, where it stops; it counts what was
/// decoded on the way, and shows the last of it, or what it showed before.
pub proof fn law_player_goes_on(p: PlayerState, n: nat, decoded: Seq<Timecode>)
    requires
        p.playing,
        p.pos < p.samples.len(),
    ensures
        ({
            let q = advanced(p, n, decoded);
            &&& q.samples == p.samples && q.sample_rate == p.sample_rate
            &&& p.pos + n < p.samples.len() ==> q.pos == p.pos + n && q.playing
            &&& p.pos + n >= p.samples.len() ==> q.pos == p.samples.len() && !q.playing
            &&& q.frames_seen == p.frames_seen + decoded.len()
            &&& decoded.len() > 0 ==> q.current == Some(decoded[decoded.len() - 1])
            &&& decoded.len() == 0 ==> q.current == p.current
        }),
{
}

/// The rows tell what the summary holds: its ends, where it has them, the numbers of its frames and
/// of its sample rate, how long it lasts, and whether it is continuous.
pub proof fn law_rows_tell_the_summary(s: FileSummary, duration: Seq<char>)
    ensures
        ({
            let rows = detail_texts(s, duration);
            &&& rows.len() == 7
            &&& s.start is Some ==> rows[0].1 == timecode_text(s.start->0)
            &&& s.end is Some ==> rows[1].1 == timecode_text(s.end->0)
            &&& s.start is None ==> rows[0].1 == "—"@
            &&& s.end is None ==> rows[1].1 == "—"@
            &&& number_value(rows[2].1) == Some(s.frame_count as nat)
            &&& rows[3].1 == summary_rate_label(s) + seq![' ', 'f', 'p', 's']
            &&& rows[4].1 == duration
            &&& rows[5].1.len() > 3
            &&& number_value(rows[5].1.take(rows[5].1.len() - 3)) == Some(s.sample_rate as nat)
            &&& rows[6].1 == "yes"@ <==> s.continuous == Some(true)
            &&& rows[6].1 == "—"@ <==> s.continuous is None
            &&& rows[6].1 == "no (jumps)"@ <==> s.continuous == Some(false)
        }),
{
    reveal_strlit(" fps");
    reveal_strlit(" Hz");
    reveal_strlit("—");
    reveal_strlit("yes");
    reveal_strlit("no (jumps)");
    law_decimal_is_read_back(s.frame_count as nat);
    law_decimal_is_read_back(s.sample_rate as nat);
    let rows = detail_texts(s, duration);
    assert(rows[5].1.take(rows[5].1.len() - 3) =~= decimal(s.sample_rate as nat));
    assert(" fps"@ =~= seq![' ', 'f', 'p', 's']);
    assert("yes"@.len() == 3 && "—"@.len() == 1 && "no (jumps)"@.len() == 10);
}

/// A file starts to play on the device that was asked for, from no timecode, and is the same file
/// with the same devices, path and summary; what is not to be played stays as it is.
pub proof fn law_file_starts_on_the_device(s: ScreenState, device: nat, note: Option<Seq<char>>)
    ensures
        ({
            let t = play_state(s, device, note);
            &&& t.path == s.path && t.summary == s.summary
            &&& s.playback is NoFile || s.playback is Paced ==> t == s
            &&& s.playback matches PlaybackState::Picking { devices, samples, sample_rate } ==> {
                &&& t.playback == PlaybackState::Playing {
                    devices,
                    device,
                    samples,
                    sample_rate,
                    current: None,
                }
                &&& note is None ==> t.status == "playing on \""@ + devices.names[device as int]
                    + "\""@
            }
            &&& s.playback matches PlaybackState::Playing { devices, samples, sample_rate, .. } ==> {
                &&& t.playback == PlaybackState::Playing {
                    devices,
                    device,
                    samples,
                    sample_rate,
                    current: None,
                }
                &&& note is None ==> t.status == "playing on \""@ + devices.names[device as int]
                    + "\""@
            }
        }),
{
}

/// While a file is played on a device, the timecode that was decoded last is shown, and where none
/// was, the one before it stays; nothing else changes.
pub proof fn law_latest_timecode_is_shown(s: ScreenState, latest: Option<Timecode>)
    ensures
        ({
            let t = polled_state(s, latest);
            &&& t.path == s.path && t.summary == s.summary && t.status == s.status
            &&& latest is None || !(s.playback is Playing) ==> t == s
            &&& latest is Some && s.playback is Playing ==> current_of(t.playback) == latest
            &&& s.playback matches PlaybackState::Playing {
                devices,
                device,
                samples,
                sample_rate,
                ..
            } ==> {
                &&& t.playback matches PlaybackState::Playing {
                    devices: d,
                    device: i,
                    samples: x,
                    sample_rate: y,
                    ..
                }
                &&& d == devices && i == device && x == samples && y == sample_rate
            }
        }),
{
}

/// The word tells what is going on: a file that is paced is playing or paused; one on a device is
/// finished when it is, else playing or paused; and no other screen says any of these.
pub proof fn law_word_tells_the_state(p: PlaybackState, finished: bool, on: bool)
    ensures
        ({
            let word = state_word(p, finished, on);
            let loaded = p is Paced || p is Playing;
            let done = p is Playing && finished;
            let runs = (p matches PlaybackState::Paced(q) && q.playing) || (p is Playing && on);
            &&& word == "no file"@ <==> !loaded
            &&& word == "finished"@ <==> done
            &&& word == "playing"@ <==> loaded && !done && runs
            &&& word == "paused"@ <==> loaded && !done && !runs
        }),
{
    reveal_strlit("no file");
    reveal_strlit("finished");
    reveal_strlit("playing");
    reveal_strlit("paused");
    assert("no file"@[0] == 'n' && "finished"@[0] == 'f' && "playing"@[1] == 'l' && "paused"@[1]
        == 'a' && "playing"@[0] == 'p' && "paused"@[0] == 'p');
}

/// A timecode that was decoded is shown as it is written, and dashes stand for one that was not.
pub proof fn law_timecode_is_shown(p: PlaybackState)
    ensures
        p is NoFile || p is Picking ==> timecode_or_dashes(current_of(p)) == "--:--:--:--"@,
        p matches PlaybackState::Paced(q) ==> (q.current matches Some(tc) ==> timecode_or_dashes(
            current_of(p),
        ) == timecode_text(tc)) && (q.current is None ==> timecode_or_dashes(current_of(p))
            == "--:--:--:--"@),
        p matches PlaybackState::Playing { current, .. } ==> (current matches Some(tc)
            ==> timecode_or_dashes(current_of(p)) == timecode_text(tc)) && (current is None
            ==> timecode_or_dashes(current_of(p)) == "--:--:--:--"@),
{
}

/// Of a file that was loaded the numbers of its samples and of its sample rate are told.
pub proof fn law_loaded_file_is_told(samples: nat, sample_rate: u32)
    ensures
        ({
            let status = loaded_status(samples, sample_rate);
            let k = decimal(samples).len() as int;
            let n = status.len() as int;
            &&& number_value(status.subrange(7, 7 + k)) == Some(samples)
            &&& number_value(status.subrange(7 + k + 11, n - 3)) == Some(sample_rate as nat)
        }),
{
    reveal_strlit("loaded ");
    reveal_strlit(" samples @ ");
    reveal_strlit(" Hz");
    law_decimal_is_read_back(samples);
    law_decimal_is_read_back(sample_rate as nat);
    let status = loaded_status(samples, sample_rate);
    let a = decimal(samples);
    let b = decimal(sample_rate as nat);
    let k = a.len() as int;
    assert(status.subrange(7, 7 + k) =~= a);
    assert(status.subrange(7 + k + 11, status.len() - 3) =~= b);
}

/// Where there are no output devices the status says so, and else how to pick one; a note on the
/// device stands behind its name.
pub proof fn law_status_tells_of_output(devices: nat, name: Seq<char>, note: Seq<char>)
    ensures
        picking_status(devices) == "no output devices found"@ <==> devices == 0,
        devices > 0 ==> picking_status(devices) == "Up/Down: output device   Enter: play"@,
        playing_status(name, None).subrange(12, name.len() + 12int) == name,
        playing_status(name, Some(note)).subrange(12, name.len() + 12int) == name,
        playing_status(name, Some(note)).skip(name.len() + 16int) == note,
{
    reveal_strlit("no output devices found");
    reveal_strlit("Up/Down: output device   Enter: play");
    reveal_strlit("playing on \"");
    reveal_strlit("\" — ");
    reveal_strlit("\"");
    assert("no output devices found"@[0] == 'n');
    assert("Up/Down: output device   Enter: play"@[0] == 'U');
    assert(playing_status(name, None).subrange(12, name.len() + 12int) =~= name);
    assert(playing_status(name, Some(note)).subrange(12, name.len() + 12int) =~= name);
    assert(playing_status(name, Some(note)).skip(name.len() + 16int) =~= note);
}

} // verus!
