//! The live screen: pick an input device, and watch the timecode that arrives on it.

use vstd::prelude::*;

use super::decode::{current_text, timecode_or_dashes};
use super::keys::{moved_down, moved_up, selected, Key, Picker, PickerState};
use crate::cli::texts;
use crate::frame::Timecode;

verus! {

/// The live screen: the input devices, whether one is listened to, the timecode that was decoded
/// last, and the status.
pub struct LiveScreen {
    pub devices: Picker,
    pub capturing: bool,
    pub current: Option<Timecode>,
    pub status: String,
}

/// What the screen holds.
#[verifier::ext_equal]
pub struct LiveState {
    pub devices: PickerState,
    pub capturing: bool,
    pub current: Option<Timecode>,
    pub status: Seq<char>,
}

impl View for LiveScreen {
    type V = LiveState;

    open spec fn view(&self) -> LiveState {
        LiveState {
            devices: self.devices@,
            capturing: self.capturing,
            current: self.current,
            status: self.status@,
        }
    }
}

/// What a key asks to be done outside the screen.
#[derive(Clone, Copy, Debug, PartialEq, Eq, Structural)]
pub enum LiveAction {
    Nothing,
    /// List the input devices anew.
    Refresh,
    /// Listen to the device with this number.
    Start(usize),
    /// Stop listening.
    Stop,
}

/// What the status says when there are `devices` devices to pick from.
pub open spec fn devices_status(devices: nat) -> Seq<char> {
    if devices == 0 {
        "no input devices found"@
    } else {
        "Up/Down: device   Enter/Space: start"@
    }
}

/// The key asks to listen to the device that is selected.
pub open spec fn starts(key: Key) -> bool {
    key is Enter || key == Key::Char(' ')
}

/// The key asks to stop listening.
pub open spec fn stops(key: Key) -> bool {
    key == Key::Char(' ') || key == Key::Char('r') || key is Esc
}

/// The screen after a key.
pub open spec fn live_after(s: LiveState, key: Key) -> LiveState {
    if s.capturing {
        if stops(key) {
            LiveState {
                capturing: false,
                status: "stopped   Up/Down: device   Enter/Space: start"@,
                ..s
            }
        } else {
            s
        }
    } else if key is Up {
        LiveState { devices: moved_up(s.devices), ..s }
    } else if key is Down {
        LiveState { devices: moved_down(s.devices), ..s }
    } else if starts(key) && selected(s.devices) is None {
        LiveState { status: "no input devices found"@, ..s }
    } else {
        s
    }
}

/// `a` is what a key asks for.
pub open spec fn live_asks(s: LiveState, key: Key, a: LiveAction) -> bool {
    if s.capturing {
        a == if stops(key) {
            LiveAction::Stop
        } else {
            LiveAction::Nothing
        }
    } else if key == Key::Char('r') {
        a is Refresh
    } else if starts(key) && selected(s.devices) is Some {
        a matches LiveAction::Start(i) && selected(s.devices) == Some(i as nat)
    } else {
        a is Nothing
    }
}

/// A word or two for what the screen is doing.
pub open spec fn live_word(s: LiveState) -> Seq<char> {
    if !s.capturing {
        "stopped"@
    } else if s.current is Some {
        "locked"@
    } else {
        "waiting for signal…"@
    }
}

fn devices_text(devices: usize) -> (r: String)
    ensures
        r@ == devices_status(devices as nat),
{
    if devices == 0 {
        "no input devices found".to_owned()
    } else {
        "Up/Down: device   Enter/Space: start".to_owned()
    }
}

impl LiveScreen {
    /// A screen with these devices to pick from.
    pub fn new(devices: Vec<String>) -> (r: LiveScreen)
        ensures
            r@ == (LiveState {
                devices: PickerState { names: texts(devices@), sel: 0 },
                capturing: false,
                current: None,
                status: devices_status(devices@.len()),
            }),
    {
        let status: String = devices_text(devices.len());
        LiveScreen { devices: Picker::new(devices), capturing: false, current: None, status }
    }

    /// Takes a key, and says what it asks for.
    pub fn handle_key(&mut self, key: Key) -> (a: LiveAction)
        ensures
            final(self)@ == live_after(old(self)@, key),
            live_asks(old(self)@, key, a),
    {
        if self.capturing {
            return match key {
                Key::Char(' ') | Key::Char('r') | Key::Esc => {
                    self.stop();
                    LiveAction::Stop
                },
                _ => LiveAction::Nothing,
            };
        }
        match key {
            Key::Up => {
                self.devices.up();
                LiveAction::Nothing
            },
            Key::Down => {
                self.devices.down();
                LiveAction::Nothing
            },
            Key::Char('r') => LiveAction::Refresh,
            Key::Enter | Key::Char(' ') => match self.devices.selected() {
                Some(i) => LiveAction::Start(i),
                None => {
                    self.status = "no input devices found".to_owned();
                    LiveAction::Nothing
                },
            },
            _ => LiveAction::Nothing,
        }
    }

    /// Shows these devices to pick from.
    pub fn refresh(&mut self, devices: Vec<String>)
        ensures
            final(self)@ == (LiveState {
                devices: PickerState { names: texts(devices@), sel: 0 },
                status: devices_status(devices@.len()),
                ..old(self)@
            }),
    {
        self.status = devices_text(devices.len());
        self.devices = Picker::new(devices);
    }

    /// Shows that the device with the number `device` is listened to.
    pub fn started(&mut self, device: usize)
        requires
            device < old(self)@.devices.names.len(),
        ensures
            final(self)@ == (LiveState {
                capturing: true,
                current: None,
                status: "listening on \""@ + old(self)@.devices.names[device as int]
                    + "\"  (Space: stop)"@,
                ..old(self)@
            }),
    {
        let mut m: String = "listening on \"".to_owned();
        m.append(self.devices.names[device].as_str());
        m.append("\"  (Space: stop)");
        self.status = m;
        self.current = None;
        self.capturing = true;
    }

    /// Shows why a device is not listened to.
    pub fn start_failed(&mut self, error: &str)
        ensures
            final(self)@ == (LiveState { status: "start failed: "@ + error@, ..old(self)@ }),
    {
        let mut m: String = "start failed: ".to_owned();
        m.append(error);
        self.status = m;
    }

    /// Shows that no device is listened to any more.
    pub fn stop(&mut self)
        ensures
            final(self)@ == (LiveState {
                capturing: false,
                status: "stopped   Up/Down: device   Enter/Space: start"@,
                ..old(self)@
            }),
    {
        self.capturing = false;
        self.status = "stopped   Up/Down: device   Enter/Space: start".to_owned();
    }

    /// Shows the timecode that was decoded last, while a device is listened to.
    pub fn polled(&mut self, latest: Option<Timecode>)
        ensures
            final(self)@ == (LiveState {
                current: if old(self)@.capturing && latest is Some {
                    latest
                } else {
                    old(self)@.current
                },
                ..old(self)@
            }),
    {
        if self.capturing && latest.is_some() {
            self.current = latest;
        }
    }

    /// The text of the timecode that was decoded last.
    pub fn timecode_label(&self) -> (r: String)
        ensures
            r@ == timecode_or_dashes(self@.current),
    {
        current_text(self.current)
    }

    /// A word or two for what the screen is doing.
    pub fn state_label(&self) -> (r: &'static str)
        ensures
            r@ == live_word(self@),
    {
        if !self.capturing {
            "stopped"
        } else if self.current.is_some() {
            "locked"
        } else {
            "waiting for signal…"
        }
    }
}

/// A rectangle of terminal cells.
#[derive(Clone, Copy, Debug, PartialEq, Eq, Structural)]
pub struct Cells {
    pub x: u16,
    pub y: u16,
    pub width: u16,
    pub height: u16,
}

/// The size of a big glyph in terminal cells.
#[derive(Clone, Copy, Debug, PartialEq, Eq, Structural)]
pub enum GlyphSize {
    /// 8 wide and 8 high.
    Full,
    /// 4 wide and 8 high.
    HalfWidth,
    /// 4 wide and 4 high.
    Quadrant,
}

/// The width of a glyph.
pub open spec fn glyph_width(size: GlyphSize) -> int {
    if size is Full {
        8
    } else {
        4
    }
}

/// The height of a glyph.
pub open spec fn glyph_height(size: GlyphSize) -> int {
    if size is Quadrant {
        4
    } else {
        8
    }
}

/// The largest size at which that many glyphs fit the width; the smallest where none does.
pub open spec fn glyph_size(glyphs: u16, width: u16) -> GlyphSize {
    if glyphs * 8 <= width {
        GlyphSize::Full
    } else if glyphs * 4 <= width {
        GlyphSize::HalfWidth
    } else {
        GlyphSize::Quadrant
    }
}

/// The smaller of two numbers.
pub open spec fn smaller(a: int, b: int) -> int {
    if a <= b {
        a
    } else {
        b
    }
}

/// The width of a line of `glyphs` big glyphs, cut to `area`.
pub open spec fn text_width(glyphs: u16, area: Cells) -> int {
    smaller(glyphs * glyph_width(glyph_size(glyphs, area.width)), area.width as int)
}

/// The height of a line of `glyphs` big glyphs, cut to `area`.
pub open spec fn text_height(glyphs: u16, area: Cells) -> int {
    smaller(glyph_height(glyph_size(glyphs, area.width)), area.height as int)
}

/// `r` is where a line of `glyphs` big glyphs stands: in the middle of `area`, cut to it.
pub open spec fn is_centered(glyphs: u16, area: Cells, r: Cells) -> bool {
    &&& r.width == text_width(glyphs, area)
    &&& r.height == text_height(glyphs, area)
    &&& r.x == area.x + (area.width - r.width) / 2
    &&& r.y == area.y + (area.height - r.height) / 2
}

/// The size of the glyphs of a line of `glyphs` of them, and where in `area` it stands.
pub fn big_text_layout(glyphs: u16, area: Cells) -> (r: (GlyphSize, Cells))
    requires
        glyphs * 8 <= u16::MAX,
        area.x + (area.width - text_width(glyphs, area)) / 2 <= u16::MAX,
        area.y + (area.height - text_height(glyphs, area)) / 2 <= u16::MAX,
    ensures
        r.0 == glyph_size(glyphs, area.width),
        is_centered(glyphs, area, r.1),
{
    let (size, cols, rows): (GlyphSize, u16, u16) = if glyphs * 8 <= area.width {
        (GlyphSize::Full, 8, 8)
    } else if glyphs * 4 <= area.width {
        (GlyphSize::HalfWidth, 4, 8)
    } else {
        (GlyphSize::Quadrant, 4, 4)
    };
    let full: u16 = glyphs * cols;
    let width: u16 = if full <= area.width {
        full
    } else {
        area.width
    };
    let height: u16 = if rows <= area.height {
        rows
    } else {
        area.height
    };
    let x: u16 = area.x + (area.width - width) / 2;
    let y: u16 = area.y + (area.height - height) / 2;
    (size, Cells { x, y, width, height })
}

/// Whether a line of `glyphs` big glyphs can be laid out in `area`.
pub fn big_text_fits(glyphs: u16, area: Cells) -> (r: bool)
    ensures
        r == (glyphs * 8 <= u16::MAX && area.x + (area.width - text_width(glyphs, area)) / 2
            <= u16::MAX && area.y + (area.height - text_height(glyphs, area)) / 2 <= u16::MAX),
{
    let count: u32 = glyphs as u32;
    let space: u32 = area.width as u32;
    let (cols, rows): (u32, u32) = if count * 8 <= space {
        (8, 8)
    } else if count * 4 <= space {
        (4, 8)
    } else {
        (4, 4)
    };
    let width: u32 = if count * cols <= space {
        count * cols
    } else {
        space
    };
    let height: u32 = if rows <= area.height as u32 {
        rows
    } else {
        area.height as u32
    };
    let limit: u32 = u16::MAX as u32;
    count * 8 <= limit && area.x as u32 + (space - width) / 2 <= limit && area.y as u32 + (
    area.height as u32 - height) / 2 <= limit
}

/// The big text stays inside its area, and at a width for some size it is not cut.
pub proof fn law_big_text_fits(glyphs: u16, area: Cells, r: Cells)
    requires
        is_centered(glyphs, area, r),
    ensures
        area.x <= r.x,
        area.y <= r.y,
        r.x + r.width <= area.x + area.width,
        r.y + r.height <= area.y + area.height,
        glyphs * 4 <= area.width ==> r.width == glyphs * glyph_width(
            glyph_size(glyphs, area.width),
        ),
{
}

/// When listening stops, the timecode that was decoded last and the devices stay.
pub proof fn law_stopping_keeps_the_timecode(s: LiveState, key: Key)
    requires
        s.capturing,
        stops(key),
    ensures
        live_after(s, key).current == s.current,
        !live_after(s, key).capturing,
        live_after(s, key).devices == s.devices,
{
}

/// What each key does on the live screen. While nothing is listened to, up and down move the
/// selection, r asks for the devices anew, and enter and space ask to listen to the device that is
/// selected; while one is, space, r and escape stop it. No key does anything else, and none changes
/// the timecode.
pub proof fn law_live_keys(s: LiveState, key: Key, a: LiveAction)
    requires
        live_asks(s, key, a),
    ensures
        ({
            let t = live_after(s, key);
            let go = key is Enter || key == Key::Char(' ');
            let halt = key is Esc || key == Key::Char(' ') || key == Key::Char('r');
            let some = s.devices.sel < s.devices.names.len();
            &&& t.current == s.current
            &&& s.capturing ==> t.devices == s.devices && t.capturing == !halt
            &&& s.capturing ==> (halt <==> a == LiveAction::Stop) && (!halt ==> a
                == LiveAction::Nothing && t == s)
            &&& !s.capturing ==> !t.capturing
            &&& !s.capturing ==> t.devices == if key is Up {
                moved_up(s.devices)
            } else if key is Down {
                moved_down(s.devices)
            } else {
                s.devices
            }
            &&& !s.capturing && go && some ==> a == LiveAction::Start(s.devices.sel as usize)
                && t.status == s.status
            &&& !s.capturing && go && !some ==> a == LiveAction::Nothing && t.status
                == "no input devices found"@
            &&& !s.capturing && key == Key::Char('r') ==> a == LiveAction::Refresh
            &&& !s.capturing && !go && key != Key::Char('r') ==> a == LiveAction::Nothing
            &&& !s.capturing && !go ==> t.status == s.status
        }),
{
}

/// Big text is as big as fits the width: 8 cells for each glyph where there is room for that, else
/// 4 at full height where there is room for that, else 4 at half the height. It stands in the
/// middle: on the two sides, and above and below, there is the same room, or one cell more on the
/// right or below.
pub proof fn law_big_text_is_as_big_as_fits(glyphs: u16, area: Cells, r: Cells)
    requires
        is_centered(glyphs, area, r),
    ensures
        glyphs * 8 <= area.width ==> glyph_size(glyphs, area.width) == GlyphSize::Full && r.width
            == glyphs * 8,
        glyphs * 8 > area.width && glyphs * 4 <= area.width ==> glyph_size(glyphs, area.width)
            == GlyphSize::HalfWidth && r.width == glyphs * 4,
        glyphs * 4 > area.width ==> glyph_size(glyphs, area.width) == GlyphSize::Quadrant && r.width
            == area.width,
        glyphs * 4 <= area.width && area.height >= 8 ==> r.height == 8,
        glyphs * 4 > area.width && area.height >= 4 ==> r.height == 4,
        r.height <= area.height,
        ({
            let left = r.x - area.x;
            let right = area.width - r.width - left;
            let above = r.y - area.y;
            let below = area.height - r.height - above;
            0 <= right - left <= 1 && 0 <= below - above <= 1
        }),
{
}

/// The words tell what is going on: stopped while nothing is listened to, else locked once a
/// timecode was decoded, and until then waiting.
pub proof fn law_words_tell_the_state(s: LiveState)
    ensures
        live_word(s) == "stopped"@ <==> !s.capturing,
        live_word(s) == "locked"@ <==> s.capturing && s.current is Some,
        live_word(s) == "waiting for signal…"@ <==> s.capturing && s.current is None,
{
    reveal_strlit("stopped");
    reveal_strlit("locked");
    reveal_strlit("waiting for signal…");
    assert("stopped"@[0] == 's' && "locked"@[0] == 'l' && "waiting for signal…"@[0] == 'w');
}

/// Where there are no devices the status says so, and else how to pick one.
pub proof fn law_status_tells_of_devices(devices: nat)
    ensures
        devices_status(devices) == "no input devices found"@ <==> devices == 0,
        devices > 0 ==> devices_status(devices) == "Up/Down: device   Enter/Space: start"@,
{
    reveal_strlit("no input devices found");
    reveal_strlit("Up/Down: device   Enter/Space: start");
    assert("no input devices found"@[0] == 'n' && "Up/Down: device   Enter/Space: start"@[0] == 'U');
}

} // verus!
