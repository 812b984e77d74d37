//! The terminal interface: two tabs, one to generate a file and one to decode one.

pub mod audio;
pub mod decode;
pub mod generate;
pub mod keys;
pub mod live;

use vstd::prelude::*;

use decode::{
    key_asks, prompt, screen_after, DecodeScreen, PlaybackState, ScreenAction, ScreenState,
};
use generate::{form_after, FormState, GenForm};
use keys::Key;

verus! {

/// The time between two ticks in nanoseconds.
pub const TICK_NANOS: u64 = 33_000_000;

/// How long to wait for a key when `elapsed` nanoseconds have gone by since the last tick: until
/// the next one.
pub fn wait_nanos(elapsed: u64) -> (r: u64)
    ensures
        r == if elapsed < TICK_NANOS {
            TICK_NANOS - elapsed
        } else {
            0
        },
{
    if elapsed < TICK_NANOS {
        TICK_NANOS - elapsed
    } else {
        0
    }
}

/// Whether the next tick is due when `elapsed` nanoseconds have gone by since the last.
pub fn tick_is_due(elapsed: u64) -> (r: bool)
    ensures
        r == (elapsed >= TICK_NANOS),
{
    elapsed >= TICK_NANOS
}

/// The tabs.
#[derive(Clone, Copy, Debug, PartialEq, Eq, Structural)]
pub enum TabId {
    Generate,
    Decode,
}

/// The interface: the tab in front, and the two screens.
pub struct App {
    pub tab: TabId,
    pub gen: GenForm,
    pub dec: DecodeScreen,
}

/// What the interface holds.
pub struct AppState {
    pub tab: TabId,
    pub gen: FormState,
    pub dec: ScreenState,
}

impl View for App {
    type V = AppState;

    open spec fn view(&self) -> AppState {
        AppState { tab: self.tab, gen: self.gen@, dec: self.dec@ }
    }
}

/// What a key asks to be done outside the interface.
pub enum AppAction {
    Nothing,
    Quit,
    /// Generate what the form says.
    Send,
    /// What the decode screen asks for.
    Screen(ScreenAction),
}

/// The key asks to quit; `control` says whether the control key was held.
pub open spec fn quits(key: Key, control: bool) -> bool {
    control && (key == Key::Char('c') || key == Key::Char('q'))
}

/// The tab behind, round to the first.
pub open spec fn other_tab(tab: TabId) -> TabId {
    match tab {
        TabId::Generate => TabId::Decode,
        TabId::Decode => TabId::Generate,
    }
}

/// The interface after a key. It goes to the tab in front alone.
pub open spec fn app_after(a: AppState, key: Key, control: bool) -> AppState {
    if quits(key, control) {
        a
    } else if key is Tab {
        AppState { tab: other_tab(a.tab), ..a }
    } else {
        match a.tab {
            TabId::Generate => AppState { gen: form_after(a.gen, key), ..a },
            TabId::Decode => AppState { dec: screen_after(a.dec, key), ..a },
        }
    }
}

/// `r` is what a key asks for.
pub open spec fn app_asks(a: AppState, key: Key, control: bool, r: AppAction) -> bool {
    if quits(key, control) {
        r is Quit
    } else if key is Tab {
        r is Nothing
    } else {
        match a.tab {
            TabId::Generate => if key is Enter {
                r is Send
            } else {
                r is Nothing
            },
            TabId::Decode => r matches AppAction::Screen(s) && key_asks(a.dec, key, s),
        }
    }
}

impl App {
    /// The form is in order.
    pub open spec fn wf(&self) -> bool {
        self.gen.wf()
    }

    /// The interface with the generate tab in front.
    pub fn new() -> (r: App)
        ensures
            r.wf(),
            r@.tab == TabId::Generate,
            r@.gen == (FormState {
                start: "01:00:00:00"@,
                length: "10"@,
                fps_idx: 2,
                rate: "48000"@,
                focus: 0,
                status: "edit fields, Enter to write"@,
            }),
            r@.dec == (ScreenState {
                path: Seq::empty(),
                status: prompt(),
                summary: None,
                playback: PlaybackState::NoFile,
            }),
    {
        App { tab: TabId::Generate, gen: GenForm::new(), dec: DecodeScreen::new() }
    }

    /// Takes a key, and says what it asks for; `control` says whether the control key was held.
    pub fn on_key(&mut self, key: Key, control: bool) -> (r: AppAction)
        requires
            old(self).wf(),
        ensures
            final(self).wf(),
            final(self)@ == app_after(old(self)@, key, control),
            app_asks(old(self)@, key, control, r),
    {
        if control {
            match key {
                Key::Char('c') | Key::Char('q') => {
                    return AppAction::Quit;
                },
                _ => {},
            }
        }
        if key == Key::Tab {
            self.tab = match self.tab {
                TabId::Generate => TabId::Decode,
                TabId::Decode => TabId::Generate,
            };
            return AppAction::Nothing;
        }
        match self.tab {
            TabId::Generate => {
                if self.gen.handle_key(key) {
                    AppAction::Send
                } else {
                    AppAction::Nothing
                }
            },
            TabId::Decode => AppAction::Screen(self.dec.handle_key(key)),
        }
    }
}

/// Keys go to the tab in front alone: the other tab keeps all that it holds.
pub proof fn law_other_tab_is_kept(a: AppState, key: Key, control: bool)
    ensures
        a.tab is Generate ==> app_after(a, key, control).dec == a.dec,
        a.tab is Decode ==> app_after(a, key, control).gen == a.gen,
{
}

/// The tab key pressed twice changes nothing.
pub proof fn law_tab_twice_is_nothing(a: AppState)
    ensures
        app_after(app_after(a, Key::Tab, false), Key::Tab, false) == a,
{
}

/// Control with c or q quits, from whichever tab, and changes nothing; no other key quits. The tab
/// key goes to the other tab; no other key does.
pub proof fn law_only_control_c_and_q_quit(a: AppState, key: Key, control: bool, r: AppAction)
    requires
        app_asks(a, key, control, r),
    ensures
        r is Quit <==> control && (key == Key::Char('c') || key == Key::Char('q')),
        r is Quit ==> app_after(a, key, control) == a,
        key is Tab ==> r is Nothing && app_after(a, key, control).tab != a.tab,
        !(key is Tab) ==> app_after(a, key, control).tab == a.tab,
        r is Send <==> a.tab is Generate && key is Enter,
        !(r is Quit) && !(key is Tab) && a.tab is Generate ==> app_after(a, key, control).gen
            == form_after(a.gen, key),
        !(r is Quit) && !(key is Tab) && a.tab is Decode ==> app_after(a, key, control).dec
            == screen_after(a.dec, key),
        !(r is Quit) && !(key is Tab) && a.tab is Decode ==> (r matches AppAction::Screen(s)
            && key_asks(a.dec, key, s)),
{
}

} // verus!
