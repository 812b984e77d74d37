//! The generate screen: a form for a timecode, a length, a rate and a sample rate.

use vstd::prelude::*;

use super::keys::Key;
use crate::rate::PRESETS;
use crate::text::{
    decimal, law_decimal_is_read_back, number_up_to, number_value, parse_u32, push_decimal, push_quoted,
    quoted, trim, trimmed,
};

verus! {

/// The form. Fields 0 to 3 are the start, the length, the frames a second and the sample rate.
/// The frames a second are chosen from presets; the others are free text.
pub struct GenForm {
    pub start: String,
    pub length: String,
    pub fps_idx: usize,
    pub rate: String,
    pub focus: usize,
    pub status: String,
}

/// What the form holds.
#[verifier::ext_equal]
pub struct FormState {
    pub start: Seq<char>,
    pub length: Seq<char>,
    pub fps_idx: int,
    pub rate: Seq<char>,
    pub focus: int,
    pub status: Seq<char>,
}

/// What is asked for when the form is sent.
pub struct FormRequest {
    pub start: String,
    pub fps: &'static str,
    pub rate: u32,
}

impl View for GenForm {
    type V = FormState;

    open spec fn view(&self) -> FormState {
        FormState {
            start: self.start@,
            length: self.length@,
            fps_idx: self.fps_idx as int,
            rate: self.rate@,
            focus: self.focus as int,
            status: self.status@,
        }
    }
}

/// The form with the focus on the field behind, round to the first.
pub open spec fn focused_next(f: FormState) -> FormState {
    FormState { focus: (f.focus + 1) % 4, ..f }
}

/// The form with the focus on the field before, round to the last.
pub open spec fn focused_prev(f: FormState) -> FormState {
    FormState { focus: (f.focus + 3) % 4, ..f }
}

/// The form after a character was typed into the field in focus. The field for the frames a
/// second takes none.
pub open spec fn typed(f: FormState, c: char) -> FormState {
    if f.focus == 0 {
        FormState { start: f.start.push(c), ..f }
    } else if f.focus == 1 {
        FormState { length: f.length.push(c), ..f }
    } else if f.focus == 3 {
        FormState { rate: f.rate.push(c), ..f }
    } else {
        f
    }
}

/// The text without its last character.
pub open spec fn shortened(s: Seq<char>) -> Seq<char> {
    if s.len() == 0 {
        s
    } else {
        s.drop_last()
    }
}

/// The form after the last character of the field in focus was taken away.
pub open spec fn erased(f: FormState) -> FormState {
    if f.focus == 0 {
        FormState { start: shortened(f.start), ..f }
    } else if f.focus == 1 {
        FormState { length: shortened(f.length), ..f }
    } else if f.focus == 3 {
        FormState { rate: shortened(f.rate), ..f }
    } else {
        f
    }
}

/// The form with the preset behind or before, round at the ends.
pub open spec fn cycled(f: FormState, forward: bool) -> FormState {
    FormState {
        fps_idx: if forward {
            (f.fps_idx + 1) % 5
        } else {
            (f.fps_idx + 4) % 5
        },
        ..f
    }
}

/// The form after a key. Enter sends it, and leaves it as it is.
pub open spec fn form_after(f: FormState, key: Key) -> FormState {
    match key {
        Key::Up => focused_prev(f),
        Key::Down => focused_next(f),
        Key::Left => if f.focus == 2 {
            cycled(f, false)
        } else {
            f
        },
        Key::Right => if f.focus == 2 {
            cycled(f, true)
        } else {
            f
        },
        Key::Backspace => erased(f),
        Key::Char(c) => typed(f, c),
        _ => f,
    }
}

/// The number of the sample rate that the form holds.
pub open spec fn form_rate(f: FormState) -> Option<nat> {
    number_up_to(trimmed(f.rate), u32::MAX as nat)
}

/// What the status says after the form was sent, before anything is generated: what is wrong
/// with the length or the sample rate, or what it said before.
pub open spec fn sent_status(f: FormState, length_is_number: bool) -> Seq<char> {
    if !length_is_number {
        "bad length: "@ + quoted(f.length)
    } else if form_rate(f) is None {
        "bad rate: "@ + quoted(f.rate)
    } else {
        f.status
    }
}

/// What the status says of what was generated, or of why nothing was.
pub open spec fn finished_status(path: Seq<char>, payload_frames: u32, error: Option<Seq<char>>) -> Seq<
    char,
> {
    match error {
        None => "wrote "@ + path + " ("@ + decimal(payload_frames as nat) + " frames)"@,
        Some(e) => "error: "@ + e,
    }
}

impl GenForm {
    /// The number of fields.
    pub const N: usize = 4;

    /// The focus is on a field, and a preset is chosen.
    pub open spec fn wf(&self) -> bool {
        self.focus < 4 && self.fps_idx < 5
    }

    /// A form for ten seconds at 30 frames a second from 01:00:00:00 on.
    pub fn new() -> (r: GenForm)
        ensures
            r.wf(),
            r@ == (FormState {
                start: "01:00:00:00"@,
                length: "10"@,
                fps_idx: 2,
                rate: "48000"@,
                focus: 0,
                status: "edit fields, Enter to write"@,
            }),
    {
        GenForm {
            start: "01:00:00:00".to_owned(),
            length: "10".to_owned(),
            fps_idx: 2,
            rate: "48000".to_owned(),
            focus: 0,
            status: "edit fields, Enter to write".to_owned(),
        }
    }

    /// Takes a key, and says whether the form is to be sent.
    pub fn handle_key(&mut self, key: Key) -> (send: bool)
        requires
            old(self).wf(),
        ensures
            final(self).wf(),
            final(self)@ == form_after(old(self)@, key),
            send == (key is Enter),
    {
        match key {
            Key::Up => self.focus_prev(),
            Key::Down => self.focus_next(),
            Key::Left => {
                if self.focus == 2 {
                    self.cycle_fps(false);
                }
            },
            Key::Right => {
                if self.focus == 2 {
                    self.cycle_fps(true);
                }
            },
            Key::Backspace => self.backspace(),
            Key::Enter => {
                return true;
            },
            Key::Char(c) => self.input_char(c),
            _ => {},
        }
        false
    }

    /// Moves the focus to the field behind.
    pub fn focus_next(&mut self)
        requires
            old(self).wf(),
        ensures
            final(self).wf(),
            final(self)@ == focused_next(old(self)@),
    {
        self.focus = (self.focus + 1) % Self::N;
    }

    /// Moves the focus to the field before.
    pub fn focus_prev(&mut self)
        requires
            old(self).wf(),
        ensures
            final(self).wf(),
            final(self)@ == focused_prev(old(self)@),
    {
        self.focus = (self.focus + Self::N - 1) % Self::N;
    }

    /// Types a character into the field in focus.
    pub fn input_char(&mut self, c: char)
        requires
            old(self).wf(),
        ensures
            final(self).wf(),
            final(self)@ == typed(old(self)@, c),
    {
        if self.focus == 0 {
            self.start.push(c);
        } else if self.focus == 1 {
            self.length.push(c);
        } else if self.focus == 3 {
            self.rate.push(c);
        }
    }

    /// Takes away the last character of the field in focus.
    pub fn backspace(&mut self)
        requires
            old(self).wf(),
        ensures
            final(self).wf(),
            final(self)@ == erased(old(self)@),
    {
        if self.focus == 0 {
            let _ = self.start.pop();
        } else if self.focus == 1 {
            let _ = self.length.pop();
        } else if self.focus == 3 {
            let _ = self.rate.pop();
        }
    }

    /// Chooses the preset behind or before.
    pub fn cycle_fps(&mut self, forward: bool)
        requires
            old(self).wf(),
        ensures
            final(self).wf(),
            final(self)@ == cycled(old(self)@, forward),
    {
        let n: usize = PRESETS.len();
        self.fps_idx = if forward {
            (self.fps_idx + 1) % n
        } else {
            (self.fps_idx + n - 1) % n
        };
    }

    /// The text of the length.
    pub fn length_text(&self) -> (r: String)
        ensures
            r@ == trimmed(self.length@),
    {
        trim(self.length.as_str())
    }

    /// Sends the form, where `length_is_number` says whether the text of the length is a number.
    /// What is wrong with the length, or else with the sample rate, goes to the status.
    pub fn submit(&mut self, length_is_number: bool) -> (r: Option<FormRequest>)
        requires
            old(self).wf(),
        ensures
            final(self).wf(),
            final(self)@ == (FormState {
                status: sent_status(old(self)@, length_is_number),
                ..old(self)@
            }),
            match r {
                Some(req) => {
                    &&& length_is_number
                    &&& form_rate(old(self)@) == Some(req.rate as nat)
                    &&& req.start@ == trimmed(old(self)@.start)
                    &&& req.fps@ == PRESETS@[old(self)@.fps_idx]@
                },
                None => !length_is_number || form_rate(old(self)@) is None,
            },
    {
        if !length_is_number {
            let mut m: String = "bad length: ".to_owned();
            push_quoted(&mut m, self.length.as_str());
            self.status = m;
            return None;
        }
        let rate_text: String = trim(self.rate.as_str());
        match parse_u32(rate_text.as_str()) {
            None => {
                let mut m: String = "bad rate: ".to_owned();
                push_quoted(&mut m, self.rate.as_str());
                self.status = m;
                None
            },
            Some(rate) => Some(
                FormRequest { start: trim(self.start.as_str()), fps: PRESETS[self.fps_idx], rate },
            ),
        }
    }

    /// Shows what was written.
    pub fn wrote(&mut self, path: &str, payload_frames: u32)
        requires
            old(self).wf(),
        ensures
            final(self).wf(),
            final(self)@ == (FormState {
                status: finished_status(path@, payload_frames, None),
                ..old(self)@
            }),
    {
        let mut m: String = "wrote ".to_owned();
        m.append(path);
        m.append(" (");
        push_decimal(&mut m, payload_frames as u64);
        m.append(" frames)");
        self.status = m;
    }

    /// Shows why nothing was written.
    pub fn failed(&mut self, error: &str)
        requires
            old(self).wf(),
        ensures
            final(self).wf(),
            final(self)@ == (FormState {
                status: finished_status(Seq::empty(), 0, Some(error@)),
                ..old(self)@
            }),
    {
        let mut m: String = "error: ".to_owned();
        m.append(error);
        self.status = m;
    }

    /// The name of field `i` and what it holds.
    pub fn field(&self, i: usize) -> (r: (&'static str, String))
        requires
            self.wf(),
            i < 4,
        ensures
            r.0@ == field_label(i as int),
            r.1@ == field_text(self@, i as int),
    {
        if i == 0 {
            ("start", self.start.clone())
        } else if i == 1 {
            ("length (s)", self.length.clone())
        } else if i == 2 {
            ("fps", PRESETS[self.fps_idx].to_owned())
        } else {
            ("sample rate", self.rate.clone())
        }
    }
}

/// The name of field `i`.
pub open spec fn field_label(i: int) -> Seq<char> {
    if i == 0 {
        "start"@
    } else if i == 1 {
        "length (s)"@
    } else if i == 2 {
        "fps"@
    } else {
        "sample rate"@
    }
}

/// What field `i` holds.
pub open spec fn field_text(f: FormState, i: int) -> Seq<char> {
    if i == 0 {
        f.start
    } else if i == 1 {
        f.length
    } else if i == 2 {
        PRESETS@[f.fps_idx]@
    } else {
        f.rate
    }
}

/// The focus wraps: forth and back, and back and forth, it is where it was, and four steps go
/// all the way round.
pub proof fn law_focus_wraps(f: FormState)
    requires
        0 <= f.focus < 4,
    ensures
        focused_prev(focused_next(f)) == f,
        focused_next(focused_prev(f)) == f,
        focused_next(focused_next(focused_next(focused_next(f)))) == f,
{
}

/// The presets wrap in the same way, after five steps.
pub proof fn law_presets_wrap(f: FormState)
    requires
        0 <= f.fps_idx < 5,
    ensures
        cycled(cycled(f, true), false) == f,
        cycled(cycled(f, false), true) == f,
        cycled(cycled(cycled(cycled(cycled(f, true), true), true), true), true) == f,
{
}

/// Backspace takes back what was typed, and typing never changes the frames a second.
pub proof fn law_backspace_undoes_typing(f: FormState, c: char)
    ensures
        f.focus != 2 ==> erased(typed(f, c)) == f,
        f.focus == 2 ==> typed(f, c) == f && erased(f) == f,
        typed(f, c).fps_idx == f.fps_idx,
{
    assert(f.start.push(c).drop_last() =~= f.start);
    assert(f.length.push(c).drop_last() =~= f.length);
    assert(f.rate.push(c).drop_last() =~= f.rate);
}

/// A character goes to the end of the text in focus, and nothing else changes; the field for the
/// frames a second takes none.
pub proof fn law_typing_goes_to_the_field_in_focus(f: FormState, c: char)
    ensures
        ({
            let g = typed(f, c);
            &&& g.start == if f.focus == 0 {
                f.start + seq![c]
            } else {
                f.start
            }
            &&& g.length == if f.focus == 1 {
                f.length + seq![c]
            } else {
                f.length
            }
            &&& g.rate == if f.focus == 3 {
                f.rate + seq![c]
            } else {
                f.rate
            }
            &&& g.fps_idx == f.fps_idx && g.focus == f.focus && g.status == f.status
        }),
{
    assert(f.start + seq![c] =~= f.start.push(c));
    assert(f.length + seq![c] =~= f.length.push(c));
    assert(f.rate + seq![c] =~= f.rate.push(c));
}

/// Backspace takes the last character of the text in focus, where there is one, and nothing else.
pub proof fn law_backspace_takes_one_character(f: FormState)
    ensures
        ({
            let g = erased(f);
            &&& f.focus != 0 || f.start.len() == 0 ==> g.start == f.start
            &&& f.focus != 1 || f.length.len() == 0 ==> g.length == f.length
            &&& f.focus != 3 || f.rate.len() == 0 ==> g.rate == f.rate
            &&& f.focus == 0 && f.start.len() > 0 ==> g.start.push(f.start.last()) == f.start
            &&& f.focus == 1 && f.length.len() > 0 ==> g.length.push(f.length.last()) == f.length
            &&& f.focus == 3 && f.rate.len() > 0 ==> g.rate.push(f.rate.last()) == f.rate
            &&& g.fps_idx == f.fps_idx && g.focus == f.focus && g.status == f.status
        }),
{
}

/// What each key does on the form: up and down move the focus round its four fields, left and right
/// the preset round the five, where it is in focus; characters and backspace edit the text; and no
/// key does anything else.
pub proof fn law_form_keys(f: FormState, key: Key)
    requires
        0 <= f.focus < 4,
        0 <= f.fps_idx < 5,
    ensures
        ({
            let g = form_after(f, key);
            let edits = key is Char || key is Backspace;
            &&& !edits ==> g.start == f.start && g.length == f.length && g.rate == f.rate
            &&& g.status == f.status
            &&& 0 <= g.focus < 4 && 0 <= g.fps_idx < 5
            &&& key is Down ==> g.focus == if f.focus == 3 {
                0
            } else {
                f.focus + 1
            }
            &&& key is Up ==> g.focus == if f.focus == 0 {
                3
            } else {
                f.focus - 1
            }
            &&& !(key is Up) && !(key is Down) ==> g.focus == f.focus
            &&& f.focus == 2 && key is Right ==> g.fps_idx == if f.fps_idx == 4 {
                0
            } else {
                f.fps_idx + 1
            }
            &&& f.focus == 2 && key is Left ==> g.fps_idx == if f.fps_idx == 0 {
                4
            } else {
                f.fps_idx - 1
            }
            &&& f.focus != 2 || !(key is Left || key is Right) ==> g.fps_idx == f.fps_idx
            &&& key matches Key::Char(c) ==> g == typed(f, c)
            &&& key is Backspace ==> g == erased(f)
        }),
{
}

/// A form is sent where its length is a number and its sample rate is a number up to 4294967295,
/// with or without white space round it; else the status says which is bad, of the length first.
pub proof fn law_bad_fields_are_named(f: FormState, length_is_number: bool)
    ensures
        !length_is_number ==> sent_status(f, length_is_number) == "bad length: "@ + quoted(f.length),
        length_is_number && number_up_to(trimmed(f.rate), 0xffff_ffff) is None ==> sent_status(
            f,
            length_is_number,
        ) == "bad rate: "@ + quoted(f.rate),
        length_is_number && number_up_to(trimmed(f.rate), 0xffff_ffff) is Some ==> sent_status(
            f,
            length_is_number,
        ) == f.status,
        form_rate(f) == number_up_to(trimmed(f.rate), 0xffff_ffff),
{
}

/// A character that is typed appears at the end of the field in focus, and no other field changes
/// what it shows; backspace takes it away again. Where the frames a second are in focus, none does.
pub proof fn law_typed_characters_are_shown(f: FormState, c: char, i: int)
    requires
        0 <= f.focus < 4,
        0 <= i < 4,
    ensures
        i == f.focus && i != 2 ==> field_text(typed(f, c), i) == field_text(f, i) + seq![c],
        i != f.focus || i == 2 ==> field_text(typed(f, c), i) == field_text(f, i),
        field_text(erased(typed(f, c)), i) == if f.focus == 2 {
            field_text(erased(f), i)
        } else {
            field_text(f, i)
        },
{
    assert(f.start + seq![c] =~= f.start.push(c));
    assert(f.length + seq![c] =~= f.length.push(c));
    assert(f.rate + seq![c] =~= f.rate.push(c));
    assert(f.start.push(c).drop_last() =~= f.start);
    assert(f.length.push(c).drop_last() =~= f.length);
    assert(f.rate.push(c).drop_last() =~= f.rate);
}

/// What was written is told by its path and the number of its frames, and what was not by what went
/// wrong.
pub proof fn law_outcome_is_told(path: Seq<char>, payload_frames: u32, error: Seq<char>)
    ensures
        ({
            let done = finished_status(path, payload_frames, None);
            let k = decimal(payload_frames as nat).len() as int;
            let p = path.len() as int;
            let failed = finished_status(path, payload_frames, Some(error));
            &&& done.subrange(6, 6 + p) == path
            &&& number_value(done.subrange(8 + p, 8 + p + k)) == Some(
                payload_frames as nat,
            )
            &&& failed.skip(7) == error
            &&& done[0] == 'w' && failed[0] == 'e'
        }),
{
    reveal_strlit("wrote ");
    reveal_strlit(" (");
    reveal_strlit("error: ");
    law_decimal_is_read_back(payload_frames as nat);
    let done = finished_status(path, payload_frames, None);
    let digits = decimal(payload_frames as nat);
    let p = path.len() as int;
    let k = digits.len() as int;
    assert(done.subrange(6, 6 + p) =~= path);
    assert(done.subrange(8 + p, 8 + p + k) =~= digits);
    assert(finished_status(path, payload_frames, Some(error)).skip(7) =~= error);
}

} // verus!
