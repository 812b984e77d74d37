//! Keys, and a list to pick from.

use vstd::prelude::*;

use crate::cli::texts;

verus! {

/// A key as the screens know it.
#[derive(Clone, Copy, Debug, PartialEq, Eq, Structural)]
pub enum Key {
    Char(char),
    Up,
    Down,
    Left,
    Right,
    Enter,
    Backspace,
    Tab,
    Esc,
    /// Any other key.
    Other,
}

/// A list of names, one of which is selected.
pub struct Picker {
    pub names: Vec<String>,
    pub sel: usize,
}

/// The names in a list, and which is selected.
#[verifier::ext_equal]
pub struct PickerState {
    pub names: Seq<Seq<char>>,
    pub sel: nat,
}

impl View for Picker {
    type V = PickerState;

    open spec fn view(&self) -> PickerState {
        PickerState { names: texts(self.names@), sel: self.sel as nat }
    }
}

/// The list with the name before selected; the first stays the first.
pub open spec fn moved_up(p: PickerState) -> PickerState {
    PickerState { sel: if p.sel > 0 { (p.sel - 1) as nat } else { 0 }, ..p }
}

/// The list with the name behind selected; the last stays the last.
pub open spec fn moved_down(p: PickerState) -> PickerState {
    PickerState {
        sel: if p.sel + 1 < p.names.len() {
            p.sel + 1
        } else {
            p.sel
        },
        ..p
    }
}

/// The number of the name that is selected, where there is one.
pub open spec fn selected(p: PickerState) -> Option<nat> {
    if p.sel < p.names.len() {
        Some(p.sel)
    } else {
        None
    }
}

impl Picker {
    /// A list with its first name selected.
    pub fn new(names: Vec<String>) -> (r: Picker)
        ensures
            r@ == (PickerState { names: texts(names@), sel: 0 }),
    {
        Picker { names, sel: 0 }
    }

    /// Selects the name before.
    pub fn up(&mut self)
        ensures
            final(self)@ == moved_up(old(self)@),
    {
        if self.sel > 0 {
            self.sel = self.sel - 1;
        }
    }

    /// Selects the name behind.
    pub fn down(&mut self)
        ensures
            final(self)@ == moved_down(old(self)@),
    {
        if self.sel < self.names.len() && self.names.len() - self.sel > 1 {
            self.sel = self.sel + 1;
        }
    }

    /// The number of the name that is selected.
    pub fn selected(&self) -> (r: Option<usize>)
        ensures
            match r {
                Some(i) => selected(self@) == Some(i as nat),
                None => selected(self@) is None,
            },
    {
        if self.sel < self.names.len() {
            Some(self.sel)
        } else {
            None
        }
    }
}

/// In a list that is not empty, a name is selected, whatever keys were pressed.
pub proof fn law_some_name_is_selected(p: PickerState)
    requires
        selected(p) is Some,
    ensures
        selected(moved_up(p)) is Some,
        selected(moved_down(p)) is Some,
{
}

/// Up selects the name before and down the name behind, no further than the first and the last, and
/// the names stay.
pub proof fn law_selection_moves_by_one(p: PickerState)
    ensures
        moved_up(p).names == p.names && moved_down(p).names == p.names,
        p.sel > 0 ==> moved_up(p).sel == p.sel - 1,
        p.sel == 0 ==> moved_up(p).sel == 0,
        p.sel + 1 < p.names.len() ==> moved_down(p).sel == p.sel + 1 && moved_up(moved_down(p)) == p,
        p.sel + 1 >= p.names.len() ==> moved_down(p).sel == p.sel,
        p.sel < p.names.len() ==> selected(p) == Some(p.sel),
        p.sel >= p.names.len() ==> selected(p) is None,
{
}

} // verus!
