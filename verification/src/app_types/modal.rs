//! The state of the "manage Steam directories" dialog.
use vstd::prelude::*;
use crate::text::{push_char, without_last_char};

verus! {

/// Which part of the directory dialog has the keyboard.
#[derive(Debug, Clone, Copy, PartialEq, Eq, Structural)]
pub enum DirModalFocus {
    List,
    Input,
}

/// Whether the directory dialog is asking to confirm a reset.
#[derive(Debug, Clone, Copy, PartialEq, Eq, Structural)]
pub enum DirModalConfirm {
    Idle,
    ResetToDefaults,
}

/// The directory dialog.
pub struct DirModalState {
    pub focus: DirModalFocus,
    pub selected: usize,
    pub input: String,
    pub confirm: DirModalConfirm,
    /// Which entries are "custom" (not auto-detected defaults)
    pub custom_indices: Vec<usize>,
}

impl DirModalState {
    /// A dialog with the list focused, the first entry selected, an empty
    /// input, nothing to confirm and no custom entries.
    pub fn new() -> (r: Self)
        ensures
            r.focus == DirModalFocus::List,
            r.selected == 0,
            r.input@ == Seq::<char>::empty(),
            r.confirm == DirModalConfirm::Idle,
            r.custom_indices@ == Seq::<usize>::empty(),
    {
        Self {
            focus: DirModalFocus::List,
            selected: 0,
            input: String::new(),
            confirm: DirModalConfirm::Idle,
            custom_indices: Vec::new(),
        }
    }

    /// Tab: the keyboard goes from the list to the input, or back.
    pub fn toggle_focus(&mut self)
        ensures
            final(self).focus == (match old(self).focus {
                DirModalFocus::List => DirModalFocus::Input,
                DirModalFocus::Input => DirModalFocus::List,
            }),
            final(self).selected == old(self).selected,
            final(self).input == old(self).input,
            final(self).confirm == old(self).confirm,
            final(self).custom_indices == old(self).custom_indices,
    {
        self.focus = match self.focus {
            DirModalFocus::List => DirModalFocus::Input,
            DirModalFocus::Input => DirModalFocus::List,
        };
    }

    /// Selects the entry above, staying on the first.
    pub fn select_up(&mut self)
        ensures
            final(self).selected == (if old(self).selected > 0 {
                (old(self).selected - 1) as usize
            } else {
                0
            }),
            final(self).focus == old(self).focus,
            final(self).input == old(self).input,
            final(self).confirm == old(self).confirm,
            final(self).custom_indices == old(self).custom_indices,
    {
        if self.selected > 0 {
            self.selected = self.selected - 1;
        }
    }

    /// Selects the entry below, among `count` entries, staying on the last.
    pub fn select_down(&mut self, count: usize)
        ensures
            final(self).selected == (if old(self).selected + 1 < count {
                (old(self).selected + 1) as usize
            } else {
                old(self).selected
            }),
            final(self).focus == old(self).focus,
            final(self).input == old(self).input,
            final(self).confirm == old(self).confirm,
            final(self).custom_indices == old(self).custom_indices,
    {
        if count > 0 && self.selected < count - 1 {
            self.selected = self.selected + 1;
        }
    }

    /// Types `c` at the end of the input.
    pub fn input_push(&mut self, c: char)
        ensures
            final(self).input@ == old(self).input@.push(c),
            final(self).focus == old(self).focus,
            final(self).selected == old(self).selected,
            final(self).confirm == old(self).confirm,
            final(self).custom_indices == old(self).custom_indices,
    {
        push_char(&mut self.input, c);
    }

    /// Backspace: drops the input's last character, if any.
    pub fn input_pop(&mut self)
        ensures
            old(self).input@.len() > 0 ==> final(self).input@ == old(self).input@.drop_last(),
            old(self).input@.len() == 0 ==> final(self).input@ == old(self).input@,
            final(self).focus == old(self).focus,
            final(self).selected == old(self).selected,
            final(self).confirm == old(self).confirm,
            final(self).custom_indices == old(self).custom_indices,
    {
        self.input = without_last_char(self.input.as_str());
    }

    /// Takes the typed input out, leaving the input empty.
    pub fn take_input(&mut self) -> (r: String)
        ensures
            r@ == old(self).input@,
            final(self).input@ == Seq::<char>::empty(),
            final(self).focus == old(self).focus,
            final(self).selected == old(self).selected,
            final(self).confirm == old(self).confirm,
            final(self).custom_indices == old(self).custom_indices,
    {
        let mut taken = String::new();
        std::mem::swap(&mut taken, &mut self.input);
        taken
    }
}

} // verus!
