//! The decisions of the terminal interface: moving through a list of
//! choices, and what a key press does in the menus and in the main loop.
//! Drawing and reading keys are done by the application, which hands each
//! key press over as a `MenuKey`.

use vstd::prelude::*;
use crate::app_state::App;

verus! {

/// A list of choices with one of them marked.
pub struct SelectionState {
    pub items: Vec<String>,
    pub selected: usize,
}

/// The position after `sel` in a list of `len` choices, wrapping round.
pub open spec fn next_index(sel: usize, len: nat) -> usize {
    if len == 0 {
        sel
    } else {
        ((sel + 1) % (len as int)) as usize
    }
}

/// The position before `sel` in a list of `len` choices, wrapping round.
pub open spec fn prev_index(sel: usize, len: nat) -> usize {
    if len == 0 {
        sel
    } else if sel == 0 {
        (len - 1) as usize
    } else {
        (sel - 1) as usize
    }
}

impl SelectionState {
    /// A list of choices with the first one marked.
    pub fn new(items: Vec<String>) -> (r: Self)
        ensures
            r.items@ == items@,
            r.selected == 0,
    {
        SelectionState { items, selected: 0 }
    }

    /// Marks the next choice, wrapping round from the last to the first.
    pub fn next(&mut self)
        requires
            old(self).items@.len() > 0 ==> old(self).selected < usize::MAX,
        ensures
            final(self).items@ == old(self).items@,
            final(self).selected == next_index(old(self).selected, old(self).items@.len()),
    {
        if !self.items.is_empty() {
            self.selected = (self.selected + 1) % self.items.len();
        }
    }

    /// Marks the previous choice, wrapping round from the first to the last.
    pub fn prev(&mut self)
        ensures
            final(self).items@ == old(self).items@,
            final(self).selected == prev_index(old(self).selected, old(self).items@.len()),
    {
        if !self.items.is_empty() {
            self.selected = if self.selected == 0 {
                self.items.len() - 1
            } else {
                self.selected - 1
            };
        }
    }

    /// The marked choice, if the mark is on one.
    pub fn get_selected(&self) -> (r: Option<&String>)
        ensures
            match r {
                Some(s) => self.selected < self.items@.len() && *s == self.items@[self.selected as int],
                None => self.selected >= self.items@.len(),
            },
    {
        if self.selected < self.items.len() {
            Some(&self.items[self.selected])
        } else {
            None
        }
    }
}

/// Moving forward and then back through a list of choices returns to the
/// choice one started from, and so does moving back and then forward.
pub proof fn lemma_next_prev_inverse(sel: usize, len: nat)
    requires
        sel < len,
        len <= usize::MAX,
    ensures
        prev_index(next_index(sel, len), len) == sel,
        next_index(prev_index(sel, len), len) == sel,
        next_index(sel, len) < len,
        prev_index(sel, len) < len,
{
    vstd::arithmetic::div_mod::lemma_mod_self_0(len as int);
    if sel + 1 < len {
        vstd::arithmetic::div_mod::lemma_small_mod((sel + 1) as nat, len);
    }
    if sel > 0 {
        vstd::arithmetic::div_mod::lemma_small_mod(sel as nat, len);
    } else {
        vstd::arithmetic::div_mod::lemma_small_mod((len - 1) as nat, len);
    }
}

/// What each key does in a menu with the mark on one of its `len` choices,
/// in either arrangement of the tab keys: Up moves the mark one place back
/// and Down one place forward, wrapping round; Tab and BackTab move it back
/// and forward, or forward and back when `back_tab` holds; Enter chooses the
/// marked choice; `q` leaves; any other key leaves the mark where it is.
pub proof fn lemma_menu_keys(sel: usize, len: nat, back_tab: bool, c: char)
    requires
        sel < len,
        len <= usize::MAX,
    ensures
        menu_step(sel, len, MenuKey::Up, back_tab).1 == MenuAction::Stay,
        menu_step(sel, len, MenuKey::Up, back_tab).0 < len,
        (menu_step(sel, len, MenuKey::Up, back_tab).0 + 1) % (len as int) == sel,
        menu_step(sel, len, MenuKey::Down, back_tab).1 == MenuAction::Stay,
        menu_step(sel, len, MenuKey::Down, back_tab).0 == (sel + 1) % (len as int),
        menu_step(sel, len, MenuKey::Tab, back_tab).1 == MenuAction::Stay,
        menu_step(sel, len, MenuKey::BackTab, back_tab).1 == MenuAction::Stay,
        !back_tab ==> menu_step(sel, len, MenuKey::Tab, back_tab).0 == menu_step(sel, len, MenuKey::Up, back_tab).0,
        !back_tab ==> menu_step(sel, len, MenuKey::BackTab, back_tab).0 == menu_step(sel, len, MenuKey::Down, back_tab).0,
        back_tab ==> menu_step(sel, len, MenuKey::Tab, back_tab).0 == menu_step(sel, len, MenuKey::Down, back_tab).0,
        back_tab ==> menu_step(sel, len, MenuKey::BackTab, back_tab).0 == menu_step(sel, len, MenuKey::Up, back_tab).0,
        menu_step(sel, len, MenuKey::Enter, back_tab) == (sel, MenuAction::Choose(sel)),
        menu_step(sel, len, MenuKey::Char('q'), back_tab) == (sel, MenuAction::Quit),
        c != 'q' ==> menu_step(sel, len, MenuKey::Char(c), back_tab) == (sel, MenuAction::Stay),
        menu_step(sel, len, MenuKey::Other, back_tab) == (sel, MenuAction::Stay),
{
    lemma_next_prev_inverse(sel, len);
    let p = menu_step(sel, len, MenuKey::Up, back_tab).0;
    assert(p < len);
    assert(next_index(p, len) == sel);
}

/// A key press, as the menus understand it.
#[derive(Debug, Clone, Copy, PartialEq, Eq, Structural)]
pub enum MenuKey {
    Up,
    Down,
    Tab,
    BackTab,
    Enter,
    Char(char),
    Other,
}

/// What a menu does after a key press: keep asking, return the marked
/// choice, or leave the program.
#[derive(Debug, Clone, Copy, PartialEq, Eq, Structural)]
pub enum MenuAction {
    Stay,
    Choose(usize),
    Quit,
}

/// What a key press does to a menu with the mark at `sel` among `len`
/// choices: Up moves back and Down forward; BackTab moves back and Tab
/// forward when `back_tab` holds, and the other way round when it does not;
/// Enter chooses the marked entry if the mark is on one; `q` leaves.
pub open spec fn menu_step(sel: usize, len: nat, key: MenuKey, back_tab: bool) -> (usize, MenuAction) {
    match key {
        MenuKey::Up => (prev_index(sel, len), MenuAction::Stay),
        MenuKey::Down => (next_index(sel, len), MenuAction::Stay),
        MenuKey::Tab => if back_tab {
            (next_index(sel, len), MenuAction::Stay)
        } else {
            (prev_index(sel, len), MenuAction::Stay)
        },
        MenuKey::BackTab => if back_tab {
            (prev_index(sel, len), MenuAction::Stay)
        } else {
            (next_index(sel, len), MenuAction::Stay)
        },
        MenuKey::Enter => if sel < len {
            (sel, MenuAction::Choose(sel))
        } else {
            (sel, MenuAction::Stay)
        },
        MenuKey::Char(c) => if c == 'q' {
            (sel, MenuAction::Quit)
        } else {
            (sel, MenuAction::Stay)
        },
        MenuKey::Other => (sel, MenuAction::Stay),
    }
}

/// One key press in the audio host menu: Up and Tab move back, Down and
/// BackTab move forward, Enter chooses the marked host, `q` leaves.
pub fn select_host_step(state: &mut SelectionState, key: MenuKey) -> (r: MenuAction)
    requires
        old(state).items@.len() > 0 ==> old(state).selected < usize::MAX,
    ensures
        final(state).items@ == old(state).items@,
        (final(state).selected, r) == menu_step(old(state).selected, old(state).items@.len(), key, false),
{
    match key {
        MenuKey::Up | MenuKey::Tab => {
            state.prev();
            MenuAction::Stay
        },
        MenuKey::Down | MenuKey::BackTab => {
            state.next();
            MenuAction::Stay
        },
        MenuKey::Enter => {
            if state.selected < state.items.len() {
                MenuAction::Choose(state.selected)
            } else {
                MenuAction::Stay
            }
        },
        MenuKey::Char(c) => {
            if c == 'q' {
                MenuAction::Quit
            } else {
                MenuAction::Stay
            }
        },
        MenuKey::Other => MenuAction::Stay,
    }
}

/// One key press in the input device menu: Up and BackTab move back, Down
/// and Tab move forward, Enter chooses the marked device, `q` leaves.
pub fn select_device_step(state: &mut SelectionState, key: MenuKey) -> (r: MenuAction)
    requires
        old(state).items@.len() > 0 ==> old(state).selected < usize::MAX,
    ensures
        final(state).items@ == old(state).items@,
        (final(state).selected, r) == menu_step(old(state).selected, old(state).items@.len(), key, true),
{
    match key {
        MenuKey::Up | MenuKey::BackTab => {
            state.prev();
            MenuAction::Stay
        },
        MenuKey::Down | MenuKey::Tab => {
            state.next();
            MenuAction::Stay
        },
        MenuKey::Enter => {
            match state.get_selected() {
                Some(_) => MenuAction::Choose(state.selected),
                None => MenuAction::Stay,
            }
        },
        MenuKey::Char(c) => {
            if c == 'q' {
                MenuAction::Quit
            } else {
                MenuAction::Stay
            }
        },
        MenuKey::Other => MenuAction::Stay,
    }
}

/// One key press in the main loop: the state is left as it is, and `q`
/// ends the loop.
pub fn run_app_step(app: &mut App, key: MenuKey) -> (quit: bool)
    ensures
        *final(app) == *old(app),
        quit == (key == MenuKey::Char('q')),
{
    match key {
        MenuKey::Char(c) => c == 'q',
        _ => false,
    }
}

} // verus!
