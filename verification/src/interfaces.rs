//! The screens of the terminal interface, visited in a fixed cycle.

use vstd::prelude::*;

verus! {

/// A screen of the terminal interface.
#[derive(Debug, Clone, Copy, PartialEq, Eq, Structural)]
pub enum SelectInterfaces {
    AddProfile,
    AddNode,
    DeleteNode,
    SelectNode,
    UpdateNode,
    AddEqBand,
    DeleteEqBand,
    SelectEqBand,
    UpdateEqBand,
    SelectFilter,
    ViewEqCurve,
    DeleteProfile,
    SelectProfile,
    SearchProfile,
    UpdateProfile,
    AllProfiles,
    SaveProfile,
    SaveProfiles,
    Finalize,
    Load,
    Unload,
}

/// How many screens the cycle holds.
pub const INTERFACE_COUNT: usize = 21;

/// The position of a screen in the cycle.
pub open spec fn position_of(x: SelectInterfaces) -> int {
    match x {
        SelectInterfaces::AddProfile => 0,
        SelectInterfaces::AddNode => 1,
        SelectInterfaces::DeleteNode => 2,
        SelectInterfaces::SelectNode => 3,
        SelectInterfaces::UpdateNode => 4,
        SelectInterfaces::AddEqBand => 5,
        SelectInterfaces::DeleteEqBand => 6,
        SelectInterfaces::SelectEqBand => 7,
        SelectInterfaces::UpdateEqBand => 8,
        SelectInterfaces::SelectFilter => 9,
        SelectInterfaces::ViewEqCurve => 10,
        SelectInterfaces::DeleteProfile => 11,
        SelectInterfaces::SelectProfile => 12,
        SelectInterfaces::SearchProfile => 13,
        SelectInterfaces::UpdateProfile => 14,
        SelectInterfaces::AllProfiles => 15,
        SelectInterfaces::SaveProfile => 16,
        SelectInterfaces::SaveProfiles => 17,
        SelectInterfaces::Finalize => 18,
        SelectInterfaces::Load => 19,
        SelectInterfaces::Unload => 20,
    }
}

/// The screen at a position of the cycle.
pub open spec fn interface_at(i: int) -> SelectInterfaces {
    if i == 0 { SelectInterfaces::AddProfile }
    else if i == 1 { SelectInterfaces::AddNode }
    else if i == 2 { SelectInterfaces::DeleteNode }
    else if i == 3 { SelectInterfaces::SelectNode }
    else if i == 4 { SelectInterfaces::UpdateNode }
    else if i == 5 { SelectInterfaces::AddEqBand }
    else if i == 6 { SelectInterfaces::DeleteEqBand }
    else if i == 7 { SelectInterfaces::SelectEqBand }
    else if i == 8 { SelectInterfaces::UpdateEqBand }
    else if i == 9 { SelectInterfaces::SelectFilter }
    else if i == 10 { SelectInterfaces::ViewEqCurve }
    else if i == 11 { SelectInterfaces::DeleteProfile }
    else if i == 12 { SelectInterfaces::SelectProfile }
    else if i == 13 { SelectInterfaces::SearchProfile }
    else if i == 14 { SelectInterfaces::UpdateProfile }
    else if i == 15 { SelectInterfaces::AllProfiles }
    else if i == 16 { SelectInterfaces::SaveProfile }
    else if i == 17 { SelectInterfaces::SaveProfiles }
    else if i == 18 { SelectInterfaces::Finalize }
    else if i == 19 { SelectInterfaces::Load }
    else { SelectInterfaces::Unload }
}

/// The name under which a screen is shown.
pub open spec fn interface_name(x: SelectInterfaces) -> Seq<char> {
    match x {
        SelectInterfaces::AddProfile => "AddProfile"@,
        SelectInterfaces::AddNode => "AddNode"@,
        SelectInterfaces::DeleteNode => "DeleteNode"@,
        SelectInterfaces::SelectNode => "SelectNode"@,
        SelectInterfaces::UpdateNode => "UpdateNode"@,
        SelectInterfaces::AddEqBand => "AddEqBand"@,
        SelectInterfaces::DeleteEqBand => "DeleteEqBand"@,
        SelectInterfaces::SelectEqBand => "SelectEqBand"@,
        SelectInterfaces::UpdateEqBand => "UpdateEqBand"@,
        SelectInterfaces::SelectFilter => "SelectFilter"@,
        SelectInterfaces::ViewEqCurve => "ViewEqCurve"@,
        SelectInterfaces::DeleteProfile => "DeleteProfile"@,
        SelectInterfaces::SelectProfile => "SelectProfile"@,
        SelectInterfaces::SearchProfile => "SearchProfile"@,
        SelectInterfaces::UpdateProfile => "UpdateProfile"@,
        SelectInterfaces::AllProfiles => "AllProfiles"@,
        SelectInterfaces::SaveProfile => "SaveProfile"@,
        SelectInterfaces::SaveProfiles => "SaveProfiles"@,
        SelectInterfaces::Finalize => "Finalize"@,
        SelectInterfaces::Load => "Load"@,
        SelectInterfaces::Unload => "Unload"@,
    }
}

/// The screen after `x` in the cycle; the last screen is followed by the first.
pub open spec fn next_interface(x: SelectInterfaces) -> SelectInterfaces {
    interface_at((position_of(x) + 1) % 21)
}

/// The screen before `x` in the cycle; the first screen is preceded by the last.
pub open spec fn prev_interface(x: SelectInterfaces) -> SelectInterfaces {
    interface_at((position_of(x) + 21 - 1) % 21)
}

impl Default for SelectInterfaces {
    fn default() -> (r: Self)
        ensures
            r == SelectInterfaces::AddProfile,
    {
        SelectInterfaces::AddProfile
    }
}

impl SelectInterfaces {
    /// Every screen, in the order of the cycle.
    pub const ALL: [SelectInterfaces; 21] = [
        SelectInterfaces::AddProfile,
        SelectInterfaces::AddNode,
        SelectInterfaces::DeleteNode,
        SelectInterfaces::SelectNode,
        SelectInterfaces::UpdateNode,
        SelectInterfaces::AddEqBand,
        SelectInterfaces::DeleteEqBand,
        SelectInterfaces::SelectEqBand,
        SelectInterfaces::UpdateEqBand,
        SelectInterfaces::SelectFilter,
        SelectInterfaces::ViewEqCurve,
        SelectInterfaces::DeleteProfile,
        SelectInterfaces::SelectProfile,
        SelectInterfaces::SearchProfile,
        SelectInterfaces::UpdateProfile,
        SelectInterfaces::AllProfiles,
        SelectInterfaces::SaveProfile,
        SelectInterfaces::SaveProfiles,
        SelectInterfaces::Finalize,
        SelectInterfaces::Load,
        SelectInterfaces::Unload,
    ];

    /// The position of this screen in the cycle.
    fn position(&self) -> (i: usize)
        ensures
            i == position_of(*self),
            i < INTERFACE_COUNT,
    {
        match self {
            SelectInterfaces::AddProfile => 0,
            SelectInterfaces::AddNode => 1,
            SelectInterfaces::DeleteNode => 2,
            SelectInterfaces::SelectNode => 3,
            SelectInterfaces::UpdateNode => 4,
            SelectInterfaces::AddEqBand => 5,
            SelectInterfaces::DeleteEqBand => 6,
            SelectInterfaces::SelectEqBand => 7,
            SelectInterfaces::UpdateEqBand => 8,
            SelectInterfaces::SelectFilter => 9,
            SelectInterfaces::ViewEqCurve => 10,
            SelectInterfaces::DeleteProfile => 11,
            SelectInterfaces::SelectProfile => 12,
            SelectInterfaces::SearchProfile => 13,
            SelectInterfaces::UpdateProfile => 14,
            SelectInterfaces::AllProfiles => 15,
            SelectInterfaces::SaveProfile => 16,
            SelectInterfaces::SaveProfiles => 17,
            SelectInterfaces::Finalize => 18,
            SelectInterfaces::Load => 19,
            SelectInterfaces::Unload => 20,
        }
    }

    /// The screen at position `i` of the cycle.
    fn at(i: usize) -> (x: SelectInterfaces)
        requires
            i < INTERFACE_COUNT,
        ensures
            x == interface_at(i as int),
    {
        match i {
            0 => SelectInterfaces::AddProfile,
            1 => SelectInterfaces::AddNode,
            2 => SelectInterfaces::DeleteNode,
            3 => SelectInterfaces::SelectNode,
            4 => SelectInterfaces::UpdateNode,
            5 => SelectInterfaces::AddEqBand,
            6 => SelectInterfaces::DeleteEqBand,
            7 => SelectInterfaces::SelectEqBand,
            8 => SelectInterfaces::UpdateEqBand,
            9 => SelectInterfaces::SelectFilter,
            10 => SelectInterfaces::ViewEqCurve,
            11 => SelectInterfaces::DeleteProfile,
            12 => SelectInterfaces::SelectProfile,
            13 => SelectInterfaces::SearchProfile,
            14 => SelectInterfaces::UpdateProfile,
            15 => SelectInterfaces::AllProfiles,
            16 => SelectInterfaces::SaveProfile,
            17 => SelectInterfaces::SaveProfiles,
            18 => SelectInterfaces::Finalize,
            19 => SelectInterfaces::Load,
            _ => SelectInterfaces::Unload,
        }
    }

    /// The name under which this screen is shown.
    pub fn name(&self) -> (r: &'static str)
        ensures
            r@ == interface_name(*self),
    {
        match self {
            SelectInterfaces::AddProfile => "AddProfile",
            SelectInterfaces::AddNode => "AddNode",
            SelectInterfaces::DeleteNode => "DeleteNode",
            SelectInterfaces::SelectNode => "SelectNode",
            SelectInterfaces::UpdateNode => "UpdateNode",
            SelectInterfaces::AddEqBand => "AddEqBand",
            SelectInterfaces::DeleteEqBand => "DeleteEqBand",
            SelectInterfaces::SelectEqBand => "SelectEqBand",
            SelectInterfaces::UpdateEqBand => "UpdateEqBand",
            SelectInterfaces::SelectFilter => "SelectFilter",
            SelectInterfaces::ViewEqCurve => "ViewEqCurve",
            SelectInterfaces::DeleteProfile => "DeleteProfile",
            SelectInterfaces::SelectProfile => "SelectProfile",
            SelectInterfaces::SearchProfile => "SearchProfile",
            SelectInterfaces::UpdateProfile => "UpdateProfile",
            SelectInterfaces::SaveProfile => "SaveProfile",
            SelectInterfaces::SaveProfiles => "SaveProfiles",
            SelectInterfaces::Finalize => "Finalize",
            SelectInterfaces::Load => "Load",
            SelectInterfaces::Unload => "Unload",
            SelectInterfaces::AllProfiles => "AllProfiles",
        }
    }

    /// The screen after this one; the last screen wraps round to the first.
    pub fn next(&self) -> (r: SelectInterfaces)
        ensures
            r == next_interface(*self),
    {
        let idx = self.position();
        Self::at((idx + 1) % INTERFACE_COUNT)
    }

    /// The screen before this one; the first screen wraps round to the last.
    pub fn prev(&self) -> (r: SelectInterfaces)
        ensures
            r == prev_interface(*self),
    {
        let idx = self.position();
        Self::at((idx + INTERFACE_COUNT - 1) % INTERFACE_COUNT)
    }
}

/// Stepping forward and then back through the screens returns to the screen
/// one started from, and so does stepping back and then forward.
pub proof fn lemma_next_prev_inverse(x: SelectInterfaces)
    ensures
        prev_interface(next_interface(x)) == x,
        next_interface(prev_interface(x)) == x,
{
}

/// Every screen is at the position that the cycle gives it: the cycle visits
/// each of the 21 screens exactly once.
pub proof fn lemma_cycle_positions(x: SelectInterfaces)
    ensures
        0 <= position_of(x) < 21,
        interface_at(position_of(x)) == x,
{
}

/// The list of every screen holds, at each position of the cycle, the
/// screen at that position.
pub proof fn lemma_all_in_cycle_order()
    ensures
        SelectInterfaces::ALL@.len() == 21,
        forall|i: int| 0 <= i < 21 ==> #[trigger] SelectInterfaces::ALL@[i] == interface_at(i),
{
}

/// The screen reached from `x` after `k` steps forward through the cycle.
pub open spec fn steps_forward(x: SelectInterfaces, k: nat) -> SelectInterfaces
    decreases k,
{
    if k == 0 {
        x
    } else {
        next_interface(steps_forward(x, (k - 1) as nat))
    }
}

/// The screen at a position of the cycle sits at that position.
proof fn lemma_position_of_at(i: int)
    requires
        0 <= i < 21,
    ensures
        position_of(interface_at(i)) == i,
{
}

/// Stepping `k` times forward from `x` lands on the screen `k` places further
/// round the cycle.
pub proof fn lemma_steps_forward(x: SelectInterfaces, k: nat)
    ensures
        steps_forward(x, k) == interface_at((position_of(x) + k) % 21),
        position_of(steps_forward(x, k)) == (position_of(x) + k) % 21,
    decreases k,
{
    if k > 0 {
        lemma_steps_forward(x, (k - 1) as nat);
        let p = (position_of(x) + k - 1) % 21;
        lemma_position_of_at(p);
        assert((p + 1) % 21 == (position_of(x) + k) % 21);
    }
    lemma_position_of_at((position_of(x) + k) % 21);
}

/// Two different counts of steps below 21, from the same place, end at
/// different places of the cycle.
proof fn lemma_mod_cycle_distinct(p: int, i: int, j: int)
    requires
        0 <= p < 21,
        0 <= i < j < 21,
    ensures
        (p + i) % 21 != (p + j) % 21,
{
}

/// Twenty-one steps forward come back to the screen one started from.
pub proof fn lemma_full_cycle_returns(x: SelectInterfaces)
    ensures
        steps_forward(x, 21) == x,
{
    lemma_steps_forward(x, 21);
    lemma_cycle_positions(x);
    assert((position_of(x) + 21) % 21 == position_of(x));
}

/// The first twenty-one steps forward visit twenty-one different screens.
pub proof fn lemma_full_cycle_distinct(x: SelectInterfaces, i: nat, j: nat)
    requires
        i < j < 21,
    ensures
        steps_forward(x, i) != steps_forward(x, j),
{
    lemma_cycle_positions(x);
    lemma_steps_forward(x, i);
    lemma_steps_forward(x, j);
    lemma_mod_cycle_distinct(position_of(x), i as int, j as int);
}

/// Every screen is reached from `x` within the first twenty-one steps
/// forward: after as many steps as it lies ahead of `x` in the cycle.
pub proof fn lemma_full_cycle_reaches(x: SelectInterfaces, y: SelectInterfaces)
    ensures
        ((position_of(y) - position_of(x) + 21) % 21) < 21,
        steps_forward(x, ((position_of(y) - position_of(x) + 21) % 21) as nat) == y,
{
    lemma_cycle_positions(x);
    lemma_cycle_positions(y);
    let i = ((position_of(y) - position_of(x) + 21) % 21) as nat;
    lemma_steps_forward(x, i);
    assert((position_of(x) + i) % 21 == position_of(y));
}

/// A few characters of a screen name that tell the names apart: its length,
/// and its first, third and seventh characters (a space when it is shorter).
spec fn name_key(s: Seq<char>) -> (nat, char, char, char) {
    (s.len(), s[0], s[2], if s.len() > 6 { s[6] } else { ' ' })
}

/// The screen whose name has the key `k`.
spec fn screen_with_key(k: (nat, char, char, char)) -> SelectInterfaces {
    if k.0 == 10 && k.1 == 'A' && k.2 == 'd' && k.3 == 'f' {
        SelectInterfaces::AddProfile
    } else if k.0 == 7 && k.1 == 'A' && k.2 == 'd' && k.3 == 'e' {
        SelectInterfaces::AddNode
    } else if k.0 == 10 && k.1 == 'D' && k.2 == 'l' && k.3 == 'N' {
        SelectInterfaces::DeleteNode
    } else if k.0 == 10 && k.1 == 'S' && k.2 == 'l' && k.3 == 'N' {
        SelectInterfaces::SelectNode
    } else if k.0 == 10 && k.1 == 'U' && k.2 == 'd' && k.3 == 'N' {
        SelectInterfaces::UpdateNode
    } else if k.0 == 9 && k.1 == 'A' && k.2 == 'd' && k.3 == 'a' {
        SelectInterfaces::AddEqBand
    } else if k.0 == 12 && k.1 == 'D' && k.2 == 'l' && k.3 == 'E' {
        SelectInterfaces::DeleteEqBand
    } else if k.0 == 12 && k.1 == 'S' && k.2 == 'l' && k.3 == 'E' {
        SelectInterfaces::SelectEqBand
    } else if k.0 == 12 && k.1 == 'U' && k.2 == 'd' && k.3 == 'E' {
        SelectInterfaces::UpdateEqBand
    } else if k.0 == 12 && k.1 == 'S' && k.2 == 'l' && k.3 == 'F' {
        SelectInterfaces::SelectFilter
    } else if k.0 == 11 && k.1 == 'V' && k.2 == 'e' && k.3 == 'C' {
        SelectInterfaces::ViewEqCurve
    } else if k.0 == 13 && k.1 == 'D' && k.2 == 'l' && k.3 == 'P' {
        SelectInterfaces::DeleteProfile
    } else if k.0 == 13 && k.1 == 'S' && k.2 == 'l' && k.3 == 'P' {
        SelectInterfaces::SelectProfile
    } else if k.0 == 13 && k.1 == 'S' && k.2 == 'a' && k.3 == 'P' {
        SelectInterfaces::SearchProfile
    } else if k.0 == 13 && k.1 == 'U' && k.2 == 'd' && k.3 == 'P' {
        SelectInterfaces::UpdateProfile
    } else if k.0 == 11 && k.1 == 'A' && k.2 == 'l' && k.3 == 'f' {
        SelectInterfaces::AllProfiles
    } else if k.0 == 11 && k.1 == 'S' && k.2 == 'v' && k.3 == 'o' {
        SelectInterfaces::SaveProfile
    } else if k.0 == 12 && k.1 == 'S' && k.2 == 'v' && k.3 == 'o' {
        SelectInterfaces::SaveProfiles
    } else if k.0 == 8 && k.1 == 'F' && k.2 == 'n' && k.3 == 'z' {
        SelectInterfaces::Finalize
    } else if k.0 == 4 && k.1 == 'L' && k.2 == 'a' && k.3 == ' ' {
        SelectInterfaces::Load
    } else {
        SelectInterfaces::Unload
    }
}

/// A screen is found again from the key of its name.
proof fn lemma_screen_with_key(x: SelectInterfaces)
    ensures
        screen_with_key(name_key(interface_name(x))) == x,
{
    reveal_strlit("AddProfile");
    reveal_strlit("AddNode");
    reveal_strlit("DeleteNode");
    reveal_strlit("SelectNode");
    reveal_strlit("UpdateNode");
    reveal_strlit("AddEqBand");
    reveal_strlit("DeleteEqBand");
    reveal_strlit("SelectEqBand");
    reveal_strlit("UpdateEqBand");
    reveal_strlit("SelectFilter");
    reveal_strlit("ViewEqCurve");
    reveal_strlit("DeleteProfile");
    reveal_strlit("SelectProfile");
    reveal_strlit("SearchProfile");
    reveal_strlit("UpdateProfile");
    reveal_strlit("AllProfiles");
    reveal_strlit("SaveProfile");
    reveal_strlit("SaveProfiles");
    reveal_strlit("Finalize");
    reveal_strlit("Load");
    reveal_strlit("Unload");
}

/// No two screens are shown under the same name.
pub proof fn lemma_names_distinct(x: SelectInterfaces, y: SelectInterfaces)
    requires
        interface_name(x) == interface_name(y),
    ensures
        x == y,
{
    lemma_screen_with_key(x);
    lemma_screen_with_key(y);
}

} // verus!
