//! Edge detection between the polled hardware and the rest of the node:
//! the floor sensor and the obstruction switch report changes only, and each
//! call button fires once per press until its lamp is put out.
use vstd::prelude::*;
use crate::types::CAB;

verus! {

/// A pending-flag triple with the flag of `kind` set to `on`.
pub open spec fn set_flag(row: [bool; 3], kind: u8, on: bool) -> [bool; 3] {
    if kind == 0 {
        [on, row[1], row[2]]
    } else if kind == 1 {
        [row[0], on, row[2]]
    } else {
        [row[0], row[1], on]
    }
}

fn with_flag(row: [bool; 3], kind: u8, on: bool) -> (r: [bool; 3])
    ensures
        r == set_flag(row, kind, on),
{
    if kind == 0 {
        [on, row[1], row[2]]
    } else if kind == 1 {
        [row[0], on, row[2]]
    } else {
        [row[0], row[1], on]
    }
}

/// Mathematical model of a [`HardwareInputs`].
pub struct InputsView {
    pub n_floors: u8,
    pub current_floor: Option<u8>,
    pub obstruction: bool,
    pub pending: Seq<[bool; 3]>,
}

/// The edge detector of the hardware inputs of one cabin.
pub struct HardwareInputs {
    n_floors: u8,
    current_floor: Option<u8>,
    obstruction: bool,
    pending: Vec<[bool; 3]>,
}

impl View for HardwareInputs {
    type V = InputsView;

    closed spec fn view(&self) -> InputsView {
        InputsView {
            n_floors: self.n_floors,
            current_floor: self.current_floor,
            obstruction: self.obstruction,
            pending: self.pending@,
        }
    }
}

impl HardwareInputs {
    /// One pending flag triple per floor.
    pub open spec fn wf(&self) -> bool {
        self@.pending.len() == self@.n_floors
    }

    /// A detector for `n_floors` floors, with the obstruction level read at
    /// start, no floor seen and no button pending.
    pub fn new(n_floors: u8, obstruction: bool) -> (r: HardwareInputs)
        ensures
            r.wf(),
            r@ == (InputsView {
                n_floors,
                current_floor: None,
                obstruction,
                pending: Seq::new(n_floors as nat, |f: int| [false, false, false]),
            }),
    {
        let mut pending: Vec<[bool; 3]> = Vec::with_capacity(n_floors as usize);
        let mut f: u8 = 0;
        while f < n_floors
            invariant
                f <= n_floors,
                pending@ == Seq::new(f as nat, |g: int| [false, false, false]),
            decreases n_floors - f,
        {
            pending.push([false, false, false]);
            f += 1;
            assert(pending@ =~= Seq::new(f as nat, |g: int| [false, false, false]));
        }
        HardwareInputs { n_floors, current_floor: None, obstruction, pending }
    }

    /// A reading of the floor sensor: a floor different from the last one
    /// seen is reported (and remembered); between floors, or at the same
    /// floor, nothing is.
    pub fn floor_reading(&mut self, sensor: Option<u8>) -> (r: Option<u8>)
        requires
            old(self).wf(),
        ensures
            final(self).wf(),
            match sensor {
                Some(f) if old(self)@.current_floor != Some(f) => r == Some(f) && final(self)@ == (InputsView {
                    current_floor: Some(f),
                    ..old(self)@
                }),
                _ => r is None && final(self)@ == old(self)@,
            },
    {
        match sensor {
            Some(f) => {
                if self.current_floor == Some(f) {
                    None
                } else {
                    self.current_floor = Some(f);
                    Some(f)
                }
            },
            None => None,
        }
    }

    /// A reading of the obstruction switch: a change is reported (and
    /// remembered), an unchanged level is not.
    pub fn obstruction_reading(&mut self, level: bool) -> (r: Option<bool>)
        requires
            old(self).wf(),
        ensures
            final(self).wf(),
            level != old(self)@.obstruction ==> r == Some(level) && final(self)@ == (InputsView {
                obstruction: level,
                ..old(self)@
            }),
            level == old(self)@.obstruction ==> r is None && final(self)@ == old(self)@,
    {
        if level != self.obstruction {
            self.obstruction = level;
            Some(level)
        } else {
            None
        }
    }

    /// A reading of the call button `(floor, kind)`: a press of a button
    /// that is not pending fires (and makes it pending); otherwise nothing
    /// fires.
    pub fn button_reading(&mut self, floor: u8, kind: u8, pressed: bool) -> (r: bool)
        requires
            old(self).wf(),
            floor < old(self)@.n_floors,
            kind <= CAB,
        ensures
            final(self).wf(),
            r == (pressed && !old(self)@.pending[floor as int][kind as int]),
            r ==> final(self)@ == (InputsView {
                pending: old(self)@.pending.update(floor as int, set_flag(old(self)@.pending[floor as int], kind, true)),
                ..old(self)@
            }),
            !r ==> final(self)@ == old(self)@,
    {
        let row = self.pending[floor as usize];
        if pressed && !row[kind as usize] {
            self.pending.set(floor as usize, with_flag(row, kind, true));
            true
        } else {
            false
        }
    }

    /// A lamp command for the button `(floor, kind)`: the button is pending
    /// exactly while its lamp is lit, so putting the lamp out lets the next
    /// press fire.
    pub fn lamp_command(&mut self, floor: u8, kind: u8, on: bool)
        requires
            old(self).wf(),
            floor < old(self)@.n_floors,
            kind <= CAB,
        ensures
            final(self).wf(),
            final(self)@ == (InputsView {
                pending: old(self)@.pending.update(floor as int, set_flag(old(self)@.pending[floor as int], kind, on)),
                ..old(self)@
            }),
    {
        let row = self.pending[floor as usize];
        self.pending.set(floor as usize, with_flag(row, kind, on));
    }
}

} // verus!
