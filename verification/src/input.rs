//! Per-tick input snapshot: the level of each logical button on this tick and
//! the previous one, from which press/release edges are derived.

use vstd::prelude::*;

verus! {

/// One logical button's state: its level on the current tick and on the
/// previous tick.
#[derive(Clone, Copy, PartialEq, Eq, Structural)]
pub struct ButtonState {
    pub pressed: bool,
    pub previous: bool,
}

impl Default for ButtonState {
    fn default() -> (r: Self)
        ensures
            r == (ButtonState { pressed: false, previous: false }),
    {
        ButtonState { pressed: false, previous: false }
    }
}

impl ButtonState {
    /// The button is held on the current tick.
    pub fn pressed(&self) -> (r: bool)
        ensures
            r == self.pressed,
    {
        self.pressed
    }

    /// The button went from released to held on this tick.
    pub fn just_pressed(&self) -> (r: bool)
        ensures
            r == (self.pressed && !self.previous),
    {
        self.pressed && !self.previous
    }

    /// The button went from held to released on this tick.
    pub fn just_released(&self) -> (r: bool)
        ensures
            r == (!self.pressed && self.previous),
    {
        !self.pressed && self.previous
    }

    /// The button's level changed on this tick.
    pub fn just_changed(&self) -> (r: bool)
        ensures
            r == (self.pressed != self.previous),
    {
        self.pressed != self.previous
    }
}

/// The logical buttons of the device: a four-way directional pad, two
/// shoulder bumpers, two menu buttons and four action buttons.
#[derive(Clone, Copy, PartialEq, Eq, Structural)]
pub enum Button {
    PovDown,
    PovUp,
    PovLeft,
    PovRight,
    BumperL,
    BumperR,
    MenuL,
    MenuR,
    ActionH,
    ActionV,
    ActionB,
    ActionA,
}

/// How many logical buttons there are.
pub const BUTTON_COUNT: usize = 12;

/// The slot each button occupies in an input snapshot.
pub open spec fn spec_button_index(b: Button) -> int {
    match b {
        Button::PovDown => 0,
        Button::PovUp => 1,
        Button::PovLeft => 2,
        Button::PovRight => 3,
        Button::BumperL => 4,
        Button::BumperR => 5,
        Button::MenuL => 6,
        Button::MenuR => 7,
        Button::ActionH => 8,
        Button::ActionV => 9,
        Button::ActionB => 10,
        Button::ActionA => 11,
    }
}

impl Button {
    /// The slot this button occupies in an input snapshot.
    pub fn index(self) -> (i: usize)
        ensures
            i == spec_button_index(self),
            i < BUTTON_COUNT,
    {
        match self {
            Button::PovDown => 0,
            Button::PovUp => 1,
            Button::PovLeft => 2,
            Button::PovRight => 3,
            Button::BumperL => 4,
            Button::BumperR => 5,
            Button::MenuL => 6,
            Button::MenuR => 7,
            Button::ActionH => 8,
            Button::ActionV => 9,
            Button::ActionB => 10,
            Button::ActionA => 11,
        }
    }
}

/// The full input snapshot: one `ButtonState` per logical button.
pub struct Input {
    buttons: Vec<ButtonState>,
}

impl View for Input {
    type V = Seq<ButtonState>;

    closed spec fn view(&self) -> Seq<ButtonState> {
        self.buttons@
    }
}

impl Input {
    /// An input snapshot is a state for every logical button.
    pub open spec fn wf(&self) -> bool {
        self@.len() == BUTTON_COUNT
    }

    /// The state of `b` in this snapshot.
    pub open spec fn spec_get(&self, b: Button) -> ButtonState {
        self@[spec_button_index(b)]
    }

    pub open spec fn spec_pressed(&self, b: Button) -> bool {
        self.spec_get(b).pressed
    }

    pub open spec fn spec_just_pressed(&self, b: Button) -> bool {
        self.spec_get(b).pressed && !self.spec_get(b).previous
    }

    pub open spec fn spec_just_released(&self, b: Button) -> bool {
        !self.spec_get(b).pressed && self.spec_get(b).previous
    }
}

impl Default for Input {
    /// A snapshot with every button released, now and on the previous tick.
    fn default() -> (r: Self)
        ensures
            r.wf(),
            forall|b: Button| !r.spec_get(b).pressed && !r.spec_get(b).previous,
    {
        let mut buttons: Vec<ButtonState> = Vec::new();
        let mut i: usize = 0;
        while i < BUTTON_COUNT
            invariant
                i <= BUTTON_COUNT,
                buttons@.len() == i,
                forall|j: int|
                    0 <= j < i ==> !buttons@[j].pressed && !buttons@[j].previous,
            decreases BUTTON_COUNT - i,
        {
            buttons.push(ButtonState { pressed: false, previous: false });
            i += 1;
        }
        Input { buttons }
    }
}

impl Input {
    /// Start a new tick: each button's current level becomes its previous one.
    pub fn update(&mut self)
        requires
            old(self).wf(),
        ensures
            final(self).wf(),
            forall|b: Button|
                #[trigger] final(self).spec_get(b) == (ButtonState {
                    pressed: old(self).spec_get(b).pressed,
                    previous: old(self).spec_get(b).pressed,
                }),
    {
        let mut i: usize = 0;
        while i < BUTTON_COUNT
            invariant
                i <= BUTTON_COUNT,
                self.buttons@.len() == BUTTON_COUNT,
                forall|j: int|
                    i <= j < BUTTON_COUNT ==> self.buttons@[j] == old(self).buttons@[j],
                forall|j: int|
                    0 <= j < i ==> #[trigger] self.buttons@[j] == (ButtonState {
                        pressed: old(self).buttons@[j].pressed,
                        previous: old(self).buttons@[j].pressed,
                    }),
            decreases BUTTON_COUNT - i,
        {
            let level = self.buttons[i].pressed;
            self.buttons.set(i, ButtonState { pressed: level, previous: level });
            i += 1;
        }
    }

    /// Record that `button`'s level became `value`.
    pub fn event(&mut self, button: Button, value: bool)
        requires
            old(self).wf(),
        ensures
            final(self).wf(),
            final(self).spec_get(button) == (ButtonState {
                pressed: value,
                previous: old(self).spec_get(button).previous,
            }),
            forall|b: Button|
                spec_button_index(b) != spec_button_index(button)
                    ==> #[trigger] final(self).spec_get(b) == old(self).spec_get(b),
    {
        let i = button.index();
        let previous = self.buttons[i].previous;
        self.buttons.set(i, ButtonState { pressed: value, previous });
    }

    pub fn pressed(&self, button: Button) -> (r: bool)
        requires
            self.wf(),
        ensures
            r == self.spec_pressed(button),
    {
        self.buttons[button.index()].pressed()
    }

    pub fn just_pressed(&self, button: Button) -> (r: bool)
        requires
            self.wf(),
        ensures
            r == self.spec_just_pressed(button),
    {
        self.buttons[button.index()].just_pressed()
    }

    pub fn just_released(&self, button: Button) -> (r: bool)
        requires
            self.wf(),
        ensures
            r == self.spec_just_released(button),
    {
        self.buttons[button.index()].just_released()
    }

    pub fn just_changed(&self, button: Button) -> (r: bool)
        requires
            self.wf(),
        ensures
            r == (self.spec_get(button).pressed != self.spec_get(button).previous),
    {
        self.buttons[button.index()].just_changed()
    }

    pub fn get(&self, button: Button) -> (r: ButtonState)
        requires
            self.wf(),
        ensures
            r == self.spec_get(button),
    {
        self.buttons[button.index()]
    }
}

} // verus!
