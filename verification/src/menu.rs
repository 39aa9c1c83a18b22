//! The app-switcher menu: a fixed list of registered app names, a selection
//! cursor, and the index of the activated app once one is chosen. The apps
//! themselves are a closed set that the surrounding program constructs from
//! the activated index.

use vstd::prelude::*;
use vstd::string::StringExecFns;
use crate::draw::{Color, DrawCall, DrawCallV, draws_view};
use crate::input::{Button, Input};
use crate::render::{backdrop, red, sat_add, white};

verus! {

/// The selection after one tick: up moves it towards the first entry, down
/// towards the last, both clamped.
pub open spec fn menu_cursor_next(cur: int, len: int, up: bool, down: bool) -> int {
    let c1 = if up {
        if cur > 0 {
            cur - 1
        } else {
            0
        }
    } else {
        cur
    };
    if down {
        if c1 + 1 < len {
            c1 + 1
        } else {
            len - 1
        }
    } else {
        c1
    }
}

/// Entry `i` of the menu screen: its name, white when selected, red
/// otherwise.
pub open spec fn entry_draw(entries: Seq<Seq<char>>, cur: int, i: int) -> DrawCallV {
    DrawCallV::Text {
        x: 200,
        y: sat_add(50, 40 * i),
        size: 36,
        color: if i == cur {
            white()
        } else {
            red()
        },
        text: entries[i],
    }
}

/// The menu screen: the backdrop and one line per registered app.
pub open spec fn menu_screen(entries: Seq<Seq<char>>, cur: int, width: int, height: int) -> Seq<
    DrawCallV,
> {
    seq![backdrop(width, height)] + Seq::new(entries.len(), |i: int| entry_draw(entries, cur, i))
}

/// The app-switcher menu.
pub struct MenuApp {
    pub entries: Vec<String>,
    pub current_app: usize,
    pub active: Option<usize>,
}

impl Default for MenuApp {
    /// An empty menu with nothing registered.
    fn default() -> (m: MenuApp)
        ensures
            m.wf(),
            m.entries.deep_view() == Seq::<Seq<char>>::empty(),
            m.current_app == 0,
            m.active is None,
    {
        let m = MenuApp { entries: Vec::new(), current_app: 0, active: None };
        proof {
            assert(m.entries.deep_view() =~= Seq::<Seq<char>>::empty());
        }
        m
    }
}

impl MenuApp {
    /// The cursor, and an activated app, always point at an entry.
    pub open spec fn wf(&self) -> bool {
        &&& (self.entries@.len() == 0 ==> self.current_app == 0)
        &&& (self.entries@.len() > 0 ==> self.current_app < self.entries@.len())
        &&& (self.active matches Some(i) ==> i < self.entries@.len())
    }

    /// Register one more app under the given name.
    pub fn register_app(&mut self, name: &str)
        requires
            old(self).wf(),
        ensures
            final(self).wf(),
            final(self).entries.deep_view() == old(self).entries.deep_view().push(name@),
            final(self).current_app == old(self).current_app,
            final(self).active == old(self).active,
    {
        let ghost prefix = self.entries.deep_view();
        self.entries.push(name.to_owned());
        proof {
            assert(self.entries.deep_view() =~= prefix.push(name@));
        }
    }

    /// Which app is running, if one was activated.
    pub fn active_app(&self) -> (r: Option<usize>)
        ensures
            r == self.active,
    {
        self.active
    }

    /// One tick at the menu: the directional buttons move the selection and
    /// the first action button activates the selected app.
    pub fn update(&mut self, input: &Input)
        requires
            old(self).wf(),
            old(self).entries@.len() > 0,
            old(self).active is None,
            input.wf(),
        ensures
            final(self).wf(),
            final(self).entries@ == old(self).entries@,
            final(self).current_app == menu_cursor_next(
                old(self).current_app as int,
                old(self).entries@.len() as int,
                input.spec_just_pressed(Button::PovUp),
                input.spec_just_pressed(Button::PovDown),
            ),
            final(self).active == if input.spec_just_pressed(Button::ActionA) {
                Some(final(self).current_app)
            } else {
                Option::<usize>::None
            },
    {
        if input.just_pressed(Button::PovUp) {
            if self.current_app > 0 {
                self.current_app -= 1;
            }
        }
        if input.just_pressed(Button::PovDown) {
            if self.current_app < self.entries.len() - 1 {
                self.current_app += 1;
            } else {
                self.current_app = self.entries.len() - 1;
            }
        }
        if input.just_pressed(Button::ActionA) {
            self.active = Some(self.current_app);
        }
    }

    /// The menu screen's draw calls.
    pub fn render(&self, width: usize, height: usize) -> (calls: Vec<DrawCall>)
        requires
            self.wf(),
        ensures
            draws_view(calls@) == menu_screen(
                self.entries.deep_view(),
                self.current_app as int,
                width as int,
                height as int,
            ),
    {
        let mut calls: Vec<DrawCall> = Vec::new();
        calls.push(DrawCall::Rect { x: 0, y: 0, w: width, h: height, color: Color::new(0, 0, 0) });
        let ghost head = draws_view(calls@);
        proof {
            assert(head =~= seq![backdrop(width as int, height as int)]);
        }
        let mut y: usize = 50;
        let mut i: usize = 0;
        while i < self.entries.len()
            invariant
                self.wf(),
                i <= self.entries@.len(),
                y as int == sat_add(50, 40 * (i as int)),
                head == seq![backdrop(width as int, height as int)],
                draws_view(calls@) == head + Seq::new(
                    i as nat,
                    |j: int| entry_draw(
                        self.entries.deep_view(),
                        self.current_app as int,
                        j,
                    ),
                ),
            decreases self.entries@.len() - i,
        {
            let ghost before = draws_view(calls@);
            let color = if i == self.current_app {
                Color::new(255, 255, 255)
            } else {
                Color::new(255, 0, 0)
            };
            calls.push(
                DrawCall::Text { x: 200, y, size: 36, color, text: self.entries[i].clone() },
            );
            proof {
                assert(self.entries.deep_view()[i as int] == self.entries@[i as int]@);
                assert(draws_view(calls@) =~= before.push(
                    entry_draw(self.entries.deep_view(), self.current_app as int, i as int),
                ));
                assert(Seq::new(
                    (i + 1) as nat,
                    |j: int| entry_draw(
                        self.entries.deep_view(),
                        self.current_app as int,
                        j,
                    ),
                ) =~= Seq::new(
                    i as nat,
                    |j: int| entry_draw(
                        self.entries.deep_view(),
                        self.current_app as int,
                        j,
                    ),
                ).push(entry_draw(self.entries.deep_view(), self.current_app as int, i as int)));
                assert(40 * ((i + 1) as int) == 40 * (i as int) + 40) by (nonlinear_arith);
            }
            y = if y <= usize::MAX - 40 {
                y + 40
            } else {
                usize::MAX
            };
            i += 1;
        }
        proof {
            assert(draws_view(calls@) =~= menu_screen(
                self.entries.deep_view(),
                self.current_app as int,
                width as int,
                height as int,
            ));
        }
        calls
    }
}

} // verus!
