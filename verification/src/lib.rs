//! Core engine for a small handheld game device: a per-tick input snapshot,
//! a pixel frame with rectangle fills, and a taboo-style word-guessing game
//! built from a deduplicated card pool, a draw/discard/won-pile deck, a
//! round-robin turn scheduler and a turn phase state machine.

pub mod cards;
pub mod deck;
pub mod draw;
pub mod fmt;
pub mod frame;
pub mod input;
pub mod menu;
pub mod render;
pub mod sched;
pub mod taboo;

use vstd::prelude::*;
use crate::menu::MenuApp;

verus! {

/// The device's app menu, with every known app registered: the snake game,
/// the taboo word game, and the flight distance integrator.
pub fn make_menu() -> (menu: MenuApp)
    ensures
        menu.wf(),
        menu.entries.deep_view() == seq!["Snake"@, "Taboo"@, "Distance Integrator"@],
        menu.current_app == 0,
        menu.active is None,
{
    let mut menu = MenuApp::default();
    menu.register_app("Snake");
    menu.register_app("Taboo");
    menu.register_app("Distance Integrator");
    proof {
        assert(menu.entries.deep_view() =~= seq!["Snake"@, "Taboo"@, "Distance Integrator"@]);
    }
    menu
}

} // verus!
