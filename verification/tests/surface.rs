use rg35xx::cards::CardPool;
use rg35xx::draw::{Color, DrawCall};
use rg35xx::frame::Frame;
use rg35xx::input::{Button, ButtonState, Input};
use rg35xx::make_menu;
use rg35xx::taboo::TabooApp;

#[test]
fn button_state_edges() {
    let held = ButtonState { pressed: true, previous: false };
    assert!(held.pressed());
    assert!(held.just_pressed());
    assert!(!held.just_released());
    assert!(held.just_changed());
    let released = ButtonState { pressed: false, previous: true };
    assert!(!released.pressed());
    assert!(!released.just_pressed());
    assert!(released.just_released());
    assert!(released.just_changed());
    let steady = ButtonState { pressed: true, previous: true };
    assert!(!steady.just_changed());
}

#[test]
fn input_tracks_edges_across_ticks() {
    let mut input = Input::default();
    assert!(!input.pressed(Button::ActionA));
    input.event(Button::ActionA, true);
    assert!(input.pressed(Button::ActionA));
    assert!(input.just_pressed(Button::ActionA));
    assert!(!input.just_pressed(Button::ActionB));
    input.update();
    assert!(input.pressed(Button::ActionA));
    assert!(!input.just_pressed(Button::ActionA));
    input.event(Button::ActionA, false);
    assert!(input.just_released(Button::ActionA));
    assert!(input.get(Button::ActionA).just_changed());
}

#[test]
fn pixels_land_at_their_offsets() {
    let mut frame = Frame::new(4, 3, 4);
    assert_eq!(frame.width(), 4);
    assert_eq!(frame.height(), 3);
    assert_eq!(frame.bytespp(), 4);
    frame.put_pixel(1, 2, Color::new(10, 20, 30));
    let off = 2 * 4 * 4 + 1 * 4;
    assert_eq!(frame.data[off], 10);
    assert_eq!(frame.data[off + 1], 20);
    assert_eq!(frame.data[off + 2], 30);
    assert_eq!(frame.data[off + 3], 0);
    // A write outside the frame is ignored.
    frame.put_pixel(4, 0, Color::new(9, 9, 9));
    frame.put_pixel(0, 3, Color::new(9, 9, 9));
    assert!(frame.data.iter().filter(|b| **b != 0).count() == 3);
}

#[test]
fn two_byte_pixels_pack_565() {
    let mut frame = Frame::new(2, 1, 2);
    frame.put_pixel(0, 0, Color::new(255, 255, 255));
    assert_eq!(frame.data[0], 0xff);
    assert_eq!(frame.data[1], 0xff);
    frame.put_pixel(1, 0, Color::new(255, 0, 0));
    assert_eq!(frame.data[2], 0x00);
    assert_eq!(frame.data[3], 0xf8);
}

#[test]
fn fill_rect_covers_exactly_the_rectangle() {
    let mut frame = Frame::new(4, 4, 4);
    frame.fill_rect(1, 1, 2, 2, Color::new(1, 2, 3));
    for y in 0..4usize {
        for x in 0..4usize {
            let off = y * 4 * 4 + x * 4;
            let inside = (1..3).contains(&x) && (1..3).contains(&y);
            if inside {
                assert_eq!(frame.data[off], 1);
                assert_eq!(frame.data[off + 1], 2);
                assert_eq!(frame.data[off + 2], 3);
            } else {
                assert_eq!(frame.data[off], 0);
            }
        }
    }
}

#[test]
fn menu_lists_apps_and_activates() {
    let mut menu = make_menu();
    assert_eq!(menu.entries, vec!["Snake", "Taboo", "Distance Integrator"]);
    assert_eq!(menu.current_app, 0);
    let mut down = Input::default();
    down.event(Button::PovDown, true);
    menu.update(&down);
    assert_eq!(menu.current_app, 1);
    // The cursor clamps at the list's ends.
    let mut up = Input::default();
    up.event(Button::PovUp, true);
    menu.update(&up);
    menu.update(&up);
    assert_eq!(menu.current_app, 0);
    let mut choose = Input::default();
    choose.event(Button::PovDown, true);
    choose.event(Button::ActionA, true);
    menu.update(&choose);
    assert_eq!(menu.active_app(), Some(1));
}

#[test]
fn menu_screen_draws_each_entry() {
    let menu = make_menu();
    let calls = menu.render(640, 480);
    assert_eq!(calls.len(), 4);
    assert!(matches!(
        &calls[0],
        DrawCall::Rect { x: 0, y: 0, w: 640, h: 480, color: Color { red: 0, green: 0, blue: 0 } }
    ));
    match &calls[2] {
        DrawCall::Text { x, y, size, text, .. } => {
            assert_eq!((*x, *y, *size), (200, 90, 36));
            assert_eq!(text, "Taboo");
        }
        _ => panic!("expected a text call"),
    }
}

#[test]
fn taboo_menu_screen_shows_the_configuration() {
    let pool = CardPool::load("alpha,a\nbeta,b").unwrap();
    let app = TabooApp::new(pool);
    let calls = app.render(0, 640, 480);
    assert_eq!(calls.len(), 3);
    match &calls[1] {
        DrawCall::Text { x, y, text, .. } => {
            assert_eq!((*x, *y), (50, 50));
            assert_eq!(text, "Number of teams: 2");
        }
        _ => panic!("expected a text call"),
    }
    match &calls[2] {
        DrawCall::Text { text, .. } => assert_eq!(text, "Press START"),
        _ => panic!("expected a text call"),
    }
}

#[test]
fn playing_screen_shows_the_countdown_and_card() {
    let pool = CardPool::load("alpha,tabooed,banned").unwrap();
    let mut app = TabooApp::new(pool);
    let mut start = Input::default();
    start.event(Button::MenuR, true);
    app.update(&start, 0);
    let mut go = Input::default();
    go.event(Button::ActionA, true);
    app.update(&go, 1000);
    // 12.7 seconds into the turn, 47.3 remain; no card won yet.
    let calls = app.render(13700, 640, 480);
    match &calls[1] {
        DrawCall::Text { x, y, size, text, .. } => {
            assert_eq!((*x, *y, *size), (50, 50, 48));
            assert_eq!(text, "47.3s (0)");
        }
        _ => panic!("expected the countdown"),
    }
    match &calls[2] {
        DrawCall::Text { x, y, size, text, .. } => {
            assert_eq!((*x, *y, *size), (100, 140, 48));
            assert_eq!(text, "alpha");
        }
        _ => panic!("expected the card's word"),
    }
    match &calls[3] {
        DrawCall::Text { x, y, size, text, .. } => {
            assert_eq!((*x, *y, *size), (100, 175, 36));
            assert_eq!(text, "tabooed");
        }
        _ => panic!("expected the first taboo word"),
    }
    match &calls[4] {
        DrawCall::Text { y, text, .. } => {
            assert_eq!(*y, 215);
            assert_eq!(text, "banned");
        }
        _ => panic!("expected the second taboo word"),
    }
}

#[test]
fn ready_screen_shows_deck_size_and_scores() {
    let pool = CardPool::load("alpha,a\nbeta,b\ngamma,c").unwrap();
    let mut app = TabooApp::new(pool);
    let mut start = Input::default();
    start.event(Button::MenuR, true);
    app.update(&start, 0);
    let calls = app.render(0, 640, 480);
    match &calls[1] {
        DrawCall::Text { text, .. } => assert_eq!(text, "3 cards in deck"),
        _ => panic!("expected the deck size"),
    }
    match &calls[2] {
        DrawCall::Text { text, .. } => assert_eq!(text, "Team 0: Press A to start"),
        _ => panic!("expected the turn label"),
    }
    // One score line per team, the active one white.
    match &calls[4] {
        DrawCall::Text { x, y, color, text, .. } => {
            assert_eq!((*x, *y), (350, 50));
            assert_eq!(text, "Team 0: 0");
            assert!(matches!(color, Color { red: 255, green: 255, blue: 255 }));
        }
        _ => panic!("expected a score line"),
    }
    match &calls[5] {
        DrawCall::Text { y, color, text, .. } => {
            assert_eq!(*y, 70);
            assert_eq!(text, "Team 1: 0");
            assert!(matches!(color, Color { red: 255, green: 0, blue: 0 }));
        }
        _ => panic!("expected a score line"),
    }
}

#[test]
fn review_screen_shows_the_tallies() {
    let pool = CardPool::load("alpha,hidden").unwrap();
    let mut app = TabooApp::new(pool);
    let mut start = Input::default();
    start.event(Button::MenuR, true);
    app.update(&start, 0);
    let mut go = Input::default();
    go.event(Button::ActionA, true);
    app.update(&go, 0);
    // Pass the card, then end the turn explicitly.
    let mut pass = Input::default();
    pass.event(Button::ActionB, true);
    app.update(&pass, 500);
    let mut end = Input::default();
    end.event(Button::MenuR, true);
    app.update(&end, 900);
    let calls = app.render(900, 640, 480);
    match &calls[1] {
        DrawCall::Text { text, .. } => assert_eq!(text, "Got 0 cards"),
        _ => panic!("expected the won tally"),
    }
    match &calls[2] {
        DrawCall::Text { text, .. } => assert_eq!(text, "(discarded 1)"),
        _ => panic!("expected the discarded tally"),
    }
    // The cursor starts on the last entry: the timed-out card.
    match &calls[3] {
        DrawCall::Text { text, .. } => assert_eq!(text, "Timed out"),
        _ => panic!("expected the outcome label"),
    }
    match &calls[4] {
        DrawCall::Text { x, y, text, .. } => {
            assert_eq!((*x, *y), (100, 190));
            assert_eq!(text, "alpha");
        }
        _ => panic!("expected the reviewed card"),
    }
}
