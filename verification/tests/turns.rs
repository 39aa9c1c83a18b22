use rg35xx::sched::CurrentTurn;
use rg35xx::deck::GameState;
use rg35xx::cards::CardPool;
use rg35xx::input::{Button, Input};
use rg35xx::taboo::{CardResult, TabooApp, TurnState};

#[test]
fn test_turn_increment() {
    let mut start = CurrentTurn::Player { asker: 0, askee: 1 };
    let expected = [
        (0, 1),
        (1, 2),
        (2, 3),
        (3, 0),
        (0, 2),
        (1, 3),
        (2, 0),
        (3, 1),
        (0, 3),
        (1, 0),
        (2, 1),
        (3, 2),
    ];
    for (expected_asker, expected_askee) in expected {
        match start {
            CurrentTurn::Team(_) => panic!("Not a team game!"),
            CurrentTurn::Player { asker, askee } => {
                assert_eq!(asker, expected_asker);
                assert_eq!(askee, expected_askee);
            }
        }
        start.next(4);
    }
}

#[test]
fn team_rotation_cycles() {
    let mut turn = CurrentTurn::Team(0);
    let mut seen = Vec::new();
    for _ in 0..3 {
        match turn {
            CurrentTurn::Team(t) => seen.push(t),
            CurrentTurn::Player { .. } => panic!("Not a player game!"),
        }
        turn.next(3);
    }
    assert_eq!(seen, vec![0, 1, 2]);
    assert!(matches!(turn, CurrentTurn::Team(0)));
}

#[test]
fn player_rotation_two_players() {
    let mut turn = CurrentTurn::Player { asker: 0, askee: 1 };
    turn.next(2);
    assert!(matches!(turn, CurrentTurn::Player { asker: 1, askee: 0 }));
    turn.next(2);
    assert!(matches!(turn, CurrentTurn::Player { asker: 0, askee: 1 }));
}

fn press(b: Button) -> Input {
    let mut input = Input::default();
    input.event(b, true);
    input
}

#[test]
fn session_turn_walkthrough() {
    let pool = CardPool::load("alpha,a\nbeta,b\ngamma,c").unwrap();
    let mut app = TabooApp::new(pool);
    // Switch to player mode, then start the game.
    app.update(&press(Button::MenuL), 0);
    app.update(&press(Button::MenuR), 0);
    match &app {
        TabooApp::InGame { game, turn, current_turn } => {
            assert_eq!(game.num_players, 2);
            assert!(!game.teams);
            assert_eq!(game.deck_size(), 3);
            assert!(matches!(turn, TurnState::ReadyingUp));
            assert!(matches!(current_turn, CurrentTurn::Player { asker: 0, askee: 1 }));
        }
        TabooApp::Menu { .. } => panic!("still at the menu"),
    }
    // Start the turn at one second, win the first card at two seconds.
    app.update(&press(Button::ActionA), 1000);
    app.update(&press(Button::ActionA), 2000);
    match &app {
        TabooApp::InGame { turn, .. } => match turn {
            TurnState::Playing { start_time, results, .. } => {
                assert_eq!(*start_time, 1000);
                assert_eq!(results.len(), 1);
                assert!(matches!(results[0].1, CardResult::Won));
            }
            _ => panic!("should be playing"),
        },
        TabooApp::Menu { .. } => panic!("still at the menu"),
    }
    // One millisecond before the minute is up, the countdown has not expired.
    app.update(&Input::default(), 60999);
    match &app {
        TabooApp::InGame { turn, .. } => assert!(matches!(turn, TurnState::Playing { .. })),
        TabooApp::Menu { .. } => panic!("still at the menu"),
    }
    // Once no time remains the turn ends; the card in play times out as the
    // last history entry, and the cursor rests on it.
    app.update(&Input::default(), 61000);
    match &app {
        TabooApp::InGame { turn, .. } => match turn {
            TurnState::TurnEnded { results, showing } => {
                assert_eq!(results.len(), 2);
                assert!(matches!(results[0].1, CardResult::Won));
                assert!(matches!(results[1].1, CardResult::Timeout));
                assert_eq!(*showing, 1);
            }
            _ => panic!("turn should have ended"),
        },
        TabooApp::Menu { .. } => panic!("still at the menu"),
    }
    // Review cursor clamps at both ends.
    app.update(&press(Button::PovRight), 61000);
    app.update(&press(Button::PovRight), 61000);
    match &app {
        TabooApp::InGame { turn: TurnState::TurnEnded { showing, .. }, .. } => {
            assert_eq!(*showing, 1)
        }
        _ => panic!("should be reviewing"),
    }
    app.update(&press(Button::PovLeft), 61000);
    app.update(&press(Button::PovLeft), 61000);
    app.update(&press(Button::PovLeft), 61000);
    match &app {
        TabooApp::InGame { turn: TurnState::TurnEnded { showing, .. }, .. } => {
            assert_eq!(*showing, 0)
        }
        _ => panic!("should be reviewing"),
    }
    // Confirming credits the won card cooperatively to both players, sends
    // the timed-out card to the discard pile, and rotates the pair.
    app.update(&press(Button::ActionA), 61000);
    match &app {
        TabooApp::InGame { game, turn, current_turn } => {
            assert!(matches!(turn, TurnState::ReadyingUp));
            assert!(matches!(current_turn, CurrentTurn::Player { asker: 1, askee: 0 }));
            assert_eq!(game.won_cards[0].len(), 1);
            assert_eq!(game.won_cards[1].len(), 1);
            assert_eq!(game.won_cards[0][0].word, game.won_cards[1][0].word);
            // Conservation: one card won, two still cycling, none in play.
            assert_eq!(game.deck_size(), 2);
        }
        TabooApp::Menu { .. } => panic!("still at the menu"),
    }
}

#[test]
fn team_mode_credits_one_pile() {
    let pool = CardPool::load("alpha,a\nbeta,b").unwrap();
    let mut app = TabooApp::new(pool);
    // Start in team mode (the default), run one turn, win nothing: the first
    // card simply times out.
    app.update(&press(Button::MenuR), 0);
    app.update(&press(Button::ActionA), 0);
    app.update(&press(Button::MenuR), 5000);
    match &app {
        TabooApp::InGame { turn, .. } => match turn {
            TurnState::TurnEnded { results, showing } => {
                assert_eq!(results.len(), 1);
                assert!(matches!(results[0].1, CardResult::Timeout));
                assert_eq!(*showing, 0);
            }
            _ => panic!("turn should have ended"),
        },
        TabooApp::Menu { .. } => panic!("still at the menu"),
    }
    app.update(&press(Button::ActionA), 5000);
    match &app {
        TabooApp::InGame { game, current_turn, .. } => {
            assert_eq!(game.won_cards[0].len(), 0);
            assert_eq!(game.won_cards[1].len(), 0);
            assert_eq!(game.deck_size(), 2);
            assert!(matches!(current_turn, CurrentTurn::Team(1)));
        }
        TabooApp::Menu { .. } => panic!("still at the menu"),
    }
}

#[test]
fn menu_configuration() {
    let pool = CardPool::load("alpha,a\nbeta,b").unwrap();
    let mut app = TabooApp::new(pool);
    match &app {
        TabooApp::Menu { players, teams, .. } => {
            assert_eq!(*players, 2);
            assert!(*teams);
        }
        _ => panic!("should start at the menu"),
    }
    app.update(&press(Button::PovUp), 0);
    app.update(&press(Button::PovUp), 0);
    app.update(&press(Button::PovDown), 0);
    match &app {
        TabooApp::Menu { players, .. } => assert_eq!(*players, 3),
        _ => panic!("should stay at the menu"),
    }
    // The floor is two players.
    app.update(&press(Button::PovDown), 0);
    app.update(&press(Button::PovDown), 0);
    app.update(&press(Button::PovDown), 0);
    match &app {
        TabooApp::Menu { players, .. } => assert_eq!(*players, 2),
        _ => panic!("should stay at the menu"),
    }
    // Abandoning a session from readying-up returns to the menu with the
    // configuration kept.
    app.update(&press(Button::MenuR), 0);
    app.update(&press(Button::ActionB), 0);
    match &app {
        TabooApp::Menu { players, teams, .. } => {
            assert_eq!(*players, 2);
            assert!(*teams);
        }
        _ => panic!("should be back at the menu"),
    }
}

#[test]
fn deck_reshuffles_and_refills() {
    let pool = CardPool::load("solo,x").unwrap();
    let mut game = GameState::new(&pool, 2, true);
    // A fresh deck is all draw pile, no discards.
    assert_eq!(game.deck.len(), 1);
    assert_eq!(game.discards.len(), 0);
    assert_eq!(game.deck_size(), 1);
    let card = game.draw_card();
    assert_eq!(card.word, "solo");
    assert_eq!(game.deck_size(), 0);
    // Returning it lands on the discard pile, not the draw pile; the next
    // draw reshuffles the discards into the draw pile, emptying them.
    game.return_discard(card);
    assert_eq!(game.deck.len(), 0);
    assert_eq!(game.discards.len(), 1);
    let card = game.draw_card();
    assert_eq!(card.word, "solo");
    assert_eq!(game.discards.len(), 0);
    // With the one card still in hand both piles are empty, so the next draw
    // refills the draw pile from the full pool.
    let refilled = game.draw_card();
    assert_eq!(refilled.word, "solo");
    assert_eq!(game.discards.len(), 0);
    drop(card);
}

#[test]
fn crediting_grows_the_named_piles() {
    let pool = CardPool::load("alpha,a\nbeta,b\ngamma,c").unwrap();
    let mut game = GameState::new(&pool, 3, true);
    let card = game.draw_card();
    let word = card.word.clone();
    game.credit_team(1, card);
    assert_eq!(game.won_cards[0].len(), 0);
    assert_eq!(game.won_cards[1].len(), 1);
    assert_eq!(game.won_cards[2].len(), 0);
    assert_eq!(game.won_cards[1][0].word, word);

    let mut game = GameState::new(&pool, 3, false);
    let card = game.draw_card();
    let word = card.word.clone();
    game.credit_pair(2, 0, card);
    assert_eq!(game.won_cards[0].len(), 1);
    assert_eq!(game.won_cards[1].len(), 0);
    assert_eq!(game.won_cards[2].len(), 1);
    assert_eq!(game.won_cards[0][0].word, word);
    assert_eq!(game.won_cards[2][0].word, word);
}

#[test]
fn fresh_deck_is_a_permutation_of_the_pool() {
    let pool = CardPool::load("alpha,a\nbeta,b\ngamma,c\ndelta,d").unwrap();
    let mut game = GameState::new(&pool, 2, true);
    let mut words = Vec::new();
    for _ in 0..4 {
        words.push(game.draw_card().word);
    }
    words.sort();
    assert_eq!(words, vec!["alpha", "beta", "delta", "gamma"]);
}

#[test]
fn passing_a_card_records_a_discard() {
    let pool = CardPool::load("alpha,a\nbeta,b").unwrap();
    let mut app = TabooApp::new(pool);
    app.update(&press(Button::MenuR), 0);
    app.update(&press(Button::ActionA), 0);
    app.update(&press(Button::ActionB), 100);
    match &app {
        TabooApp::InGame { turn, .. } => match turn {
            TurnState::Playing { results, .. } => {
                assert_eq!(results.len(), 1);
                assert!(matches!(results[0].1, CardResult::Discarded));
            }
            _ => panic!("should still be playing"),
        },
        TabooApp::Menu { .. } => panic!("still at the menu"),
    }
    // Ending the turn and confirming returns both cards to the discard pile.
    app.update(&press(Button::MenuR), 200);
    app.update(&press(Button::ActionA), 300);
    match &app {
        TabooApp::InGame { game, .. } => {
            assert_eq!(game.deck_size(), 2);
            assert_eq!(game.won_cards[0].len(), 0);
        }
        TabooApp::Menu { .. } => panic!("still at the menu"),
    }
}
