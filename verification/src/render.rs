//! What the engine draws each tick: a black background, then the text of the
//! current screen — the menu configuration, the pre-turn summary with deck
//! size and scores, the card in play with its taboo words and the countdown,
//! or the turn review. The exact list of draw calls is pinned down by a
//! specification for every state.

use vstd::prelude::*;
use crate::cards::CardV;
use crate::deck::GameState;
use crate::draw::{Color, DrawCall, DrawCallV, draws_view};
use crate::fmt::{dec_str, digit_char, digit_str, u64_to_string, usize_to_string};
use crate::sched::CurrentTurn;
use crate::taboo::{CardResult, TabooApp, TurnState, won_cards_of, TURN_MILLIS};

verus! {

/// White text, the surface's default.
pub open spec fn white() -> Color {
    Color { red: 255, green: 255, blue: 255 }
}

/// Red text, for what needs attention.
pub open spec fn red() -> Color {
    Color { red: 255, green: 0, blue: 0 }
}

/// The black background.
pub open spec fn black() -> Color {
    Color { red: 0, green: 0, blue: 0 }
}

/// Adding with the screen coordinates' saturation at the machine limit.
pub open spec fn sat_add(a: int, b: int) -> int {
    if a + b > usize::MAX {
        usize::MAX as int
    } else {
        a + b
    }
}

/// How many history entries were passed on.
pub open spec fn discarded_count(rs: Seq<(Card, CardResult)>) -> nat
    decreases rs.len(),
{
    if rs.len() == 0 {
        0
    } else {
        discarded_count(rs.drop_last()) + if rs.last().1 is Discarded {
            1nat
        } else {
            0nat
        }
    }
}

/// The backdrop: the whole frame filled black.
pub open spec fn backdrop(width: int, height: int) -> DrawCallV {
    DrawCallV::Rect { x: 0, y: 0, w: width, h: height, color: black() }
}

/// The menu screen: the configured party count and mode, and the start hint.
pub open spec fn menu_draws(players: int, teams: bool, width: int, height: int) -> Seq<
    DrawCallV,
> {
    seq![
        backdrop(width, height),
        DrawCallV::Text {
            x: 50,
            y: 50,
            size: 18,
            color: red(),
            text: (if teams {
                "Number of teams: "@
            } else {
                "Number of individual players: "@
            }) + dec_str(players as nat),
        },
        DrawCallV::Text { x: 50, y: 70, size: 18, color: red(), text: "Press START"@ },
    ]
}

/// Whose turn the summary announces.
pub open spec fn turn_label(ct: CurrentTurn) -> Seq<char> {
    match ct {
        CurrentTurn::Team(t) => "Team "@ + dec_str(t as nat) + ": Press A to start"@,
        CurrentTurn::Player { asker, askee } => "Player "@ + dec_str(asker as nat) + " asking "@
            + dec_str(askee as nat) + ": Press A to start"@,
    }
}

/// Whether party `i` takes part in the turn.
pub open spec fn party_is_up(ct: CurrentTurn, i: int) -> bool {
    match ct {
        CurrentTurn::Team(t) => t == i,
        CurrentTurn::Player { asker, askee } => i == asker || i == askee,
    }
}

/// The deck size the summary shows, saturated at the machine limit.
pub open spec fn size_shown(game: GameState) -> nat {
    if game.deck_size_spec() <= usize::MAX {
        game.deck_size_spec()
    } else {
        usize::MAX as nat
    }
}

/// Party `i`'s score line: white for the parties of the coming turn, red for
/// the rest.
pub open spec fn score_draw(game: GameState, ct: CurrentTurn, i: int) -> DrawCallV {
    DrawCallV::Text {
        x: 350,
        y: sat_add(50, 20 * i),
        size: 24,
        color: if party_is_up(ct, i) {
            white()
        } else {
            red()
        },
        text: "Team "@ + dec_str(i as nat) + ": "@ + dec_str(game.won_view()[i].len()),
    }
}

/// The pre-turn summary: deck size, whose turn it is, the exit hint, and one
/// score line per party.
pub open spec fn ready_draws(game: GameState, ct: CurrentTurn, width: int, height: int) -> Seq<
    DrawCallV,
> {
    seq![
        backdrop(width, height),
        DrawCallV::Text {
            x: 0,
            y: 0,
            size: 18,
            color: white(),
            text: dec_str(size_shown(game)) + " cards in deck"@,
        },
        DrawCallV::Text { x: 0, y: 20, size: 18, color: white(), text: turn_label(ct) },
        DrawCallV::Text { x: 0, y: 40, size: 18, color: white(), text: "B to finish game"@ },
    ] + Seq::new(game.num_players as nat, |i: int| score_draw(game, ct, i))
}

/// A card on screen: its word large and white, its taboo words below in red.
pub open spec fn card_draws(c: CardV, x: int, y: int) -> Seq<DrawCallV> {
    seq![DrawCallV::Text { x, y, size: 48, color: white(), text: c.word }] + Seq::new(
        c.taboo.len(),
        |i: int| DrawCallV::Text {
            x,
            y: sat_add(sat_add(y, 35), 40 * i),
            size: 36,
            color: red(),
            text: c.taboo[i],
        },
    )
}

/// The countdown's remaining milliseconds, clamped at zero.
pub open spec fn remaining_ms(start_time: u64, now_ms: u64) -> nat {
    if now_ms - start_time > TURN_MILLIS {
        0
    } else {
        (start_time + TURN_MILLIS - now_ms) as nat
    }
}

/// The countdown line: seconds and tenths remaining, and the won count.
pub open spec fn countdown_text(start_time: u64, now_ms: u64, won: nat) -> Seq<char> {
    let rem = remaining_ms(start_time, now_ms);
    dec_str(rem / 1000) + "."@ + seq![digit_char((rem % 1000) / 100)] + "s ("@ + dec_str(won)
        + ")"@
}

/// The playing screen: the countdown, the card in play, and the action hints.
pub open spec fn playing_draws(
    start_time: u64,
    card: CardV,
    results: Seq<(Card, CardResult)>,
    now_ms: u64,
    width: int,
    height: int,
) -> Seq<DrawCallV> {
    seq![
        backdrop(width, height),
        DrawCallV::Text {
            x: 50,
            y: 50,
            size: 48,
            color: white(),
            text: countdown_text(start_time, now_ms, won_cards_of(results).len()),
        },
    ] + card_draws(card, 100, 140) + seq![
        DrawCallV::Text {
            x: 50,
            y: 430,
            size: 18,
            color: white(),
            text: "B discard, A got card"@,
        },
    ]
}

/// The label of one reviewed outcome.
pub open spec fn outcome_label(r: CardResult) -> Seq<char> {
    match r {
        CardResult::Won => "Got"@,
        CardResult::Discarded => "Discarded"@,
        CardResult::Timeout => "Timed out"@,
    }
}

/// The review screen: the turn's tallies, the entry under the cursor with its
/// outcome and card, and the navigation hints.
pub open spec fn ended_draws(
    results: Seq<(Card, CardResult)>,
    showing: int,
    width: int,
    height: int,
) -> Seq<DrawCallV> {
    seq![
        backdrop(width, height),
        DrawCallV::Text {
            x: 50,
            y: 50,
            size: 48,
            color: white(),
            text: "Got "@ + dec_str(won_cards_of(results).len()) + " cards"@,
        },
        DrawCallV::Text {
            x: 50,
            y: 100,
            size: 48,
            color: white(),
            text: "(discarded "@ + dec_str(discarded_count(results)) + ")"@,
        },
        DrawCallV::Text {
            x: 100,
            y: 150,
            size: 48,
            color: white(),
            text: outcome_label(results[showing].1),
        },
    ] + card_draws(results[showing].0@, 100, 190) + seq![
        DrawCallV::Text {
            x: 50,
            y: 430,
            size: 18,
            color: white(),
            text: "POV change cards, A to continue"@,
        },
    ]
}

/// Everything one tick draws, by the state it shows.
pub open spec fn render_spec(app: TabooApp, now_ms: u64, width: int, height: int) -> Seq<
    DrawCallV,
> {
    match app {
        TabooApp::Menu { players, teams, .. } => menu_draws(
            players as int,
            teams,
            width,
            height,
        ),
        TabooApp::InGame { game, turn, current_turn } => match turn {
            TurnState::ReadyingUp => ready_draws(game, current_turn, width, height),
            TurnState::Playing { start_time, card, results } => playing_draws(
                start_time,
                card@,
                results@,
                now_ms,
                width,
                height,
            ),
            TurnState::TurnEnded { results, showing } => ended_draws(
                results@,
                showing as int,
                width,
                height,
            ),
        },
    }
}

use crate::cards::Card;

/// How many history entries were won.
fn count_won(results: &Vec<(Card, CardResult)>) -> (n: usize)
    ensures
        n == won_cards_of(results@).len(),
{
    let mut n: usize = 0;
    let mut i: usize = 0;
    proof {
        assert(results@.subrange(0, 0) =~= Seq::<(Card, CardResult)>::empty());
    }
    while i < results.len()
        invariant
            i <= results@.len(),
            n <= i,
            n == won_cards_of(results@.subrange(0, i as int)).len(),
        decreases results@.len() - i,
    {
        proof {
            assert(results@.subrange(0, i + 1).drop_last() =~= results@.subrange(0, i as int));
            assert(results@.subrange(0, i + 1).last() == results@[i as int]);
        }
        if results[i].1.won() {
            n += 1;
        }
        i += 1;
    }
    proof {
        assert(results@.subrange(0, results@.len() as int) =~= results@);
    }
    n
}

/// How many history entries were passed on.
fn count_discarded(results: &Vec<(Card, CardResult)>) -> (n: usize)
    ensures
        n == discarded_count(results@),
{
    let mut n: usize = 0;
    let mut i: usize = 0;
    proof {
        assert(results@.subrange(0, 0) =~= Seq::<(Card, CardResult)>::empty());
    }
    while i < results.len()
        invariant
            i <= results@.len(),
            n <= i,
            n == discarded_count(results@.subrange(0, i as int)),
        decreases results@.len() - i,
    {
        proof {
            assert(results@.subrange(0, i + 1).drop_last() =~= results@.subrange(0, i as int));
            assert(results@.subrange(0, i + 1).last() == results@[i as int]);
        }
        if results[i].1.discarded() {
            n += 1;
        }
        i += 1;
    }
    proof {
        assert(results@.subrange(0, results@.len() as int) =~= results@);
    }
    n
}

/// Push one card's draw calls: its word, then its taboo words below.
fn push_card(calls: &mut Vec<DrawCall>, card: &Card, x: usize, y: usize)
    ensures
        draws_view(final(calls)@) == draws_view(old(calls)@) + card_draws(
            card@,
            x as int,
            y as int,
        ),
{
    let ghost base = draws_view(old(calls)@);
    calls.push(
        DrawCall::Text {
            x,
            y,
            size: 48,
            color: Color { red: 255, green: 255, blue: 255 },
            text: card.word.clone(),
        },
    );
    let mut yy: usize = if y <= usize::MAX - 35 {
        y + 35
    } else {
        usize::MAX
    };
    let mut i: usize = 0;
    proof {
        assert(draws_view(calls@) =~= base + card_draws(card@, x as int, y as int).subrange(
            0,
            1,
        ));
    }
    while i < card.taboo.len()
        invariant
            i <= card.taboo@.len(),
            card.taboo@.len() == card@.taboo.len(),
            yy as int == sat_add(sat_add(y as int, 35), 40 * (i as int)),
            draws_view(calls@) == draws_view(old(calls)@) + card_draws(
                card@,
                x as int,
                y as int,
            ).subrange(0, 1 + i as int),
        decreases card.taboo@.len() - i,
    {
        let ghost before = draws_view(calls@);
        calls.push(
            DrawCall::Text {
                x,
                y: yy,
                size: 36,
                color: Color { red: 255, green: 0, blue: 0 },
                text: card.taboo[i].clone(),
            },
        );
        proof {
            let cd = card_draws(card@, x as int, y as int);
            assert(card@.taboo[i as int] == card.taboo@[i as int]@);
            assert(cd[1 + i as int] == (DrawCallV::Text {
                x: x as int,
                y: sat_add(sat_add(y as int, 35), 40 * (i as int)),
                size: 36,
                color: red(),
                text: card@.taboo[i as int],
            }));
            assert(draws_view(calls@) =~= before.push(cd[1 + i as int]));
            assert(draws_view(calls@) =~= draws_view(old(calls)@) + cd.subrange(
                0,
                1 + (i + 1),
            ));
            assert(sat_add(sat_add(y as int, 35), 40 * (i as int)) + 40 == sat_add(
                sat_add(y as int, 35),
                40 * (i as int),
            ) + 40);
            assert(40 * ((i + 1) as int) == 40 * (i as int) + 40) by (nonlinear_arith);
        }
        yy = if yy <= usize::MAX - 40 {
            yy + 40
        } else {
            usize::MAX
        };
        i += 1;
    }
    proof {
        let cd = card_draws(card@, x as int, y as int);
        assert(cd.subrange(0, 1 + i as int) =~= cd);
    }
}

impl TabooApp {
    /// The draw calls for this tick, over a surface `width` wide and `height`
    /// high.
    pub fn render(&self, now_ms: u64, width: usize, height: usize) -> (calls: Vec<DrawCall>)
        requires
            self.wf(),
            *self matches TabooApp::InGame {
                turn: TurnState::Playing { start_time, .. },
                ..
            } ==> now_ms >= start_time,
        ensures
            draws_view(calls@) == render_spec(*self, now_ms, width as int, height as int),
    {
        let mut calls: Vec<DrawCall> = Vec::new();
        calls.push(
            DrawCall::Rect { x: 0, y: 0, w: width, h: height, color: Color::new(0, 0, 0) },
        );
        proof {
            assert(draws_view(calls@) =~= seq![
                backdrop(width as int, height as int),
            ]);
        }
        match self {
            TabooApp::Menu { players, teams, .. } => {
                let mut label = if *teams {
                    String::from_str("Number of teams: ")
                } else {
                    String::from_str("Number of individual players: ")
                };
                label.append(usize_to_string(*players).as_str());
                calls.push(
                    DrawCall::Text {
                        x: 50,
                        y: 50,
                        size: 18,
                        color: Color::new(255, 0, 0),
                        text: label,
                    },
                );
                calls.push(
                    DrawCall::Text {
                        x: 50,
                        y: 70,
                        size: 18,
                        color: Color::new(255, 0, 0),
                        text: String::from_str("Press START"),
                    },
                );
                proof {
                    assert(draws_view(calls@) =~= menu_draws(
                        *players as int,
                        *teams,
                        width as int,
                        height as int,
                    ));
                }
            },
            TabooApp::InGame { game, turn, current_turn } => match turn {
                TurnState::ReadyingUp => {
                    let mut size_line = usize_to_string(game.deck_size());
                    size_line.append(" cards in deck");
                    calls.push(
                        DrawCall::Text {
                            x: 0,
                            y: 0,
                            size: 18,
                            color: Color::new(255, 255, 255),
                            text: size_line,
                        },
                    );
                    let label = match current_turn {
                        CurrentTurn::Team(t) => {
                            let mut s = String::from_str("Team ");
                            s.append(usize_to_string(*t).as_str());
                            s.append(": Press A to start");
                            s
                        },
                        CurrentTurn::Player { asker, askee } => {
                            let mut s = String::from_str("Player ");
                            s.append(usize_to_string(*asker).as_str());
                            s.append(" asking ");
                            s.append(usize_to_string(*askee).as_str());
                            s.append(": Press A to start");
                            s
                        },
                    };
                    calls.push(
                        DrawCall::Text {
                            x: 0,
                            y: 20,
                            size: 18,
                            color: Color::new(255, 255, 255),
                            text: label,
                        },
                    );
                    calls.push(
                        DrawCall::Text {
                            x: 0,
                            y: 40,
                            size: 18,
                            color: Color::new(255, 255, 255),
                            text: String::from_str("B to finish game"),
                        },
                    );
                    let ghost head = draws_view(calls@);
                    proof {
                        assert(head =~= ready_draws(
                            *game,
                            *current_turn,
                            width as int,
                            height as int,
                        ).subrange(0, 4));
                    }
                    let mut y: usize = 50;
                    let mut i: usize = 0;
                    while i < game.num_players
                        invariant
                            game.wf(),
                            i <= game.num_players,
                            y as int == sat_add(50, 20 * (i as int)),
                            draws_view(calls@) == head + Seq::new(
                                i as nat,
                                |j: int| score_draw(*game, *current_turn, j),
                            ),
                        decreases game.num_players - i,
                    {
                        let ghost before = draws_view(calls@);
                        let is_up = match current_turn {
                            CurrentTurn::Team(t) => *t == i,
                            CurrentTurn::Player { asker, askee } => i == *asker || i == *askee,
                        };
                        let color = if is_up {
                            Color::new(255, 255, 255)
                        } else {
                            Color::new(255, 0, 0)
                        };
                        let mut line = String::from_str("Team ");
                        line.append(usize_to_string(i).as_str());
                        line.append(": ");
                        line.append(usize_to_string(game.won_cards[i].len()).as_str());
                        calls.push(
                            DrawCall::Text { x: 350, y, size: 24, color, text: line },
                        );
                        proof {
                            assert(game.won_view()[i as int].len()
                                == game.won_cards@[i as int]@.len());
                            assert(draws_view(calls@) =~= before.push(
                                score_draw(*game, *current_turn, i as int),
                            ));
                            assert(Seq::new(
                                (i + 1) as nat,
                                |j: int| score_draw(*game, *current_turn, j),
                            ) =~= Seq::new(
                                i as nat,
                                |j: int| score_draw(*game, *current_turn, j),
                            ).push(score_draw(*game, *current_turn, i as int)));
                            assert(draws_view(calls@) =~= head + Seq::new(
                                (i + 1) as nat,
                                |j: int| score_draw(*game, *current_turn, j),
                            ));
                            assert(20 * ((i + 1) as int) == 20 * (i as int) + 20)
                                by (nonlinear_arith);
                        }
                        y = if y <= usize::MAX - 20 {
                            y + 20
                        } else {
                            usize::MAX
                        };
                        i += 1;
                    }
                    proof {
                        assert(draws_view(calls@) =~= ready_draws(
                            *game,
                            *current_turn,
                            width as int,
                            height as int,
                        ));
                    }
                },
                TurnState::Playing { start_time, card, results } => {
                    let elapsed = now_ms - *start_time;
                    let rem: u64 = if elapsed > TURN_MILLIS {
                        0
                    } else {
                        TURN_MILLIS - elapsed
                    };
                    let won = count_won(results);
                    let mut line = u64_to_string(rem / 1000);
                    line.append(".");
                    line.append(digit_str((rem % 1000) / 100));
                    line.append("s (");
                    line.append(usize_to_string(won).as_str());
                    line.append(")");
                    calls.push(
                        DrawCall::Text {
                            x: 50,
                            y: 50,
                            size: 48,
                            color: Color::new(255, 255, 255),
                            text: line,
                        },
                    );
                    proof {
                        assert(rem as nat == remaining_ms(*start_time, now_ms));
                        assert(draws_view(calls@) =~= playing_draws(
                            *start_time,
                            card@,
                            results@,
                            now_ms,
                            width as int,
                            height as int,
                        ).subrange(0, 2));
                    }
                    push_card(&mut calls, card, 100, 140);
                    let ghost pre_final = draws_view(calls@);
                    calls.push(
                        DrawCall::Text {
                            x: 50,
                            y: 430,
                            size: 18,
                            color: Color::new(255, 255, 255),
                            text: String::from_str("B discard, A got card"),
                        },
                    );
                    proof {
                        let cv = DrawCallV::Text {
                            x: 50,
                            y: 430,
                            size: 18,
                            color: white(),
                            text: "B discard, A got card"@,
                        };
                        assert(draws_view(calls@) =~= pre_final.push(cv));
                        assert(draws_view(calls@) =~= playing_draws(
                            *start_time,
                            card@,
                            results@,
                            now_ms,
                            width as int,
                            height as int,
                        ));
                    }
                },
                TurnState::TurnEnded { results, showing } => {
                    let won = count_won(results);
                    let discarded = count_discarded(results);
                    let mut got_line = String::from_str("Got ");
                    got_line.append(usize_to_string(won).as_str());
                    got_line.append(" cards");
                    calls.push(
                        DrawCall::Text {
                            x: 50,
                            y: 50,
                            size: 48,
                            color: Color::new(255, 255, 255),
                            text: got_line,
                        },
                    );
                    let mut disc_line = String::from_str("(discarded ");
                    disc_line.append(usize_to_string(discarded).as_str());
                    disc_line.append(")");
                    calls.push(
                        DrawCall::Text {
                            x: 50,
                            y: 100,
                            size: 48,
                            color: Color::new(255, 255, 255),
                            text: disc_line,
                        },
                    );
                    let label = match results[*showing].1 {
                        CardResult::Won => "Got",
                        CardResult::Discarded => "Discarded",
                        CardResult::Timeout => "Timed out",
                    };
                    calls.push(
                        DrawCall::Text {
                            x: 100,
                            y: 150,
                            size: 48,
                            color: Color::new(255, 255, 255),
                            text: String::from_str(label),
                        },
                    );
                    proof {
                        assert(draws_view(calls@) =~= ended_draws(
                            results@,
                            *showing as int,
                            width as int,
                            height as int,
                        ).subrange(0, 4));
                    }
                    let entry_card = results[*showing].0.duplicate();
                    push_card(&mut calls, &entry_card, 100, 190);
                    let ghost pre_final = draws_view(calls@);
                    calls.push(
                        DrawCall::Text {
                            x: 50,
                            y: 430,
                            size: 18,
                            color: Color::new(255, 255, 255),
                            text: String::from_str("POV change cards, A to continue"),
                        },
                    );
                    proof {
                        let cv = DrawCallV::Text {
                            x: 50,
                            y: 430,
                            size: 18,
                            color: white(),
                            text: "POV change cards, A to continue"@,
                        };
                        assert(draws_view(calls@) =~= pre_final.push(cv));
                        assert(draws_view(calls@) =~= ended_draws(
                            results@,
                            *showing as int,
                            width as int,
                            height as int,
                        ));
                    }
                },
            },
        }
        calls
    }
}

} // verus!
