//! The taboo game session: a pre-game menu, and an active game built from a
//! word deck, a turn scheduler and a three-phase turn state machine
//! (readying up, playing against the clock, reviewing the finished turn).
//! Every transition is driven by one tick's input snapshot and the wall
//! clock; the conservation of cards across the deck, the won piles and the
//! turn history is stated and proved here.

use vstd::prelude::*;
use vstd::multiset::Multiset;
use crate::cards::{Card, CardPool, CardV, cards_view, pool_wf};
use crate::deck::{GameState, mset_times, piles_total, lemma_piles_mset_len, lemma_live_len};
use crate::input::{Button, Input};
use crate::sched::{CurrentTurn, turn_next, turn_valid};

verus! {

broadcast use vstd::multiset::group_multiset_axioms, vstd::multiset::group_multiset_properties, vstd::seq_lib::group_to_multiset_ensures;

/// How long one turn lasts, in milliseconds.
pub const TURN_MILLIS: u64 = 60000;

/// The resolution of one card during a turn.
#[derive(Clone, Copy, PartialEq, Eq, Structural)]
pub enum CardResult {
    Won,
    Discarded,
    Timeout,
}

impl CardResult {
    /// The card was guessed.
    pub fn won(&self) -> (r: bool)
        ensures
            r == (*self is Won),
    {
        matches!(self, CardResult::Won)
    }

    /// The card was passed on.
    pub fn discarded(&self) -> (r: bool)
        ensures
            r == (*self is Discarded),
    {
        matches!(self, CardResult::Discarded)
    }
}

/// The phase of the active turn.
pub enum TurnState {
    /// Waiting for the active party to start.
    ReadyingUp,
    /// A card is in play against the clock; `results` is this turn's history.
    Playing { start_time: u64, card: Card, results: Vec<(Card, CardResult)> },
    /// The turn is over; its history is browsable at the `showing` cursor.
    TurnEnded { results: Vec<(Card, CardResult)>, showing: usize },
}

/// The card values of a turn history, in order.
pub open spec fn results_cards(rs: Seq<(Card, CardResult)>) -> Seq<CardV> {
    rs.map_values(|p: (Card, CardResult)| p.0@)
}

/// The card values a history credits as won, in order.
pub open spec fn won_cards_of(rs: Seq<(Card, CardResult)>) -> Seq<CardV>
    decreases rs.len(),
{
    if rs.len() == 0 {
        Seq::empty()
    } else {
        let rest = won_cards_of(rs.drop_last());
        if rs.last().1 is Won {
            rest.push(rs.last().0@)
        } else {
            rest
        }
    }
}

/// The card values a history sends back to the discard pile, in order.
pub open spec fn lost_cards_of(rs: Seq<(Card, CardResult)>) -> Seq<CardV>
    decreases rs.len(),
{
    if rs.len() == 0 {
        Seq::empty()
    } else {
        let rest = lost_cards_of(rs.drop_last());
        if rs.last().1 is Won {
            rest
        } else {
            rest.push(rs.last().0@)
        }
    }
}

/// Every history card splits into the won and the lost.
pub proof fn lemma_results_partition(rs: Seq<(Card, CardResult)>)
    ensures
        won_cards_of(rs).to_multiset().add(lost_cards_of(rs).to_multiset())
            == results_cards(rs).to_multiset(),
    decreases rs.len(),
{
    if rs.len() == 0 {
        assert(results_cards(rs) =~= Seq::<CardV>::empty());
        assert(won_cards_of(rs).to_multiset().add(lost_cards_of(rs).to_multiset())
            =~= results_cards(rs).to_multiset());
    } else {
        lemma_results_partition(rs.drop_last());
        assert(results_cards(rs.drop_last()) =~= results_cards(rs).drop_last());
        assert(results_cards(rs).drop_last() =~= results_cards(rs).remove(
            results_cards(rs).len() - 1,
        ));
        assert(results_cards(rs)[results_cards(rs).len() - 1] == rs.last().0@);
        assert(results_cards(rs).contains(rs.last().0@));
        assert(results_cards(rs).to_multiset().count(rs.last().0@) > 0);
        assert(results_cards(rs.drop_last()).to_multiset() == results_cards(
            rs,
        ).to_multiset().remove(rs.last().0@));
        assert(results_cards(rs).to_multiset() =~= results_cards(
            rs.drop_last(),
        ).to_multiset().insert(rs.last().0@));
        assert(won_cards_of(rs).to_multiset().add(lost_cards_of(rs).to_multiset())
            =~= results_cards(rs).to_multiset());
    }
}

/// The cards currently outside the deck: the card in play and the cards of
/// the unconfirmed history.
pub open spec fn outside_mset(turn: TurnState) -> Multiset<CardV> {
    match turn {
        TurnState::ReadyingUp => Multiset::empty(),
        TurnState::Playing { card, results, .. } => results_cards(results@).to_multiset().insert(
            card@,
        ),
        TurnState::TurnEnded { results, .. } => results_cards(results@).to_multiset(),
    }
}

/// Every card of a history is a pool card.
pub open spec fn results_in_pool(rs: Seq<(Card, CardResult)>, pool: Multiset<CardV>) -> bool {
    forall|i: int| 0 <= i < rs.len() ==> pool.count((#[trigger] rs[i]).0@) > 0
}

/// The phase-local invariants: history cards belong to the pool; a finished
/// turn's history is non-empty, its last entry timed out, and its review
/// cursor lies inside it.
pub open spec fn turn_wf(turn: TurnState, pool: Multiset<CardV>) -> bool {
    match turn {
        TurnState::ReadyingUp => true,
        TurnState::Playing { card, results, .. } => pool.count(card@) > 0 && results_in_pool(
            results@,
            pool,
        ),
        TurnState::TurnEnded { results, showing } => {
            &&& results@.len() > 0
            &&& showing < results@.len()
            &&& results@[results@.len() - 1].1 is Timeout
            &&& results_in_pool(results@, pool)
        },
    }
}

/// The taboo app: the pre-game menu, or an active game.
pub enum TabooApp {
    Menu { players: usize, teams: bool, pool: CardPool },
    InGame { game: GameState, turn: TurnState, current_turn: CurrentTurn },
}

impl TabooApp {
    /// The app's invariant: a valid configuration over a well-formed pool, or
    /// a well-formed game whose scheduler matches its mode, whose phase is
    /// well formed, and whose cards are conserved.
    pub open spec fn wf(&self) -> bool {
        match self {
            TabooApp::Menu { players, teams, pool } => {
                &&& *players >= 2
                &&& pool_wf(pool@)
                &&& pool@.len() > 0
            },
            TabooApp::InGame { game, turn, current_turn } => {
                &&& game.wf()
                &&& turn_valid(*current_turn, game.num_players as int)
                &&& (game.teams <==> *current_turn is Team)
                &&& game.conserved(outside_mset(*turn))
                &&& turn_wf(*turn, game.pool_mset())
            },
        }
    }

    /// A fresh app at the pre-game menu, holding the loaded pool, configured
    /// for two teams.
    pub fn new(pool: CardPool) -> (app: TabooApp)
        requires
            pool.wf(),
            pool@.len() > 0,
        ensures
            app.wf(),
            app == (TabooApp::Menu { players: 2usize, teams: true, pool }),
    {
        TabooApp::Menu { players: 2, teams: true, pool }
    }
}

/// The player count after one tick of menu input: up raises it (stopping only
/// at the machine limit), down lowers it, clamped at two.
pub open spec fn menu_players_next(players: int, up: bool, down: bool) -> int {
    let raised = if up && players < usize::MAX {
        players + 1
    } else {
        players
    };
    if down {
        if raised - 1 < 2 {
            2
        } else {
            raised - 1
        }
    } else {
        raised
    }
}

/// The review cursor after one "next" step in a history of length `len`:
/// one to the right, clamped to the last entry.
pub open spec fn cursor_next(c: int, len: int) -> int {
    if c + 1 < len {
        c + 1
    } else {
        len - 1
    }
}

/// The review cursor after one "previous" step: one to the left, clamped to
/// the first entry.
pub open spec fn cursor_prev(c: int) -> int {
    if c > 0 {
        c - 1
    } else {
        0
    }
}

/// The cursor after `k` "next" steps.
pub open spec fn cursor_next_n(c: int, len: int, k: nat) -> int
    decreases k,
{
    if k == 0 {
        c
    } else {
        cursor_next(cursor_next_n(c, len, (k - 1) as nat), len)
    }
}

/// The cursor after `k` "previous" steps.
pub open spec fn cursor_prev_n(c: int, k: nat) -> int
    decreases k,
{
    if k == 0 {
        c
    } else {
        cursor_prev(cursor_prev_n(c, (k - 1) as nat))
    }
}

/// Review cursor clamping law: from a cursor inside a history of length
/// `len`, `k` "next" steps land on `c + k` clamped to the last entry — so
/// repeated "next" past the end leaves the cursor at `len - 1` — and `k`
/// "previous" steps land on `c - k` clamped to the first.
pub proof fn lemma_cursor_clamping(c: int, len: int, k: nat)
    requires
        0 <= c < len,
    ensures
        cursor_next_n(c, len, k) == if c + k < len {
            c + k
        } else {
            len - 1
        },
        cursor_prev_n(c, k) == if c - k > 0 {
            c - k
        } else {
            0
        },
    decreases k,
{
    if k > 0 {
        lemma_cursor_clamping(c, len, (k - 1) as nat);
    }
}

/// What one draw establishes: the drawn card is a pool card popped from the
/// end of the draw pile; an empty draw pile is first replaced by the
/// reshuffled discard pile, emptying it; when both piles were empty the draw
/// pile is first refilled from the pool, reshuffled. Everything else of the
/// deck is untouched.
pub open spec fn draw_rel(g1: GameState, g2: GameState, card: Card) -> bool {
    &&& g2.num_players == g1.num_players
    &&& g2.teams == g1.teams
    &&& g2.all_cards@ == g1.all_cards@
    &&& g2.won_cards@ == g1.won_cards@
    &&& g2.credited@ == g1.credited@
    &&& g1.pool_mset().count(card@) > 0
    &&& (g1.deck_size_spec() > 0 ==> g2.refills@ == g1.refills@ && g2.live_mset().insert(card@)
        == g1.live_mset())
    &&& (g1.deck_size_spec() == 0 ==> g2.refills@ == g1.refills@ + 1 && g2.live_mset().insert(
        card@,
    ) == g1.pool_mset())
    &&& (g1.deck@.len() > 0 ==> card == g1.deck@.last() && g2.deck@ == g1.deck@.drop_last()
        && g2.discards@ == g1.discards@)
    &&& (g1.deck@.len() == 0 ==> g2.discards@ == Seq::<Card>::empty())
    &&& (g1.deck@.len() == 0 && g1.discards@.len() > 0 ==> cards_view(g2.deck@).push(
        card@,
    ).to_multiset() == cards_view(g1.discards@).to_multiset())
    &&& (g1.deck@.len() == 0 && g1.discards@.len() == 0 ==> cards_view(g2.deck@).push(
        card@,
    ).to_multiset() == g1.pool_mset())
}

/// One tick at the menu: up and down set the party count, the left menu
/// button toggles the mode, and the right menu button starts a session with a
/// fresh deck, readying up, team 0 or the pair (0, 1) first.
pub open spec fn menu_rel(
    players: usize,
    teams: bool,
    pool: CardPool,
    input: Input,
    post: TabooApp,
) -> bool {
    let players2 = menu_players_next(
        players as int,
        input.spec_just_pressed(Button::PovUp),
        input.spec_just_pressed(Button::PovDown),
    );
    let teams2 = if input.spec_just_pressed(Button::MenuL) {
        !teams
    } else {
        teams
    };
    if input.spec_just_pressed(Button::MenuR) {
        post matches TabooApp::InGame { game, turn, current_turn } && game.num_players == players2
            && game.teams == teams2 && game.pool_mset() == pool@.to_multiset()
            && game.live_mset() == pool@.to_multiset() && cards_view(game.deck@).to_multiset()
            == pool@.to_multiset() && game.discards@ == Seq::<Card>::empty() && game.credited@
            == Multiset::<
            CardV,
        >::empty() && game.refills@ == 0 && game.won_view().len() == players2 && (forall|i: int|
            0 <= i < players2 ==> #[trigger] game.won_view()[i] == Seq::<CardV>::empty())
            && turn is ReadyingUp && current_turn == (if teams2 {
            CurrentTurn::Team(0usize)
        } else {
            CurrentTurn::Player { asker: 0usize, askee: 1usize }
        })
    } else {
        post matches TabooApp::Menu { players: p2, teams: t2, pool: pool2 } && p2 == players2
            && t2 == teams2 && pool2 == pool
    }
}

/// One tick readying up: the second action button abandons the session for
/// the menu, keeping the configuration and the pool; the first action button
/// draws a card and starts the clock; otherwise nothing moves. When both are
/// pressed the drawn card is discarded with the session, as the menu wins.
pub open spec fn ready_rel(
    game: GameState,
    ct: CurrentTurn,
    post: TabooApp,
    input: Input,
    now_ms: u64,
) -> bool {
    let a = input.spec_just_pressed(Button::ActionA);
    let b = input.spec_just_pressed(Button::ActionB);
    if b {
        post matches TabooApp::Menu { players: p2, teams: t2, pool: pool2 } && p2
            == game.num_players && t2 == game.teams && pool2@ == cards_view(game.all_cards@)
    } else if a {
        post matches TabooApp::InGame {
            game: g2,
            turn: TurnState::Playing { start_time, card, results },
            current_turn: ct2,
        } && ct2 == ct && start_time == now_ms && results@.len() == 0 && draw_rel(game, g2, card)
    } else {
        post matches TabooApp::InGame { game: g2, turn: TurnState::ReadyingUp, current_turn: ct2 }
            && g2 == game && ct2 == ct
    }
}

/// One tick of play: once no time remains, or on the explicit end-turn
/// button, the card in play times out into the history and the turn ends with
/// the review cursor on that last entry; the first action button records a
/// win and swaps in a fresh card; the second records a pass the same way;
/// otherwise nothing moves.
pub open spec fn playing_rel(
    game: GameState,
    ct: CurrentTurn,
    start_time: u64,
    card: Card,
    results: Seq<(Card, CardResult)>,
    post: TabooApp,
    input: Input,
    now_ms: u64,
) -> bool {
    if now_ms >= start_time + TURN_MILLIS || input.spec_just_pressed(Button::MenuR) {
        post matches TabooApp::InGame {
            game: g2,
            turn: TurnState::TurnEnded { results: r2, showing },
            current_turn: ct2,
        } && g2 == game && ct2 == ct && r2@ == results.push((card, CardResult::Timeout))
            && showing + 1 == r2@.len()
    } else if input.spec_just_pressed(Button::ActionA) {
        post matches TabooApp::InGame {
            game: g2,
            turn: TurnState::Playing { start_time: st2, card: c2, results: r2 },
            current_turn: ct2,
        } && ct2 == ct && st2 == start_time && r2@ == results.push((card, CardResult::Won))
            && draw_rel(game, g2, c2)
    } else if input.spec_just_pressed(Button::ActionB) {
        post matches TabooApp::InGame {
            game: g2,
            turn: TurnState::Playing { start_time: st2, card: c2, results: r2 },
            current_turn: ct2,
        } && ct2 == ct && st2 == start_time && r2@ == results.push((card, CardResult::Discarded))
            && draw_rel(game, g2, c2)
    } else {
        post matches TabooApp::InGame {
            game: g2,
            turn: TurnState::Playing { start_time: st2, card: c2, results: r2 },
            current_turn: ct2,
        } && g2 == game && ct2 == ct && st2 == start_time && c2 == card && r2@ == results
    }
}

/// What confirming a finished turn does to the deck: the won cards join the
/// active parties' piles in history order — the one team's pile in team
/// mode, both the asker's and the askee's in player mode — every other card
/// goes onto the discard pile in history order, and the draw pile is
/// untouched.
pub open spec fn confirm_rel(
    g1: GameState,
    ct: CurrentTurn,
    results: Seq<(Card, CardResult)>,
    g2: GameState,
) -> bool {
    &&& g2.num_players == g1.num_players
    &&& g2.teams == g1.teams
    &&& g2.all_cards@ == g1.all_cards@
    &&& g2.refills@ == g1.refills@
    &&& g2.credited@ == g1.credited@.add(won_cards_of(results).to_multiset())
    &&& g2.live_mset() == g1.live_mset().add(lost_cards_of(results).to_multiset())
    &&& g2.deck@ == g1.deck@
    &&& cards_view(g2.discards@) == cards_view(g1.discards@) + lost_cards_of(results)
    &&& match ct {
        CurrentTurn::Team(t) => g2.won_view() == g1.won_view().update(
            t as int,
            g1.won_view()[t as int] + won_cards_of(results),
        ),
        CurrentTurn::Player { asker, askee } => g2.won_view() == g1.won_view().update(
            asker as int,
            g1.won_view()[asker as int] + won_cards_of(results),
        ).update(askee as int, g1.won_view()[askee as int] + won_cards_of(results)),
    }
}

/// One tick of review: the right and left directions move the cursor,
/// clamped to the history; the first action button confirms the turn,
/// crediting the history and advancing the rotation; otherwise nothing moves.
pub open spec fn ended_rel(
    game: GameState,
    ct: CurrentTurn,
    results: Seq<(Card, CardResult)>,
    showing: int,
    post: TabooApp,
    input: Input,
) -> bool {
    let s1 = if input.spec_just_pressed(Button::PovRight) {
        cursor_next(showing, results.len() as int)
    } else {
        showing
    };
    let s2 = if input.spec_just_pressed(Button::PovLeft) {
        cursor_prev(s1)
    } else {
        s1
    };
    if input.spec_just_pressed(Button::ActionA) {
        post matches TabooApp::InGame {
            game: g2,
            turn: TurnState::ReadyingUp,
            current_turn: ct2,
        } && ct2 == turn_next(ct, game.num_players as int) && confirm_rel(game, ct, results, g2)
    } else {
        post matches TabooApp::InGame {
            game: g2,
            turn: TurnState::TurnEnded { results: r2, showing: s3 },
            current_turn: ct2,
        } && g2 == game && ct2 == ct && r2@ == results && s3 == s2
    }
}

/// What one tick does, by the state it starts from.
pub open spec fn update_rel(pre: TabooApp, post: TabooApp, input: Input, now_ms: u64) -> bool {
    match pre {
        TabooApp::Menu { players, teams, pool } => menu_rel(players, teams, pool, input, post),
        TabooApp::InGame { game, turn, current_turn } => match turn {
            TurnState::ReadyingUp => ready_rel(game, current_turn, post, input, now_ms),
            TurnState::Playing { start_time, card, results } => playing_rel(
                game,
                current_turn,
                start_time,
                card,
                results@,
                post,
                input,
                now_ms,
            ),
            TurnState::TurnEnded { results, showing } => ended_rel(
                game,
                current_turn,
                results@,
                showing as int,
                post,
                input,
            ),
        },
    }
}

/// Turn-end history law: in a finished turn the history is never empty, and
/// its last entry records the timeout of the card that was in play when the
/// turn ended.
pub proof fn lemma_turn_end_history(game: GameState, turn: TurnState, ct: CurrentTurn)
    requires
        (TabooApp::InGame { game, turn, current_turn: ct }).wf(),
        turn is TurnEnded,
    ensures
        turn matches TurnState::TurnEnded { results, showing } ==> results@.len() > 0
            && results@[results@.len() - 1].1 is Timeout && showing < results@.len(),
{
}

/// Card conservation law: in team mode, while the draw pile has never been
/// refilled from the full pool, the draw pile, the discard pile, the won
/// piles and the cards in play or under review together are exactly the
/// pool: their sizes sum to the pool's size, and no card value appears twice
/// across the containers.
pub proof fn lemma_card_conservation(game: GameState, turn: TurnState)
    requires
        game.wf(),
        game.conserved(outside_mset(turn)),
        game.refills@ == 0,
        game.teams,
    ensures
        game.live_mset().add(game.won_all_mset()).add(outside_mset(turn)) == game.pool_mset(),
        game.deck_size_spec() + piles_total(game.won_view()) + outside_mset(turn).len()
            == game.pool_mset().len(),
        forall|c: CardV|
            game.live_mset().add(game.won_all_mset()).add(outside_mset(turn)).count(c) <= 1,
{
    let outside = outside_mset(turn);
    let combined = game.live_mset().add(game.won_all_mset()).add(outside);
    assert(mset_times(game.pool_mset(), 0) == Multiset::<CardV>::empty());
    assert(game.balance() == mset_times(game.pool_mset(), 0).add(game.pool_mset()));
    assert(game.balance() =~= game.pool_mset());
    assert(combined =~= game.live_mset().add(game.credited@).add(outside));
    lemma_live_len(game);
    lemma_piles_mset_len(game.won_view());
    let pv = cards_view(game.all_cards@);
    assert(pv.no_duplicates()) by {
        assert forall|i: int, j: int|
            0 <= i < pv.len() && 0 <= j < pv.len() && i != j implies pv[i] != pv[j] by {
            if pv[i] == pv[j] {
                assert(pv[i].word == pv[j].word);
            }
        }
    }
    pv.lemma_multiset_has_no_duplicates();
    assert forall|c: CardV| combined.count(c) <= 1 by {
        if combined.count(c) > 0 {
            assert(game.pool_mset().count(c) > 0);
            assert(game.pool_mset().contains(c));
        }
    }
}

/// Card conservation in player mode: while the draw pile has never been
/// refilled, the deck piles, the cards in play or under review, and the won
/// cards — each counted once, though each stands in both participants' piles
/// — together are exactly the pool; the two pile copies make the piles'
/// lengths sum to twice the won count.
pub proof fn lemma_card_conservation_player(game: GameState, turn: TurnState)
    requires
        game.wf(),
        game.conserved(outside_mset(turn)),
        game.refills@ == 0,
        !game.teams,
    ensures
        game.live_mset().add(game.credited@).add(outside_mset(turn)) == game.pool_mset(),
        game.deck_size_spec() + game.credited@.len() + outside_mset(turn).len()
            == game.pool_mset().len(),
        piles_total(game.won_view()) == 2 * game.credited@.len(),
{
    assert(mset_times(game.pool_mset(), 0) == Multiset::<CardV>::empty());
    assert(game.balance() == mset_times(game.pool_mset(), 0).add(game.pool_mset()));
    assert(game.balance() =~= game.pool_mset());
    lemma_live_len(game);
    lemma_piles_mset_len(game.won_view());
}

/// Cooperative crediting law: confirming a turn's history in player mode
/// grows both the asker's and the askee's won piles by exactly the history's
/// won cards, in order; in team mode only the active team's pile grows; every
/// other pile is untouched.
pub proof fn lemma_cooperative_crediting(
    g1: GameState,
    ct: CurrentTurn,
    results: Seq<(Card, CardResult)>,
    g2: GameState,
)
    requires
        confirm_rel(g1, ct, results, g2),
        turn_valid(ct, g1.num_players as int),
        g1.won_view().len() == g1.num_players,
    ensures
        ct matches CurrentTurn::Player { asker, askee } ==> g2.won_view()[asker as int]
            == g1.won_view()[asker as int] + won_cards_of(results) && g2.won_view()[askee as int]
            == g1.won_view()[askee as int] + won_cards_of(results) && (forall|i: int|
            0 <= i < g1.num_players && i != asker && i != askee ==> #[trigger] g2.won_view()[i]
                == g1.won_view()[i]),
        ct matches CurrentTurn::Team(t) ==> g2.won_view()[t as int] == g1.won_view()[t as int]
            + won_cards_of(results) && (forall|i: int|
            0 <= i < g1.num_players && i != t ==> #[trigger] g2.won_view()[i]
                == g1.won_view()[i]),
{
}

/// One tick at the pre-game menu.
fn update_menu(players: usize, teams: bool, pool: CardPool, input: &Input) -> (app: TabooApp)
    requires
        players >= 2,
        pool_wf(pool@),
        pool@.len() > 0,
        input.wf(),
    ensures
        app.wf(),
        menu_rel(players, teams, pool, *input, app),
{
    let mut players2 = players;
    if input.just_pressed(Button::PovUp) {
        if players2 < usize::MAX {
            players2 += 1;
        }
    }
    if input.just_pressed(Button::PovDown) {
        players2 -= 1;
        if players2 < 2 {
            players2 = 2;
        }
    }
    let teams2 = if input.just_pressed(Button::MenuL) {
        !teams
    } else {
        teams
    };
    if input.just_pressed(Button::MenuR) {
        let game = GameState::new(&pool, players2, teams2);
        let current_turn = if teams2 {
            CurrentTurn::Team(0)
        } else {
            CurrentTurn::Player { asker: 0, askee: 1 }
        };
        TabooApp::InGame { game, turn: TurnState::ReadyingUp, current_turn }
    } else {
        TabooApp::Menu { players: players2, teams: teams2, pool }
    }
}

/// One tick while readying up.
fn update_ready(game: GameState, ct: CurrentTurn, input: &Input, now_ms: u64) -> (app: TabooApp)
    requires
        game.wf(),
        turn_valid(ct, game.num_players as int),
        game.teams <==> ct is Team,
        game.conserved(Multiset::empty()),
        input.wf(),
    ensures
        app.wf(),
        ready_rel(game, ct, app, *input, now_ms),
{
    let mut game = game;
    if input.just_pressed(Button::ActionA) {
        let ghost g0 = game;
        let card = game.draw_card();
        let results: Vec<(Card, CardResult)> = Vec::new();
        proof {
            assert(results_cards(results@) =~= Seq::<CardV>::empty());
            assert(results_cards(results@).to_multiset().len() == 0);
            let outside = outside_mset(
                TurnState::Playing { start_time: now_ms, card, results },
            );
            assert(outside =~= Multiset::<CardV>::empty().insert(card@));
            if g0.deck_size_spec() > 0 {
                assert(game.live_mset().add(game.credited@).add(outside) =~= g0.balance());
            } else {
                lemma_live_len(g0);
                vstd::multiset::lemma_multiset_empty_len(g0.live_mset());
                assert(g0.credited@ =~= g0.balance());
                assert(game.balance() == crate::deck::mset_times(
                    game.pool_mset(),
                    game.refills@,
                ).add(game.pool_mset()));
                assert(crate::deck::mset_times(game.pool_mset(), game.refills@)
                    == g0.balance());
                assert(game.live_mset().add(game.credited@).add(outside) =~= game.balance());
            }
        }
        if input.just_pressed(Button::ActionB) {
            return TabooApp::Menu {
                players: game.num_players,
                teams: game.teams,
                pool: CardPool { cards: game.all_cards },
            };
        }
        TabooApp::InGame {
            game,
            turn: TurnState::Playing { start_time: now_ms, card, results },
            current_turn: ct,
        }
    } else if input.just_pressed(Button::ActionB) {
        TabooApp::Menu {
            players: game.num_players,
            teams: game.teams,
            pool: CardPool { cards: game.all_cards },
        }
    } else {
        TabooApp::InGame { game, turn: TurnState::ReadyingUp, current_turn: ct }
    }
}

/// One tick of play.
fn update_playing(
    game: GameState,
    ct: CurrentTurn,
    start_time: u64,
    card: Card,
    results: Vec<(Card, CardResult)>,
    input: &Input,
    now_ms: u64,
) -> (app: TabooApp)
    requires
        game.wf(),
        turn_valid(ct, game.num_players as int),
        game.teams <==> ct is Team,
        game.conserved(results_cards(results@).to_multiset().insert(card@)),
        game.pool_mset().count(card@) > 0,
        results_in_pool(results@, game.pool_mset()),
        input.wf(),
        now_ms >= start_time,
    ensures
        app.wf(),
        playing_rel(game, ct, start_time, card, results@, app, *input, now_ms),
{
    let mut game = game;
    let mut results = results;
    let ghost r0 = results@;
    let elapsed = now_ms - start_time;
    if elapsed >= TURN_MILLIS || input.just_pressed(Button::MenuR) {
        results.push((card, CardResult::Timeout));
        let showing = results.len() - 1;
        proof {
            lemma_results_push(r0, results@.last());
            assert(results_cards(results@).to_multiset() =~= results_cards(
                r0,
            ).to_multiset().insert(results@.last().0@));
        }
        TabooApp::InGame {
            game,
            turn: TurnState::TurnEnded { results, showing },
            current_turn: ct,
        }
    } else if input.just_pressed(Button::ActionA) {
        let ghost g0 = game;
        let next_card = game.draw_card();
        results.push((card, CardResult::Won));
        proof {
            lemma_playing_draw(g0, game, r0, (card, CardResult::Won), next_card);
        }
        TabooApp::InGame {
            game,
            turn: TurnState::Playing { start_time, card: next_card, results },
            current_turn: ct,
        }
    } else if input.just_pressed(Button::ActionB) {
        let ghost g0 = game;
        let next_card = game.draw_card();
        results.push((card, CardResult::Discarded));
        proof {
            lemma_playing_draw(g0, game, r0, (card, CardResult::Discarded), next_card);
        }
        TabooApp::InGame {
            game,
            turn: TurnState::Playing { start_time, card: next_card, results },
            current_turn: ct,
        }
    } else {
        TabooApp::InGame {
            game,
            turn: TurnState::Playing { start_time, card, results },
            current_turn: ct,
        }
    }
}

/// Appending one entry to a history appends its card to the history's cards.
proof fn lemma_results_push(rs: Seq<(Card, CardResult)>, entry: (Card, CardResult))
    ensures
        results_cards(rs.push(entry)) == results_cards(rs).push(entry.0@),
        results_cards(rs.push(entry)).to_multiset() == results_cards(rs).to_multiset().insert(
            entry.0@,
        ),
{
    assert(results_cards(rs.push(entry)) =~= results_cards(rs).push(entry.0@));
}

/// After a draw swaps a fresh card in and the old card joins the history, the
/// conservation equation still holds against the grown history.
proof fn lemma_playing_draw(
    g0: GameState,
    g1: GameState,
    r0: Seq<(Card, CardResult)>,
    entry: (Card, CardResult),
    next_card: Card,
)
    requires
        g0.wf(),
        g1.wf(),
        draw_rel(g0, g1, next_card),
        g0.conserved(results_cards(r0).to_multiset().insert(entry.0@)),
    ensures
        g1.conserved(results_cards(r0.push(entry)).to_multiset().insert(next_card@)),
{
    lemma_results_push(r0, entry);
    let outside1 = results_cards(r0.push(entry)).to_multiset().insert(next_card@);
    if g0.deck_size_spec() > 0 {
        assert(g1.live_mset().add(g1.credited@).add(outside1) =~= g0.balance());
    } else {
        lemma_live_len(g0);
        vstd::multiset::lemma_multiset_empty_len(g0.live_mset());
        assert(g1.balance() == crate::deck::mset_times(g1.pool_mset(), g1.refills@).add(
            g1.pool_mset(),
        ));
        assert(crate::deck::mset_times(g1.pool_mset(), g1.refills@) == g0.balance());
        assert(g1.live_mset().add(g1.credited@).add(outside1) =~= g1.balance());
    }
}

/// One tick of review.
fn update_ended(
    game: GameState,
    ct: CurrentTurn,
    results: Vec<(Card, CardResult)>,
    showing: usize,
    input: &Input,
) -> (app: TabooApp)
    requires
        game.wf(),
        turn_valid(ct, game.num_players as int),
        game.teams <==> ct is Team,
        game.conserved(results_cards(results@).to_multiset()),
        results@.len() > 0,
        showing < results@.len(),
        results@[results@.len() - 1].1 is Timeout,
        results_in_pool(results@, game.pool_mset()),
        input.wf(),
    ensures
        app.wf(),
        ended_rel(game, ct, results@, showing as int, app, *input),
{
    let mut game = game;
    let mut showing = showing;
    if input.just_pressed(Button::PovRight) {
        if showing < results.len() - 1 {
            showing += 1;
        } else {
            showing = results.len() - 1;
        }
    }
    if input.just_pressed(Button::PovLeft) {
        if showing > 0 {
            showing -= 1;
        }
    }
    if input.just_pressed(Button::ActionA) {
        let ghost g0 = game;
        let mut i: usize = 0;
        proof {
            let empty_prefix = results@.subrange(0, 0);
            assert(empty_prefix =~= Seq::<(Card, CardResult)>::empty());
            assert(won_cards_of(empty_prefix).to_multiset().len() == 0);
            assert(lost_cards_of(empty_prefix).to_multiset().len() == 0);
            assert(game.credited@ =~= g0.credited@.add(
                won_cards_of(empty_prefix).to_multiset(),
            ));
            assert(game.live_mset() =~= g0.live_mset().add(
                lost_cards_of(empty_prefix).to_multiset(),
            ));
            assert(cards_view(game.discards@) =~= cards_view(g0.discards@) + lost_cards_of(
                empty_prefix,
            ));
            match ct {
                CurrentTurn::Team(t) => {
                    assert(g0.won_view()[t as int] + won_cards_of(empty_prefix)
                        =~= g0.won_view()[t as int]);
                    assert(game.won_view() =~= g0.won_view().update(
                        t as int,
                        g0.won_view()[t as int] + won_cards_of(empty_prefix),
                    ));
                },
                CurrentTurn::Player { asker, askee } => {
                    assert(g0.won_view()[asker as int] + won_cards_of(empty_prefix)
                        =~= g0.won_view()[asker as int]);
                    assert(g0.won_view()[askee as int] + won_cards_of(empty_prefix)
                        =~= g0.won_view()[askee as int]);
                    assert(game.won_view() =~= g0.won_view().update(
                        asker as int,
                        g0.won_view()[asker as int] + won_cards_of(empty_prefix),
                    ).update(
                        askee as int,
                        g0.won_view()[askee as int] + won_cards_of(empty_prefix),
                    ));
                },
            }
        }
        while i < results.len()
            invariant
                i <= results@.len(),
                game.wf(),
                g0.wf(),
                turn_valid(ct, game.num_players as int),
                (game.teams <==> ct is Team),
                game.num_players == g0.num_players,
                game.teams == g0.teams,
                game.all_cards@ == g0.all_cards@,
                game.pool_mset() == g0.pool_mset(),
                game.refills@ == g0.refills@,
                results_in_pool(results@, g0.pool_mset()),
                game.credited@ == g0.credited@.add(
                    won_cards_of(results@.subrange(0, i as int)).to_multiset(),
                ),
                game.live_mset() == g0.live_mset().add(
                    lost_cards_of(results@.subrange(0, i as int)).to_multiset(),
                ),
                game.deck@ == g0.deck@,
                cards_view(game.discards@) == cards_view(g0.discards@) + lost_cards_of(
                    results@.subrange(0, i as int),
                ),
                match ct {
                    CurrentTurn::Team(t) => game.won_view() == g0.won_view().update(
                        t as int,
                        g0.won_view()[t as int] + won_cards_of(results@.subrange(0, i as int)),
                    ),
                    CurrentTurn::Player { asker, askee } => game.won_view()
                        == g0.won_view().update(
                        asker as int,
                        g0.won_view()[asker as int] + won_cards_of(
                            results@.subrange(0, i as int),
                        ),
                    ).update(
                        askee as int,
                        g0.won_view()[askee as int] + won_cards_of(
                            results@.subrange(0, i as int),
                        ),
                    ),
                },
            decreases results@.len() - i,
        {
            let ghost prefix = results@.subrange(0, i as int);
            let ghost g_before = game;
            let res = results[i].1;
            let card = results[i].0.duplicate();
            proof {
                assert(results@.subrange(0, i + 1).drop_last() =~= prefix);
                assert(results@.subrange(0, i + 1).last() == results@[i as int]);
            }
            if res.won() {
                match ct {
                    CurrentTurn::Team(team) => {
                        game.credit_team(team, card);
                        proof {
                            let t = (ct->Team_0) as int;
                            assert(g0.won_view().len() == g0.num_players);
                            assert(0 <= t < g0.won_view().len());
                            assert(g_before.won_view()[t] == g0.won_view()[t] + won_cards_of(
                                prefix,
                            ));
                            assert(g0.won_view()[t] + won_cards_of(
                                results@.subrange(0, i + 1),
                            ) =~= (g0.won_view()[t] + won_cards_of(prefix)).push(
                                results@[i as int].0@,
                            ));
                            assert(game.won_view() =~= g0.won_view().update(
                                t,
                                g0.won_view()[t] + won_cards_of(results@.subrange(0, i + 1)),
                            ));
                        }
                    },
                    CurrentTurn::Player { asker, askee } => {
                        game.credit_pair(asker, askee, card);
                        proof {
                            let a = asker as int;
                            let e = askee as int;
                            let won1 = won_cards_of(results@.subrange(0, i + 1));
                            assert(g0.won_view().len() == g0.num_players);
                            assert(0 <= a < g0.won_view().len());
                            assert(0 <= e < g0.won_view().len());
                            assert(g_before.won_view()[a] == g0.won_view()[a] + won_cards_of(
                                prefix,
                            ));
                            assert(g_before.won_view()[e] == g0.won_view()[e] + won_cards_of(
                                prefix,
                            ));
                            assert(g0.won_view()[a] + won1 =~= (g0.won_view()[a]
                                + won_cards_of(prefix)).push(results@[i as int].0@));
                            assert(g0.won_view()[e] + won1 =~= (g0.won_view()[e]
                                + won_cards_of(prefix)).push(results@[i as int].0@));
                            assert(game.won_view() =~= g0.won_view().update(
                                a,
                                g0.won_view()[a] + won1,
                            ).update(e, g0.won_view()[e] + won1));
                        }
                    },
                }
                proof {
                    assert(game.credited@ =~= g0.credited@.add(
                        won_cards_of(results@.subrange(0, i + 1)).to_multiset(),
                    ));
                    assert(lost_cards_of(results@.subrange(0, i + 1)) == lost_cards_of(prefix));
                }
            } else {
                game.return_discard(card);
                proof {
                    assert(game.live_mset() =~= g0.live_mset().add(
                        lost_cards_of(results@.subrange(0, i + 1)).to_multiset(),
                    ));
                    assert(won_cards_of(results@.subrange(0, i + 1)) == won_cards_of(prefix));
                    assert(cards_view(game.discards@) =~= cards_view(
                        g_before.discards@,
                    ).push(results@[i as int].0@));
                    assert(cards_view(game.discards@) =~= cards_view(g0.discards@)
                        + lost_cards_of(results@.subrange(0, i + 1)));
                    match ct {
                        CurrentTurn::Team(t) => {
                            assert(game.won_view() == g_before.won_view());
                        },
                        CurrentTurn::Player { asker, askee } => {
                            assert(game.won_view() == g_before.won_view());
                        },
                    }
                }
            }
            i += 1;
        }
        let mut ct2 = ct;
        ct2.next(game.num_players);
        proof {
            assert(results@.subrange(0, results@.len() as int) =~= results@);
            lemma_results_partition(results@);
            assert(game.live_mset().add(game.credited@).add(Multiset::<CardV>::empty())
                =~= g0.balance());
        }
        TabooApp::InGame { game, turn: TurnState::ReadyingUp, current_turn: ct2 }
    } else {
        TabooApp::InGame {
            game,
            turn: TurnState::TurnEnded { results, showing },
            current_turn: ct,
        }
    }
}

impl TabooApp {
    /// Advance the app by one tick, given the input snapshot and the wall
    /// clock in milliseconds. The clock never runs backwards past the start
    /// of the turn in play.
    pub fn update(&mut self, input: &Input, now_ms: u64)
        requires
            old(self).wf(),
            input.wf(),
            *old(self) matches TabooApp::InGame {
                turn: TurnState::Playing { start_time, .. },
                ..
            } ==> now_ms >= start_time,
        ensures
            final(self).wf(),
            update_rel(*old(self), *final(self), *input, now_ms),
    {
        let mut taken = TabooApp::Menu {
            players: 2,
            teams: true,
            pool: CardPool { cards: Vec::new() },
        };
        core::mem::swap(self, &mut taken);
        let next = match taken {
            TabooApp::Menu { players, teams, pool } => update_menu(players, teams, pool, input),
            TabooApp::InGame { game, turn, current_turn } => match turn {
                TurnState::ReadyingUp => update_ready(game, current_turn, input, now_ms),
                TurnState::Playing { start_time, card, results } => update_playing(
                    game,
                    current_turn,
                    start_time,
                    card,
                    results,
                    input,
                    now_ms,
                ),
                TurnState::TurnEnded { results, showing } => update_ended(
                    game,
                    current_turn,
                    results,
                    showing,
                    input,
                ),
            },
        };
        *self = next;
    }
}

} // verus!
