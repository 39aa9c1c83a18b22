//! The live word deck of a session: a draw pile, a discard pile and one won
//! pile per party, together with a retained copy of the full pool for
//! terminal refills. Drawing reshuffles the discard pile into the draw pile
//! when the latter empties, and refills from the full pool when both are
//! empty. The accounting here tracks every card by its value, so that a
//! session can show the conservation law: outside refills, the piles and the
//! cards in play together are exactly the pool.

use vstd::prelude::*;
use vstd::multiset::Multiset;
use rand::seq::SliceRandom;
use crate::cards::{Card, CardPool, CardV, cards_view, pool_wf};

verus! {

broadcast use vstd::multiset::group_multiset_axioms, vstd::multiset::group_multiset_properties, vstd::seq_lib::group_to_multiset_ensures;

/// Relies on rand's `SliceRandom::shuffle` driven by `rand::thread_rng`: an
/// in-place Fisher-Yates permutation of the slice, so the same cards remain,
/// merely reordered.
#[verifier::external_body]
fn shuffle_cards(cards: &mut Vec<Card>)
    ensures
        cards_view(final(cards)@).to_multiset() == cards_view(old(cards)@).to_multiset(),
        final(cards)@.len() == old(cards)@.len(),
{
    let mut rng = rand::thread_rng();
    cards.shuffle(&mut rng);
}

/// A fresh vector holding copies of the given cards, in order.
fn clone_cards(cards: &Vec<Card>) -> (r: Vec<Card>)
    ensures
        cards_view(r@) == cards_view(cards@),
{
    let mut r: Vec<Card> = Vec::new();
    let mut i: usize = 0;
    while i < cards.len()
        invariant
            i <= cards@.len(),
            cards_view(r@) == cards_view(cards@).subrange(0, i as int),
        decreases cards@.len() - i,
    {
        let ghost prefix = cards_view(r@);
        r.push(cards[i].duplicate());
        proof {
            assert(cards_view(r@) =~= prefix.push(cards@[i as int]@));
            assert(cards_view(r@) =~= cards_view(cards@).subrange(0, i + 1));
        }
        i += 1;
    }
    proof {
        assert(cards_view(r@) =~= cards_view(cards@));
    }
    r
}

/// The cards of a stack of piles, counted once per pile that holds them.
pub open spec fn piles_mset(piles: Seq<Seq<CardV>>) -> Multiset<CardV>
    decreases piles.len(),
{
    if piles.len() == 0 {
        Multiset::empty()
    } else {
        piles_mset(piles.drop_last()).add(piles.last().to_multiset())
    }
}

/// How many cards a stack of piles holds in all.
pub open spec fn piles_total(piles: Seq<Seq<CardV>>) -> nat
    decreases piles.len(),
{
    if piles.len() == 0 {
        0
    } else {
        piles_total(piles.drop_last()) + piles.last().len()
    }
}

/// A stack holds as many cards as its piles' lengths sum to.
pub proof fn lemma_piles_mset_len(piles: Seq<Seq<CardV>>)
    ensures
        piles_mset(piles).len() == piles_total(piles),
    decreases piles.len(),
{
    if piles.len() > 0 {
        lemma_piles_mset_len(piles.drop_last());
    }
}

/// A stack of empty piles holds no cards.
proof fn lemma_piles_mset_empty(piles: Seq<Seq<CardV>>)
    requires
        forall|i: int| 0 <= i < piles.len() ==> (#[trigger] piles[i]).len() == 0,
    ensures
        piles_mset(piles) == Multiset::<CardV>::empty(),
    decreases piles.len(),
{
    if piles.len() > 0 {
        lemma_piles_mset_empty(piles.drop_last());
        assert(piles.last().len() == 0);
        assert(piles.last().to_multiset().len() == 0);
        assert(piles_mset(piles) =~= Multiset::<CardV>::empty());
    }
}

/// Pushing one card onto one pile adds exactly that card to the stack.
pub proof fn lemma_piles_mset_push(piles: Seq<Seq<CardV>>, i: int, x: CardV)
    requires
        0 <= i < piles.len(),
    ensures
        piles_mset(piles.update(i, piles[i].push(x))) == piles_mset(piles).insert(x),
    decreases piles.len(),
{
    let up = piles.update(i, piles[i].push(x));
    if i == piles.len() - 1 {
        assert(up.drop_last() =~= piles.drop_last());
        assert(up.last() == piles.last().push(x));
        assert(piles.last().push(x).to_multiset() == piles.last().to_multiset().insert(x));
        assert(piles_mset(up) =~= piles_mset(piles).insert(x));
    } else {
        assert(up.drop_last() =~= piles.drop_last().update(i, piles.drop_last()[i].push(x)));
        assert(up.last() == piles.last());
        lemma_piles_mset_push(piles.drop_last(), i, x);
        assert(piles_mset(up) =~= piles_mset(piles).insert(x));
    }
}

/// `k` copies of every card of `m`.
pub open spec fn mset_times(m: Multiset<CardV>, k: nat) -> Multiset<CardV>
    decreases k,
{
    if k == 0 {
        Multiset::empty()
    } else {
        mset_times(m, (k - 1) as nat).add(m)
    }
}

/// The per-session deck: draw pile, discard pile, one won pile per party,
/// and the retained full pool. The ghost `credited` multiset counts each won
/// card once, whichever piles it was credited to; the ghost `refills` counts
/// how often the draw pile was refilled from the full pool.
pub struct GameState {
    pub num_players: usize,
    pub teams: bool,
    pub deck: Vec<Card>,
    pub discards: Vec<Card>,
    pub won_cards: Vec<Vec<Card>>,
    pub all_cards: Vec<Card>,
    pub credited: Ghost<Multiset<CardV>>,
    pub refills: Ghost<nat>,
}

impl GameState {
    /// The multiset of card values in the full pool.
    pub open spec fn pool_mset(&self) -> Multiset<CardV> {
        cards_view(self.all_cards@).to_multiset()
    }

    /// The cards still cycling through play: draw pile plus discard pile.
    pub open spec fn live_mset(&self) -> Multiset<CardV> {
        cards_view(self.deck@).to_multiset().add(cards_view(self.discards@).to_multiset())
    }

    /// The won piles' card values, pile by pile.
    pub open spec fn won_view(&self) -> Seq<Seq<CardV>> {
        self.won_cards@.map_values(|p: Vec<Card>| cards_view(p@))
    }

    /// All won cards, counted once per pile that holds them.
    pub open spec fn won_all_mset(&self) -> Multiset<CardV> {
        piles_mset(self.won_view())
    }

    /// How many cards are not currently won or in play.
    pub open spec fn deck_size_spec(&self) -> nat {
        self.deck@.len() + self.discards@.len()
    }

    /// The cards the deck is answerable for: one copy of the pool, plus one
    /// more for every refill.
    pub open spec fn balance(&self) -> Multiset<CardV> {
        mset_times(self.pool_mset(), self.refills@ + 1)
    }

    /// Conservation: the live piles, the credited cards and the cards
    /// currently outside the deck (in play or in an unconfirmed history)
    /// together are exactly the balance. With no refill yet the balance is
    /// the pool itself.
    pub open spec fn conserved(&self, outside: Multiset<CardV>) -> bool {
        self.live_mset().add(self.credited@).add(outside) == self.balance()
    }

    /// A well-formed deck: at least two parties, one won pile per party, a
    /// non-empty well-formed pool, every live or won card a member of the
    /// pool, and the won piles consistent with the credited cards — equal to
    /// them in team mode, crediting each won card twice in player mode.
    pub open spec fn wf(&self) -> bool {
        &&& self.num_players >= 2
        &&& self.won_cards@.len() == self.num_players
        &&& self.all_cards@.len() > 0
        &&& pool_wf(cards_view(self.all_cards@))
        &&& (forall|c: CardV| #[trigger] self.live_mset().count(c) > 0 ==> self.pool_mset().count(
            c,
        ) > 0)
        &&& (forall|c: CardV| #[trigger] self.won_all_mset().count(c) > 0
            ==> self.pool_mset().count(c) > 0)
        &&& (self.teams ==> self.won_all_mset() == self.credited@)
        &&& (!self.teams ==> self.won_all_mset() == self.credited@.add(self.credited@))
    }

    /// A fresh deck for a session: the draw pile a permutation of the pool,
    /// the discard pile empty, one empty won pile per party.
    pub fn new(pool: &CardPool, num_players: usize, teams: bool) -> (g: GameState)
        requires
            pool.wf(),
            pool@.len() > 0,
            num_players >= 2,
        ensures
            g.wf(),
            g.num_players == num_players,
            g.teams == teams,
            g.pool_mset() == pool@.to_multiset(),
            g.live_mset() == pool@.to_multiset(),
            cards_view(g.deck@).to_multiset() == pool@.to_multiset(),
            g.discards@ == Seq::<Card>::empty(),
            g.deck_size_spec() == pool@.len(),
            g.credited@ == Multiset::<CardV>::empty(),
            g.refills@ == 0,
            g.won_view().len() == num_players,
            forall|i: int| 0 <= i < num_players ==> #[trigger] g.won_view()[i]
                == Seq::<CardV>::empty(),
            g.conserved(Multiset::empty()),
            cards_view(g.all_cards@) == pool@,
    {
        let all_cards = clone_cards(&pool.cards);
        let mut deck = clone_cards(&pool.cards);
        shuffle_cards(&mut deck);
        let mut won_cards: Vec<Vec<Card>> = Vec::new();
        let mut i: usize = 0;
        while i < num_players
            invariant
                i <= num_players,
                won_cards@.len() == i,
                forall|j: int| 0 <= j < i ==> (#[trigger] won_cards@[j])@.len() == 0,
            decreases num_players - i,
        {
            won_cards.push(Vec::new());
            i += 1;
        }
        let g = GameState {
            num_players,
            teams,
            deck,
            discards: Vec::new(),
            won_cards,
            all_cards,
            credited: Ghost(Multiset::empty()),
            refills: Ghost(0),
        };
        proof {
            assert(g.discards@ =~= Seq::<Card>::empty());
            assert(cards_view(g.discards@).len() == 0);
            assert(cards_view(g.discards@).to_multiset().len() == 0);
            assert(g.live_mset() =~= pool@.to_multiset());
            assert(forall|j: int| 0 <= j < g.won_view().len() ==> (#[trigger] g.won_view()[j])
                =~= Seq::<CardV>::empty());
            lemma_piles_mset_empty(g.won_view());
            assert(mset_times(g.pool_mset(), 0) == Multiset::<CardV>::empty());
            assert(g.balance() == mset_times(g.pool_mset(), 0).add(g.pool_mset()));
            assert(g.balance() =~= g.pool_mset());
            assert(g.live_mset().add(g.credited@).add(Multiset::empty()) =~= g.balance());
            assert(g.credited@.add(g.credited@) =~= Multiset::<CardV>::empty());
        }
        g
    }

    /// The deck's size, saturating at the machine limit.
    pub fn deck_size(&self) -> (n: usize)
        ensures
            self.deck_size_spec() <= usize::MAX ==> n == self.deck_size_spec(),
            self.deck_size_spec() > usize::MAX ==> n == usize::MAX,
    {
        let a = self.deck.len();
        let b = self.discards.len();
        if a <= usize::MAX - b {
            a + b
        } else {
            usize::MAX
        }
    }

    /// Draw one card: pop it from the end of the draw pile. When the draw
    /// pile is empty the discard pile is first reshuffled into it, emptying
    /// the discard pile; when both are empty the draw pile is first refilled
    /// from the full pool, reshuffled. Every other pile is untouched.
    pub fn draw_card(&mut self) -> (card: Card)
        requires
            old(self).wf(),
        ensures
            final(self).wf(),
            final(self).num_players == old(self).num_players,
            final(self).teams == old(self).teams,
            final(self).all_cards@ == old(self).all_cards@,
            final(self).pool_mset() == old(self).pool_mset(),
            final(self).won_cards@ == old(self).won_cards@,
            final(self).credited@ == old(self).credited@,
            final(self).pool_mset().count(card@) > 0,
            old(self).deck_size_spec() > 0 ==> final(self).refills@ == old(self).refills@
                && final(self).live_mset().insert(card@) == old(self).live_mset(),
            old(self).deck_size_spec() == 0 ==> final(self).refills@ == old(self).refills@ + 1
                && final(self).live_mset().insert(card@) == old(self).pool_mset(),
            old(self).deck@.len() > 0 ==> card == old(self).deck@.last() && final(self).deck@
                == old(self).deck@.drop_last() && final(self).discards@ == old(self).discards@,
            old(self).deck@.len() == 0 ==> final(self).discards@ == Seq::<Card>::empty(),
            old(self).deck@.len() == 0 && old(self).discards@.len() > 0 ==> cards_view(
                final(self).deck@,
            ).push(card@).to_multiset() == cards_view(old(self).discards@).to_multiset(),
            old(self).deck@.len() == 0 && old(self).discards@.len() == 0 ==> cards_view(
                final(self).deck@,
            ).push(card@).to_multiset() == old(self).pool_mset(),
    {
        let ghost live0 = self.live_mset();
        if self.deck.len() == 0 {
            shuffle_cards(&mut self.discards);
            core::mem::swap(&mut self.deck, &mut self.discards);
            proof {
                assert(self.discards@ =~= Seq::<Card>::empty());
                assert(cards_view(self.discards@).to_multiset().len() == 0);
                assert(self.live_mset() =~= live0);
            }
        }
        if self.deck.len() == 0 {
            self.deck = clone_cards(&self.all_cards);
            proof {
                assert(cards_view(self.deck@).len() == self.deck@.len());
                assert(cards_view(self.all_cards@).len() == self.all_cards@.len());
            }
            shuffle_cards(&mut self.deck);
            self.refills = Ghost(self.refills@ + 1);
            proof {
                assert(cards_view(self.discards@).to_multiset().len() == 0);
                assert(cards_view(self.deck@).to_multiset() == self.pool_mset());
                assert(self.live_mset() =~= self.pool_mset());
                assert(self.deck@.len() == self.all_cards@.len());
            }
        }
        proof {
            assert(self.deck@.len() > 0);
        }
        let ghost live1 = self.live_mset();
        let ghost deck1 = cards_view(self.deck@);
        let card_opt = self.deck.pop();
        let card = card_opt.unwrap();
        proof {
            assert(cards_view(self.deck@) =~= deck1.drop_last());
            assert(deck1.drop_last() =~= deck1.remove(deck1.len() - 1));
            assert(card@ == deck1[deck1.len() - 1]);
            assert(deck1.remove(deck1.len() - 1).to_multiset() == deck1.to_multiset().remove(
                card@,
            ));
            assert(deck1.to_multiset().count(card@) > 0);
            assert(self.live_mset().insert(card@) =~= live1);
            assert(live1.count(card@) > 0);
            assert(forall|c: CardV| #[trigger] self.live_mset().count(c) <= live1.count(c));
            assert(cards_view(self.deck@).push(card@) =~= deck1);
            assert(cards_view(self.deck@).push(card@).to_multiset() == deck1.to_multiset());
        }
        card
    }

    /// Put a non-won card back on the discard pile.
    pub fn return_discard(&mut self, card: Card)
        requires
            old(self).wf(),
            old(self).pool_mset().count(card@) > 0,
        ensures
            final(self).wf(),
            final(self).num_players == old(self).num_players,
            final(self).teams == old(self).teams,
            final(self).all_cards@ == old(self).all_cards@,
            final(self).pool_mset() == old(self).pool_mset(),
            final(self).won_cards@ == old(self).won_cards@,
            final(self).credited@ == old(self).credited@,
            final(self).refills@ == old(self).refills@,
            final(self).live_mset() == old(self).live_mset().insert(card@),
            final(self).deck@ == old(self).deck@,
            final(self).discards@ == old(self).discards@.push(card),
    {
        let ghost disc0 = cards_view(self.discards@);
        self.discards.push(card);
        proof {
            assert(cards_view(self.discards@) =~= disc0.push(card@));
            assert(self.live_mset() =~= old(self).live_mset().insert(card@));
        }
    }

    /// Credit a won card to the one active team's pile.
    pub fn credit_team(&mut self, team: usize, card: Card)
        requires
            old(self).wf(),
            old(self).teams,
            team < old(self).num_players,
            old(self).pool_mset().count(card@) > 0,
        ensures
            final(self).wf(),
            final(self).num_players == old(self).num_players,
            final(self).teams == old(self).teams,
            final(self).all_cards@ == old(self).all_cards@,
            final(self).pool_mset() == old(self).pool_mset(),
            final(self).deck@ == old(self).deck@,
            final(self).discards@ == old(self).discards@,
            final(self).live_mset() == old(self).live_mset(),
            final(self).refills@ == old(self).refills@,
            final(self).credited@ == old(self).credited@.insert(card@),
            final(self).won_view() == old(self).won_view().update(
                team as int,
                old(self).won_view()[team as int].push(card@),
            ),
            final(self).won_all_mset() == old(self).won_all_mset().insert(card@),
    {
        let ghost c0 = self.credited@;
        let ghost wv0 = self.won_view();
        let pile = pile_mut(&mut self.won_cards, team);
        let ghost pile0 = cards_view(pile@);
        pile.push(card);
        self.credited = Ghost(c0.insert(card@));
        proof {
            assert(cards_view(self.won_cards@[team as int]@) =~= pile0.push(card@));
            assert(self.won_view() =~= wv0.update(team as int, wv0[team as int].push(card@)));
            lemma_piles_mset_push(wv0, team as int, card@);
            assert(self.deck@ == old(self).deck@);
            assert(self.discards@ == old(self).discards@);
            assert(self.live_mset() == old(self).live_mset());
            assert(self.pool_mset() == old(self).pool_mset());
        }
    }

    /// Credit a won card cooperatively: one copy into the asker's pile and
    /// one into the askee's.
    pub fn credit_pair(&mut self, asker: usize, askee: usize, card: Card)
        requires
            old(self).wf(),
            !old(self).teams,
            asker < old(self).num_players,
            askee < old(self).num_players,
            asker != askee,
            old(self).pool_mset().count(card@) > 0,
        ensures
            final(self).wf(),
            final(self).num_players == old(self).num_players,
            final(self).teams == old(self).teams,
            final(self).all_cards@ == old(self).all_cards@,
            final(self).pool_mset() == old(self).pool_mset(),
            final(self).deck@ == old(self).deck@,
            final(self).discards@ == old(self).discards@,
            final(self).live_mset() == old(self).live_mset(),
            final(self).refills@ == old(self).refills@,
            final(self).credited@ == old(self).credited@.insert(card@),
            final(self).won_view() == old(self).won_view().update(
                asker as int,
                old(self).won_view()[asker as int].push(card@),
            ).update(askee as int, old(self).won_view()[askee as int].push(card@)),
            final(self).won_all_mset() == old(self).won_all_mset().insert(card@).insert(card@),
    {
        let ghost c0 = self.credited@;
        let ghost wv0 = self.won_view();
        let copy = card.duplicate();
        let pile_a = pile_mut(&mut self.won_cards, asker);
        let ghost pile_a0 = cards_view(pile_a@);
        pile_a.push(copy);
        let ghost wv1 = self.won_view();
        proof {
            assert(cards_view(self.won_cards@[asker as int]@) =~= pile_a0.push(card@));
            assert(wv1 =~= wv0.update(asker as int, wv0[asker as int].push(card@)));
            lemma_piles_mset_push(wv0, asker as int, card@);
        }
        let pile_e = pile_mut(&mut self.won_cards, askee);
        let ghost pile_e0 = cards_view(pile_e@);
        pile_e.push(card);
        self.credited = Ghost(c0.insert(card@));
        proof {
            assert(cards_view(self.won_cards@[askee as int]@) =~= pile_e0.push(card@));
            assert(self.won_view() =~= wv1.update(askee as int, wv1[askee as int].push(card@)));
            lemma_piles_mset_push(wv1, askee as int, card@);
            assert(wv1[askee as int] == wv0[askee as int]);
            assert(self.won_all_mset().count(card@) == old(self).won_all_mset().count(card@)
                + 2) by {
                assert(self.won_all_mset() == old(self).won_all_mset().insert(card@).insert(
                    card@,
                ));
            }
            assert(self.credited@.add(self.credited@) =~= old(self).credited@.add(
                old(self).credited@,
            ).insert(card@).insert(card@));
            assert(self.deck@ == old(self).deck@);
            assert(self.discards@ == old(self).discards@);
            assert(self.live_mset() == old(self).live_mset());
            assert(self.pool_mset() == old(self).pool_mset());
        }
    }
}

/// A mutable borrow of one pile of a stack.
fn pile_mut(piles: &mut Vec<Vec<Card>>, i: usize) -> (p: &mut Vec<Card>)
    requires
        i < old(piles)@.len(),
    ensures
        *p == old(piles)@[i as int],
        final(piles)@ == old(piles)@.update(i as int, *final(p)),
{
    &mut piles[i]
}

/// The live piles hold exactly `deck_size_spec` cards.
pub proof fn lemma_live_len(g: GameState)
    ensures
        g.live_mset().len() == g.deck_size_spec(),
{
}

} // verus!
