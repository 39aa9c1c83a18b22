//! Turn rotation: which team, or which ordered asker/askee pair of players,
//! takes the next turn. Team mode cycles through the team indices; player mode
//! walks every ordered pair of distinct players in ascending-gap blocks, so
//! that a full cycle of `n * (n - 1)` turns visits each pair exactly once.

use vstd::prelude::*;
use vstd::arithmetic::div_mod::{
    lemma_fundamental_div_mod, lemma_fundamental_div_mod_converse_div,
    lemma_fundamental_div_mod_converse_mod, lemma_mod_division_less_than_divisor,
    lemma_multiply_divide_lt, lemma_div_pos_is_pos, lemma_small_mod,
};

verus! {

/// Whose turn it is: one team, or an ordered asker/askee pair of players.
#[derive(Clone, Copy, PartialEq, Eq, Structural)]
pub enum CurrentTurn {
    Team(usize),
    Player { asker: usize, askee: usize },
}

/// A turn is valid for a party count `n` when its indices lie below `n` and,
/// for a player pair, the asker and the askee differ.
pub open spec fn turn_valid(t: CurrentTurn, n: int) -> bool {
    match t {
        CurrentTurn::Team(team) => 0 <= team < n,
        CurrentTurn::Player { asker, askee } => 0 <= asker < n && 0 <= askee < n
            && asker != askee,
    }
}

/// The team after `team` among `n` teams.
pub open spec fn team_next(team: int, n: int) -> int {
    if team + 1 >= n {
        0
    } else {
        team + 1
    }
}

/// The distance from the asker forward to the askee, modulo `n`; for a valid
/// pair it lies in `[1, n - 1]`.
pub open spec fn pair_gap(asker: int, askee: int, n: int) -> int {
    if askee < asker {
        askee + n - asker
    } else {
        askee - asker
    }
}

/// The asker/askee pair after `(asker, askee)` among `n` players: the asker
/// advances by one; when it wraps past `n`, the rotation moves to the next
/// gap block (or back to gap 1 after the widest gap).
pub open spec fn pair_next(asker: int, askee: int, n: int) -> (int, int) {
    let gap = pair_gap(asker, askee, n);
    let a2 = asker + 1;
    let e2 = if askee + 1 >= n {
        0
    } else {
        askee + 1
    };
    if a2 >= n {
        if gap + 1 == n {
            (0, 1)
        } else {
            (0, gap + 1)
        }
    } else {
        (a2, e2)
    }
}

/// The turn after `t` among `n` parties.
pub open spec fn turn_next(t: CurrentTurn, n: int) -> CurrentTurn {
    match t {
        CurrentTurn::Team(team) => CurrentTurn::Team(team_next(team as int, n) as usize),
        CurrentTurn::Player { asker, askee } => {
            let p = pair_next(asker as int, askee as int, n);
            CurrentTurn::Player { asker: p.0 as usize, askee: p.1 as usize }
        },
    }
}

/// The turn `k` steps after `t` among `n` parties.
pub open spec fn turn_after(t: CurrentTurn, n: int, k: nat) -> CurrentTurn
    decreases k,
{
    if k == 0 {
        t
    } else {
        turn_next(turn_after(t, n, (k - 1) as nat), n)
    }
}

impl CurrentTurn {
    /// Advance to the next turn among `num_players` parties.
    pub fn next(&mut self, num_players: usize)
        requires
            num_players >= 2,
            turn_valid(*old(self), num_players as int),
        ensures
            *final(self) == turn_next(*old(self), num_players as int),
            turn_valid(*final(self), num_players as int),
    {
        let cur = *self;
        *self = match cur {
            CurrentTurn::Team(team) => {
                if team + 1 >= num_players {
                    CurrentTurn::Team(0)
                } else {
                    CurrentTurn::Team(team + 1)
                }
            },
            CurrentTurn::Player { asker, askee } => {
                let delta = if askee < asker {
                    askee + (num_players - asker)
                } else {
                    askee - asker
                };
                let mut new_asker = asker + 1;
                let mut new_askee = askee + 1;
                if new_askee >= num_players {
                    new_askee = 0;
                }
                if new_asker >= num_players {
                    new_asker = 0;
                    if delta + 1 == num_players {
                        new_askee = 1;
                    } else {
                        new_askee = delta + 1;
                    }
                }
                CurrentTurn::Player { asker: new_asker, askee: new_askee }
            },
        };
    }
}

/// The pair of players with the given gap and asker, among `n` players.
pub open spec fn pair_at(n: int, gap: int, asker: int) -> CurrentTurn {
    CurrentTurn::Player {
        asker: asker as usize,
        askee: (if asker + gap < n {
            asker + gap
        } else {
            asker + gap - n
        }) as usize,
    }
}

/// The pair every player-mode session starts from.
pub open spec fn pair_start() -> CurrentTurn {
    CurrentTurn::Player { asker: 0usize, askee: 1usize }
}

/// Team rotation: the turn `k` steps after team 0 is team `k % n`.
pub proof fn lemma_team_rotation(n: int, k: nat)
    requires
        2 <= n <= usize::MAX,
    ensures
        turn_after(CurrentTurn::Team(0), n, k) == CurrentTurn::Team((k as int % n) as usize),
    decreases k,
{
    lemma_mod_division_less_than_divisor(k as int, n);
    if k == 0 {
        lemma_small_mod(0, n as nat);
    } else {
        let prev = (k - 1) as nat;
        lemma_team_rotation(n, prev);
        lemma_mod_division_less_than_divisor(prev as int, n);
        lemma_fundamental_div_mod(prev as int, n);
        let q = prev as int / n;
        let r = prev as int % n;
        assert(prev as int == q * n + r) by (nonlinear_arith)
            requires
                prev as int == n * q + r,
        ;
        if r + 1 < n {
            lemma_fundamental_div_mod_converse_mod(k as int, n, q, r + 1);
        } else {
            assert(k as int == (q + 1) * n + 0) by (nonlinear_arith)
                requires
                    prev as int == q * n + r,
                    k == prev + 1,
                    r + 1 == n,
            ;
            lemma_fundamental_div_mod_converse_mod(k as int, n, q + 1, 0);
        }
    }
}

/// Team rotation law: starting from team 0 with `n >= 2` teams, the first `n`
/// turns visit the team indices `0, 1, ..., n - 1` in order, each exactly
/// once, and the `n`-th advance returns to team 0.
pub proof fn lemma_team_cycle(n: int)
    requires
        2 <= n <= usize::MAX,
    ensures
        forall|k: nat| k < n ==> turn_after(CurrentTurn::Team(0), n, k)
            == CurrentTurn::Team(k as usize),
        turn_after(CurrentTurn::Team(0), n, n as nat) == CurrentTurn::Team(0),
{
    assert forall|k: nat| k < n implies turn_after(CurrentTurn::Team(0), n, k)
        == CurrentTurn::Team(k as usize) by {
        lemma_team_rotation(n, k);
        lemma_small_mod(k, n as nat);
    }
    lemma_team_rotation(n, n as nat);
    assert(n % n == 0) by {
        lemma_fundamental_div_mod_converse_mod(n, n, 1, 0);
    }
}

/// Stepping from the pair with a given gap and asker moves to the next asker
/// in the same gap block, or to the start of the next block.
proof fn lemma_pair_step(n: int, gap: int, asker: int)
    requires
        2 <= n <= usize::MAX,
        1 <= gap < n,
        0 <= asker < n,
    ensures
        turn_valid(pair_at(n, gap, asker), n),
        turn_next(pair_at(n, gap, asker), n) == (if asker + 1 < n {
            pair_at(n, gap, asker + 1)
        } else if gap + 1 < n {
            pair_at(n, gap + 1, 0)
        } else {
            pair_start()
        }),
{
}

/// The turn `(gap - 1) * n + asker` steps after the starting pair `(0, 1)` is
/// the pair with that gap and asker; the step count lies in
/// `[0, n * (n - 1))`.
proof fn lemma_pair_after_index(n: int, gap: int, asker: int)
    requires
        2 <= n <= usize::MAX,
        1 <= gap < n,
        0 <= asker < n,
    ensures
        0 <= (gap - 1) * n + asker < n * (n - 1),
        turn_after(pair_start(), n, ((gap - 1) * n + asker) as nat) == pair_at(n, gap, asker),
    decreases (gap - 1) * n + asker,
{
    let k = (gap - 1) * n + asker;
    assert(0 <= (gap - 1) * n + asker < n * (n - 1)) by (nonlinear_arith)
        requires
            1 <= gap < n,
            0 <= asker < n,
            2 <= n,
    ;
    if gap == 1 && asker == 0 {
        assert(pair_at(n, 1, 0) == pair_start());
        assert((gap - 1) * n + asker == 0) by (nonlinear_arith)
            requires
                gap == 1,
                asker == 0,
        ;
    } else if asker > 0 {
        assert((gap - 1) * n + asker >= 1) by (nonlinear_arith)
            requires
                1 <= gap,
                1 <= asker,
                2 <= n,
        ;
        lemma_pair_after_index(n, gap, asker - 1);
        lemma_pair_step(n, gap, asker - 1);
        assert(turn_after(pair_start(), n, k as nat)
            == turn_next(turn_after(pair_start(), n, (k - 1) as nat), n));
    } else {
        // asker == 0 and gap >= 2: the previous step ends the preceding block.
        assert((gap - 1) * n + 0 >= 1 && (gap - 1) * n + 0 - 1 == (gap - 2) * n + (n - 1))
            by (nonlinear_arith)
            requires
                2 <= gap,
                2 <= n,
        ;
        lemma_pair_after_index(n, gap - 1, n - 1);
        lemma_pair_step(n, gap - 1, n - 1);
        assert(turn_after(pair_start(), n, k as nat)
            == turn_next(turn_after(pair_start(), n, (k - 1) as nat), n));
    }
}

/// Two pairs with gaps in `[1, n)` and askers in `[0, n)` coincide only when
/// their gaps and askers coincide.
proof fn lemma_pair_at_injective(n: int, g1: int, a1: int, g2: int, a2: int)
    requires
        2 <= n <= usize::MAX,
        1 <= g1 < n,
        0 <= a1 < n,
        1 <= g2 < n,
        0 <= a2 < n,
        pair_at(n, g1, a1) == pair_at(n, g2, a2),
    ensures
        g1 == g2 && a1 == a2,
{
}

/// Some turn among the first `n * (n - 1)` after the starting pair `(0, 1)`
/// is the ordered pair `(a, e)`.
pub open spec fn pair_reached(n: int, a: int, e: int) -> bool {
    exists|k: nat| k < n * (n - 1) && turn_after(pair_start(), n, k) == (CurrentTurn::Player {
        asker: a as usize,
        askee: e as usize,
    })
}

/// Round-robin law for player mode: starting from the pair `(0, 1)` with
/// `n >= 2` players, the first `n * (n - 1)` turns are pairwise distinct,
/// they include every ordered pair of distinct players, and the cycle returns
/// to `(0, 1)` after exactly `n * (n - 1)` advances.
pub proof fn lemma_player_round_robin(n: int)
    requires
        2 <= n <= usize::MAX,
    ensures
        forall|i: nat, j: nat| i < j < n * (n - 1)
            ==> turn_after(pair_start(), n, i) != turn_after(pair_start(), n, j),
        forall|a: int, e: int| 0 <= a < n && 0 <= e < n && a != e ==> #[trigger] pair_reached(
            n,
            a,
            e,
        ),
        turn_after(pair_start(), n, (n * (n - 1)) as nat) == pair_start(),
{
    assert forall|i: nat, j: nat| i < j < n * (n - 1) implies turn_after(pair_start(), n, i)
        != turn_after(pair_start(), n, j) by {
        lemma_pair_decompose(n, i);
        lemma_pair_decompose(n, j);
        let g1 = i as int / n + 1;
        let a1 = i as int % n;
        let g2 = j as int / n + 1;
        let a2 = j as int % n;
        if turn_after(pair_start(), n, i) == turn_after(pair_start(), n, j) {
            lemma_pair_at_injective(n, g1, a1, g2, a2);
            assert(i == j) by (nonlinear_arith)
                requires
                    i as int == (i as int / n) * n + i as int % n,
                    j as int == (j as int / n) * n + j as int % n,
                    i as int / n == j as int / n,
                    i as int % n == j as int % n,
            ;
        }
    }
    assert forall|a: int, e: int| 0 <= a < n && 0 <= e < n && a != e implies #[trigger] pair_reached(
        n,
        a,
        e,
    ) by {
        let gap = pair_gap(a, e, n);
        lemma_pair_after_index(n, gap, a);
        let k = ((gap - 1) * n + a) as nat;
        assert(pair_at(n, gap, a) == (CurrentTurn::Player {
            asker: a as usize,
            askee: e as usize,
        }));
        assert(k < n * (n - 1) && turn_after(pair_start(), n, k) == (CurrentTurn::Player {
            asker: a as usize,
            askee: e as usize,
        }));
    }
    // One full cycle: the last pair has the widest gap and the last asker;
    // one more step returns to the start.
    lemma_pair_after_index(n, n - 1, n - 1);
    lemma_pair_step(n, n - 1, n - 1);
    assert(n * (n - 1) - 1 == (n - 2) * n + (n - 1)) by (nonlinear_arith)
        requires
            2 <= n,
    ;
    assert(n * (n - 1) >= 2) by (nonlinear_arith)
        requires
            2 <= n,
    ;
    let c = n * (n - 1);
    assert(turn_after(pair_start(), n, c as nat)
        == turn_next(turn_after(pair_start(), n, (c - 1) as nat), n));
}

/// The turn `k` steps after the starting pair, for `k` below the cycle
/// length, is the pair with gap `k / n + 1` and asker `k % n`.
proof fn lemma_pair_decompose(n: int, k: nat)
    requires
        2 <= n <= usize::MAX,
        k < n * (n - 1),
    ensures
        1 <= k as int / n + 1 < n,
        0 <= k as int % n < n,
        k as int == (k as int / n + 1 - 1) * n + k as int % n,
        turn_after(pair_start(), n, k) == pair_at(n, k as int / n + 1, k as int % n),
{
    lemma_div_pos_is_pos(k as int, n);
    lemma_multiply_divide_lt(k as int, n, n - 1);
    lemma_mod_division_less_than_divisor(k as int, n);
    lemma_fundamental_div_mod(k as int, n);
    assert(k as int == (k as int / n) * n + k as int % n) by (nonlinear_arith)
        requires
            k as int == n * (k as int / n) + k as int % n,
    ;
    lemma_pair_after_index(n, k as int / n + 1, k as int % n);
}

} // verus!
