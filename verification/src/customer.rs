//! A customer of the park: the cash they carry and the semaphores they wait on
//! at a game's entrance and exit.

use vstd::prelude::*;
use std::sync::Arc;
use std_semaphore::Semaphore;
use rand::Rng;
use crate::park::Park;
use crate::ticket::{initial_permits, share_semaphore, Ticket};

verus! {

/// Trusted: draws a game with `rand::thread_rng().gen_range(0, bound)`, which panics on an
/// empty range. Claimed: the draw is below `bound`; which one it is rests on chance.
#[verifier::external_body]
fn random_game(bound: usize) -> (r: usize)
    requires
        bound > 0,
    ensures
        r < bound,
{
    rand::thread_rng().gen_range(0, bound)
}

/// A customer, with their cash in cents.
pub struct Customer {
    pub id: i64,
    pub cash: i64,
    pub entrance_semaphore: Arc<Semaphore>,
    pub exit_semaphore: Arc<Semaphore>,
}

impl Customer {
    /// A customer with the given number and cash, whose semaphores start closed.
    pub fn new(id: i64, cash: i64) -> (c: Customer)
        ensures
            c.id == id,
            c.cash == cash,
            initial_permits(*c.entrance_semaphore) == 0,
            initial_permits(*c.exit_semaphore) == 0,
    {
        Customer {
            id,
            cash,
            entrance_semaphore: Arc::new(Semaphore::new(0)),
            exit_semaphore: Arc::new(Semaphore::new(0)),
        }
    }

    /// The customer pays `num` cents.
    pub fn pay(&mut self, num: i64)
        requires
            i64::MIN <= old(self).cash - num <= i64::MAX,
        ensures
            final(self).cash == old(self).cash - num,
            final(self).id == old(self).id,
            final(self).entrance_semaphore == old(self).entrance_semaphore,
            final(self).exit_semaphore == old(self).exit_semaphore,
    {
        self.cash = self.cash - num;
    }

    /// The customer stays in the park for another game: they have cash left and some game
    /// costs no more than it.
    pub fn keeps_playing(&self, park: &Park) -> (r: bool)
        ensures
            r == (self.cash > 0 && park@.affords_any(self.cash)),
    {
        self.cash > 0 && park.affords_any_game(self.cash)
    }

    /// The game the customer takes when `drawn` was drawn: that one where they can pay for it,
    /// otherwise the first game they can pay for.
    pub fn choose_game(&self, park: &Park, drawn: usize) -> (r: usize)
        requires
            park.wf(),
            park@.affords_any(self.cash),
            drawn < park@.config.games_cost.len(),
        ensures
            r < park@.config.games_cost.len(),
            r < park@.games.len(),
            park@.games[r as int].cost <= self.cash,
            r == park@.choice(self.cash, drawn as int),
            park@.games[drawn as int].cost <= self.cash ==> r == drawn,
            park@.games[drawn as int].cost > self.cash ==> forall|k: int|
                0 <= k < r ==> #[trigger] park@.games[k].cost > self.cash,
    {
        proof {
            park@.lemma_first_opening(self.cash);
        }
        if park.can_afford_game(self.cash, drawn) {
            return drawn;
        }
        let number_of_games = park.number_of_games();
        let mut game: usize = 0;
        while game < number_of_games
            invariant
                game <= number_of_games,
                number_of_games == park@.config.games_cost.len(),
                number_of_games <= park@.games.len(),
                drawn < number_of_games,
                park@.games[drawn as int].cost > self.cash,
                forall|k: int| 0 <= k < game ==> #[trigger] park@.games[k].cost > self.cash,
            decreases number_of_games - game,
        {
            if park.can_afford_game(self.cash, game) {
                proof {
                    let v = park@;
                    let c = self.cash;
                    assert(0 <= game < v.games.len() && v.games[game as int].cost <= c && forall|k: int|
                        0 <= k < game ==> #[trigger] v.games[k].cost > c);
                    let f = v.first_affordable(c);
                    if f < game {
                        assert(v.games[f].cost > c);
                    }
                    if f > game {
                        assert(v.games[game as int].cost > c);
                    }
                }
                return game;
            }
            game = game + 1;
        }
        proof {
            let j = choose|j: int|
                0 <= j < park@.config.games_cost.len() && #[trigger] park@.games[j].cost <= self.cash;
            assert(park@.games[j].cost > self.cash);
        }
        0
    }

    /// Draws a game at random and picks one: the drawn game where the customer can pay for
    /// it, otherwise the first game they can pay for. Gives the draw and the game picked.
    pub fn draw_game(&self, park: &Park) -> (r: (usize, usize))
        requires
            park.wf(),
            park@.affords_any(self.cash),
        ensures
            r.0 < park@.config.games_cost.len(),
            r.1 < park@.config.games_cost.len(),
            park@.games[r.1 as int].cost <= self.cash,
            park@.games[r.0 as int].cost <= self.cash ==> r.1 == r.0,
            park@.games[r.0 as int].cost > self.cash ==> forall|k: int|
                0 <= k < r.1 ==> #[trigger] park@.games[k].cost > self.cash,
            r.1 == park@.choice(self.cash, r.0 as int),
    {
        proof {
            park@.lemma_first_opening(self.cash);
        }
        let drawn = random_game(park.number_of_games());
        (drawn, self.choose_game(park, drawn))
    }

    /// Picks a game at random; where the customer cannot pay for it, the first game they can
    /// pay for.
    pub fn pick_game(&self, park: &Park) -> (r: usize)
        requires
            park.wf(),
            park@.affords_any(self.cash),
        ensures
            r < park@.config.games_cost.len(),
            r < park@.games.len(),
            park@.games[r as int].cost <= self.cash,
            exists|drawn: int|
                0 <= drawn < park@.config.games_cost.len() && r == park@.choice(self.cash, drawn),
    {
        proof {
            park@.lemma_first_opening(self.cash);
        }
        let (_drawn, game) = self.draw_game(park);
        game
    }

    /// The ticket the customer leaves at a game's entrance.
    pub fn entrance_ticket(&self) -> (t: Ticket)
        ensures
            t.customer == self.id,
            t.signal == self.entrance_semaphore,
    {
        Ticket { customer: self.id, signal: share_semaphore(&self.entrance_semaphore) }
    }

    /// The ticket the customer leaves at a game's exit.
    pub fn exit_ticket(&self) -> (t: Ticket)
        ensures
            t.customer == self.id,
            t.signal == self.exit_semaphore,
    {
        Ticket { customer: self.id, signal: share_semaphore(&self.exit_semaphore) }
    }
}

} // verus!
