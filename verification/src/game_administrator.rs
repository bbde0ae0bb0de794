//! The administrator of a game: what the game costs, the till it pays into, and the
//! queues of customers waiting to get on and off.

use vstd::prelude::*;
use queues::Queue;
use crate::customer::Customer;
use crate::game::Game;
use crate::ledger::after_boarding;
use crate::ticket::{empty_queue, queued, Ticket};

verus! {

/// The administrator of a game; `cash` is the till, in cents, that its charges go to.
pub struct GameAdministrator {
    pub cost: i64,
    pub cash: i64,
    pub entrance_queue: Queue<Ticket>,
    pub exit_queue: Queue<Ticket>,
    pub game: Game,
}

impl GameAdministrator {
    /// An administrator for `game`, charging `cost` into a till that holds `cash`,
    /// with no one waiting.
    pub fn new(game: Game, cost: i64, cash: i64) -> (a: GameAdministrator)
        ensures
            a.game == game,
            a.cost == cost,
            a.cash == cash,
            queued(a.entrance_queue) == Seq::<Ticket>::empty(),
            queued(a.exit_queue) == Seq::<Ticket>::empty(),
    {
        GameAdministrator {
            cost,
            cash,
            entrance_queue: empty_queue(),
            exit_queue: empty_queue(),
            game,
        }
    }

    /// `cash` pays for the game.
    pub fn is_affordable(&self, cash: i64) -> (r: bool)
        ensures
            r == (cash >= self.cost),
    {
        cash >= self.cost
    }

    /// Charges the customer the game's cost: it leaves their cash and goes into the till.
    pub fn charge(&mut self, customer: &mut Customer)
        requires
            i64::MIN <= old(customer).cash - old(self).cost <= i64::MAX,
            i64::MIN <= old(self).cash + old(self).cost <= i64::MAX,
        ensures
            final(customer).cash == old(customer).cash - old(self).cost,
            final(self).cash == old(self).cash + old(self).cost,
            (final(self).cash as int, final(customer).cash as int) == after_boarding(
                old(self).cash as int,
                old(customer).cash as int,
                old(self).cost as int,
            ),
            final(customer).id == old(customer).id,
            final(customer).entrance_semaphore == old(customer).entrance_semaphore,
            final(customer).exit_semaphore == old(customer).exit_semaphore,
            final(self).cost == old(self).cost,
            final(self).game == old(self).game,
            final(self).entrance_queue == old(self).entrance_queue,
            final(self).exit_queue == old(self).exit_queue,
    {
        customer.pay(self.cost);
        self.cash = self.cash + self.cost;
    }

    /// The cash in the till, in cents.
    pub fn get_cash(&self) -> (r: i64)
        ensures
            r == self.cash,
    {
        self.cash
    }

    /// The start of a round of the game: the longest-waiting customer at the entrance gets on.
    pub fn start_ride(&mut self) -> (r: Option<Ticket>)
        ensures
            queued(old(self).entrance_queue).len() == 0 ==> r is None && queued(
                final(self).entrance_queue,
            ) == queued(old(self).entrance_queue),
            queued(old(self).entrance_queue).len() > 0 ==> r == Some(
                queued(old(self).entrance_queue)[0],
            ) && queued(final(self).entrance_queue) == queued(old(self).entrance_queue).drop_first(),
            final(self).exit_queue == old(self).exit_queue,
            final(self).cost == old(self).cost,
            final(self).cash == old(self).cash,
            final(self).game == old(self).game,
    {
        self.game.board(&mut self.entrance_queue)
    }

    /// The end of a round of the game: everyone at the exit gets off, in the order they queued.
    pub fn end_ride(&mut self) -> (r: Vec<Ticket>)
        ensures
            r@ == queued(old(self).exit_queue),
            queued(final(self).exit_queue) == Seq::<Ticket>::empty(),
            final(self).entrance_queue == old(self).entrance_queue,
            final(self).cost == old(self).cost,
            final(self).cash == old(self).cash,
            final(self).game == old(self).game,
    {
        self.game.unload(&mut self.exit_queue)
    }
}

} // verus!
