//! The park: its configuration, whether it is open, the administrators of its games,
//! the tills they charge into, and the semaphore that bounds how many customers are inside.

use vstd::prelude::*;
use std::sync::Arc;
use std_semaphore::Semaphore;
use crate::config::{ParkConfig, ParkConfigView};
use crate::customer::Customer;
use crate::game::{ride, Game};
use crate::game_administrator::GameAdministrator;
use crate::ledger::after_boarding;
use crate::ticket::{enqueue, initial_permits, queued, Ticket};

verus! {

/// How long a ride lasts, in seconds.
pub const GAME_DURATION: u64 = 2;

/// The park. `cash` is what it opens with. Each opening starts a till of its own, holding
/// `cash`, that the administrators it sets up charge into; `tills` holds them in order, and
/// `opening_of` says which opening set up each administrator.
pub struct Park {
    cash: i64,
    tills: Vec<i64>,
    park_config: ParkConfig,
    is_open: bool,
    game_administrators: Vec<GameAdministrator>,
    opening_of: Vec<usize>,
    pub park_entrance_semaphore: Arc<Semaphore>,
}

/// What the park is: the cash it opens with, the till it reports (that of its latest
/// opening, or the cash it opens with before it is opened), whether it is open, its
/// configuration, how often it has been opened, the till of each opening, its games'
/// administrators, and the opening that set up each of them.
pub struct ParkView {
    pub cash: i64,
    pub till: i64,
    pub open: bool,
    pub config: ParkConfigView,
    pub openings: nat,
    pub tills: Seq<i64>,
    pub games: Seq<GameAdministrator>,
    pub opening_of: Seq<usize>,
    pub entrance_semaphore: Arc<Semaphore>,
}

/// `s` written `times` times over.
pub open spec fn repeated<A>(s: Seq<A>, times: nat) -> Seq<A>
    decreases times,
{
    if times == 0 {
        Seq::empty()
    } else {
        repeated(s, (times - 1) as nat) + s
    }
}

/// The games that one opening of the park sets up: game `i` for each configured cost.
pub open spec fn games_of_opening(n: nat) -> Seq<Game> {
    Seq::new(n, |i: int| Game { id: i as usize, duration_secs: GAME_DURATION })
}

impl ParkView {
    /// Each opening of the park added one administrator per configured game, in order, with
    /// its cost; every administrator charges into the till of the opening that set it up.
    pub open spec fn inv(self) -> bool {
        &&& self.games.map_values(|a: GameAdministrator| a.cost) == repeated(
            self.config.games_cost,
            self.openings,
        )
        &&& self.games.map_values(|a: GameAdministrator| a.game) == repeated(
            games_of_opening(self.config.games_cost.len()),
            self.openings,
        )
        &&& self.tills.len() == self.openings
        &&& self.opening_of.len() == self.games.len()
        &&& forall|i: int|
            0 <= i < self.games.len() ==> #[trigger] self.opening_of[i] < self.openings
                && self.games[i].cash == self.tills[self.opening_of[i] as int]
    }

    /// The two views differ at most in the tills and the games' queues.
    pub open spec fn same_games(self, other: ParkView) -> bool {
        &&& self.cash == other.cash
        &&& self.entrance_semaphore == other.entrance_semaphore
        &&& self.open == other.open
        &&& self.config == other.config
        &&& self.openings == other.openings
        &&& self.opening_of == other.opening_of
        &&& self.games.len() == other.games.len()
        &&& forall|i: int|
            0 <= i < self.games.len() ==> (#[trigger] self.games[i]).cost == other.games[i].cost
                && self.games[i].game == other.games[i].game
    }

    /// The tickets waiting at game `g`'s entrance.
    pub open spec fn entrance(self, g: int) -> Seq<Ticket> {
        queued(self.games[g].entrance_queue)
    }

    /// The tickets waiting at game `g`'s exit.
    pub open spec fn exit(self, g: int) -> Seq<Ticket> {
        queued(self.games[g].exit_queue)
    }

    /// Some game costs no more than `cash`.
    pub open spec fn affords_any(self, cash: i64) -> bool {
        exists|i: int| 0 <= i < self.games.len() && #[trigger] self.games[i].cost <= cash
    }

    /// The first game, in the park's order, that costs no more than `cash`.
    pub open spec fn first_affordable(self, cash: i64) -> int {
        choose|j: int|
            0 <= j < self.games.len() && #[trigger] self.games[j].cost <= cash && forall|k: int|
                0 <= k < j ==> #[trigger] self.games[k].cost > cash
    }

    /// The game a customer with `cash` takes when `drawn` is the game drawn at random: the
    /// drawn game where it pays for it, otherwise the first game it pays for.
    pub open spec fn choice(self, cash: i64, drawn: int) -> int {
        if self.games[drawn].cost <= cash {
            drawn
        } else {
            self.first_affordable(cash)
        }
    }

    /// What a customer with `cash` takes when `drawn` was drawn: the drawn game itself
    /// whenever it costs no more than `cash`, so every game they can pay for can be taken;
    /// otherwise a game they can pay for with every game before it too dear for them.
    pub proof fn lemma_choice(self, cash: i64, drawn: int)
        requires
            0 <= drawn < self.games.len(),
            self.affords_any(cash),
        ensures
            self.games[drawn].cost <= cash ==> self.choice(cash, drawn) == drawn,
            self.games[drawn].cost > cash ==> {
                let g = self.choice(cash, drawn);
                &&& 0 <= g < self.games.len()
                &&& self.games[g].cost <= cash
                &&& forall|k: int| 0 <= k < g ==> #[trigger] self.games[k].cost > cash
            },
            forall|g: int|
                0 <= g < self.games.len() && #[trigger] self.games[g].cost <= cash ==> self.choice(
                    cash,
                    g,
                ) == g,
    {
        self.lemma_first_affordable(cash);
    }

    /// Where some game costs no more than `cash`, there is a first such game.
    pub proof fn lemma_first_affordable(self, cash: i64)
        requires
            self.affords_any(cash),
        ensures
            0 <= self.first_affordable(cash) < self.games.len(),
            self.games[self.first_affordable(cash)].cost <= cash,
            forall|k: int| 0 <= k < self.first_affordable(cash) ==> #[trigger] self.games[k].cost > cash,
    {
        self.lemma_first_affordable_from(cash, 0);
    }

    /// Searching from `from`, past games that cost more than `cash`, finds a first one that
    /// does not.
    proof fn lemma_first_affordable_from(self, cash: i64, from: int)
        requires
            0 <= from <= self.games.len(),
            forall|k: int| 0 <= k < from ==> #[trigger] self.games[k].cost > cash,
            self.affords_any(cash),
        ensures
            exists|j: int|
                0 <= j < self.games.len() && #[trigger] self.games[j].cost <= cash && forall|k: int|
                    0 <= k < j ==> #[trigger] self.games[k].cost > cash,
        decreases self.games.len() - from,
    {
        if from == self.games.len() {
            let i = choose|i: int| 0 <= i < self.games.len() && #[trigger] self.games[i].cost <= cash;
            assert(self.games[i].cost > cash);
        } else if self.games[from].cost <= cash {
            assert(0 <= from < self.games.len() && self.games[from].cost <= cash && forall|k: int|
                0 <= k < from ==> #[trigger] self.games[k].cost > cash);
        } else {
            self.lemma_first_affordable_from(cash, from + 1);
        }
    }

    /// Every game of the park costs what the configuration says for one of its games.
    pub proof fn lemma_every_game_configured(self, i: int)
        requires
            self.inv(),
            0 <= i < self.games.len(),
        ensures
            exists|j: int|
                0 <= j < self.config.games_cost.len() && self.games[i].cost
                    == #[trigger] self.config.games_cost[j],
    {
        let all = self.games.map_values(|a: GameAdministrator| a.cost);
        assert(all[i] == self.games[i].cost);
        lemma_repeated(self.config.games_cost, self.openings, i);
    }

    /// Once the park has been opened, its first games are the configured ones, in order; where
    /// some game costs no more than `cash`, one of these does too.
    pub proof fn lemma_first_opening(self, cash: i64)
        requires
            self.inv(),
            self.affords_any(cash),
        ensures
            self.config.games_cost.len() <= self.games.len(),
            forall|j: int|
                0 <= j < self.config.games_cost.len() ==> #[trigger] self.games[j].cost
                    == self.config.games_cost[j],
            exists|j: int|
                0 <= j < self.config.games_cost.len() && #[trigger] self.games[j].cost <= cash,
    {
        let costs = self.config.games_cost;
        let i = choose|i: int| 0 <= i < self.games.len() && #[trigger] self.games[i].cost <= cash;
        let all = self.games.map_values(|a: GameAdministrator| a.cost);
        assert(all[i] == self.games[i].cost);
        lemma_repeated(costs, self.openings, i);
        let j = choose|j: int| 0 <= j < costs.len() && repeated(costs, self.openings)[i] == costs[j];
        assert forall|k: int| 0 <= k < costs.len() implies #[trigger] self.games[k].cost
            == costs[k] by {
            assert(all[k] == self.games[k].cost);
        }
        assert(self.games[j].cost <= cash);
    }
}

impl View for Park {
    type V = ParkView;

    closed spec fn view(&self) -> ParkView {
        ParkView {
            cash: self.cash,
            till: if self.tills@.len() == 0 {
                self.cash
            } else {
                self.tills@.last()
            },
            open: self.is_open,
            config: self.park_config@,
            openings: self.tills@.len(),
            tills: self.tills@,
            games: self.game_administrators@,
            opening_of: self.opening_of@,
            entrance_semaphore: self.park_entrance_semaphore,
        }
    }
}

/// Where `s` is written `times` times over, the first copy is `s` itself and every
/// element is one of `s`.
pub proof fn lemma_repeated<A>(s: Seq<A>, times: nat, i: int)
    requires
        0 <= i < repeated(s, times).len(),
    ensures
        times > 0,
        s.len() > 0,
        repeated(s, times).len() >= s.len(),
        forall|j: int| 0 <= j < s.len() ==> #[trigger] repeated(s, times)[j] == s[j],
        exists|j: int| 0 <= j < s.len() && repeated(s, times)[i] == s[j],
    decreases times,
{
    let prev = repeated(s, (times - 1) as nat);
    assert(repeated(s, times) == prev + s);
    if i < prev.len() {
        lemma_repeated(s, (times - 1) as nat, i);
        assert forall|j: int| 0 <= j < s.len() implies #[trigger] repeated(s, times)[j] == s[j] by {
            assert(repeated(s, times)[j] == prev[j]);
        }
        let j = choose|j: int| 0 <= j < s.len() && prev[i] == s[j];
        assert(repeated(s, times)[i] == s[j]);
    } else {
        if prev.len() > 0 {
            lemma_repeated(s, (times - 1) as nat, 0);
            assert forall|j: int| 0 <= j < s.len() implies #[trigger] repeated(s, times)[j]
                == s[j] by {
                assert(repeated(s, times)[j] == prev[j]);
            }
        } else {
            assert(repeated(s, times) =~= s);
        }
        assert(repeated(s, times)[i] == s[i - prev.len()]);
    }
}

/// Administrators with the same costs and games, in the same order, map to the same costs
/// and games.
proof fn lemma_same_costs_and_games(a: Seq<GameAdministrator>, b: Seq<GameAdministrator>)
    requires
        a.len() == b.len(),
        forall|i: int| 0 <= i < a.len() ==> (#[trigger] a[i]).cost == b[i].cost && a[i].game == b[i].game,
    ensures
        a.map_values(|x: GameAdministrator| x.cost) == b.map_values(|x: GameAdministrator| x.cost),
        a.map_values(|x: GameAdministrator| x.game) == b.map_values(|x: GameAdministrator| x.game),
{
    assert(a.map_values(|x: GameAdministrator| x.cost) =~= b.map_values(|x: GameAdministrator| x.cost));
    assert(a.map_values(|x: GameAdministrator| x.game) =~= b.map_values(|x: GameAdministrator| x.game));
}

impl Park {
    /// The configuration is well formed and the view keeps its invariant.
    pub open spec fn wf(&self) -> bool {
        self.config_wf() && self@.inv()
    }

    /// The configuration is well formed.
    pub closed spec fn config_wf(&self) -> bool {
        self.park_config.wf()
    }

    /// A closed park with the given cash and configuration, no games set up yet, and an
    /// entrance semaphore with as many permits as the park's capacity.
    pub fn new(cash: i64, park_config: ParkConfig) -> (p: Park)
        requires
            park_config.wf(),
        ensures
            p.wf(),
            p@ == (ParkView {
                cash,
                till: cash,
                open: false,
                config: park_config@,
                openings: 0,
                tills: Seq::empty(),
                games: Seq::empty(),
                opening_of: Seq::empty(),
                entrance_semaphore: p@.entrance_semaphore,
            }),
            initial_permits(*p@.entrance_semaphore) == park_config@.park_capacity as isize,
    {
        let park_capacity = park_config.park_capacity() as isize;
        let p = Park {
            cash,
            tills: Vec::new(),
            park_config,
            is_open: false,
            game_administrators: Vec::new(),
            opening_of: Vec::new(),
            park_entrance_semaphore: Arc::new(Semaphore::new(park_capacity)),
        };
        assert(p@.games.map_values(|a: GameAdministrator| a.cost) =~= Seq::<i64>::empty());
        assert(p@.games.map_values(|a: GameAdministrator| a.game) =~= Seq::<Game>::empty());
        p
    }

    /// The park is open.
    pub fn is_open(&self) -> (r: bool)
        ensures
            r == self@.open,
    {
        self.is_open
    }

    /// The cash in the park's till, in cents: that of its latest opening.
    pub fn get_cash(&self) -> (r: i64)
        ensures
            r == self@.till,
    {
        if self.tills.len() == 0 {
            self.cash
        } else {
            self.tills[self.tills.len() - 1]
        }
    }

    /// The cash in the till that game `game` charges into, in cents.
    pub fn game_till(&self, game: usize) -> (r: i64)
        requires
            self.wf(),
            game < self@.games.len(),
        ensures
            r == self@.games[game as int].cash,
            r == self@.tills[self@.opening_of[game as int] as int],
    {
        self.game_administrators[game].cash
    }

    /// How many games the configuration names.
    pub fn number_of_games(&self) -> (r: usize)
        requires
            self.wf(),
        ensures
            r == self@.config.games_cost.len(),
    {
        self.park_config.number_of_games()
    }

    /// Opens the park: a fresh till holding the cash the park opened with, which becomes the
    /// till the park reports, and one more administrator for each configured game, charging
    /// into that till, with its cost, its game (numbered from zero, lasting `GAME_DURATION`
    /// seconds) and no one waiting. Administrators of earlier openings keep their own tills.
    pub fn open(&mut self)
        requires
            old(self).wf(),
        ensures
            final(self).wf(),
            final(self)@.open,
            final(self)@.till == old(self)@.cash,
            final(self)@.cash == old(self)@.cash,
            final(self)@.config == old(self)@.config,
            final(self)@.openings == old(self)@.openings + 1,
            final(self)@.tills == old(self)@.tills.push(old(self)@.cash),
            final(self)@.entrance_semaphore == old(self)@.entrance_semaphore,
            final(self)@.games.len() == old(self)@.games.len() + old(self)@.config.games_cost.len(),
            final(self)@.opening_of == old(self)@.opening_of + Seq::new(
                old(self)@.config.games_cost.len(),
                |i: int| old(self)@.openings as usize,
            ),
            forall|i: int|
                0 <= i < old(self)@.games.len() ==> #[trigger] final(self)@.games[i] == old(self)@.games[i],
            forall|i: int|
                0 <= i < old(self)@.config.games_cost.len() ==> {
                    let a = #[trigger] final(self)@.games[old(self)@.games.len() + i];
                    &&& a.cost == old(self)@.config.games_cost[i]
                    &&& a.cash == old(self)@.cash
                    &&& a.game == (Game { id: i as usize, duration_secs: GAME_DURATION })
                    &&& queued(a.entrance_queue) == Seq::<Ticket>::empty()
                    &&& queued(a.exit_queue) == Seq::<Ticket>::empty()
                },
    {
        self.is_open = true;
        let cash = self.cash;
        let opening = self.tills.len();
        self.tills.push(cash);
        let n = self.park_config.number_of_games();
        let ghost before = self.game_administrators@;
        let ghost before_opening_of = self.opening_of@;
        let ghost costs = self.park_config@.games_cost;
        let mut i: usize = 0;
        while i < n
            invariant
                i <= n,
                n == costs.len(),
                costs == self.park_config@.games_cost,
                self.park_config.wf(),
                self.cash == cash,
                self.is_open,
                opening == old(self).tills@.len(),
                self.tills@ == old(self).tills@.push(cash),
                self.park_config == old(self).park_config,
                self.park_entrance_semaphore == old(self).park_entrance_semaphore,
                before == old(self).game_administrators@,
                before_opening_of == old(self).opening_of@,
                self.game_administrators@.len() == before.len() + i,
                self.opening_of@ == before_opening_of + Seq::new(i as nat, |k: int| opening),
                forall|k: int| 0 <= k < before.len() ==> #[trigger] self.game_administrators@[k] == before[k],
                forall|k: int|
                    0 <= k < i ==> {
                        let a = #[trigger] self.game_administrators@[before.len() + k];
                        &&& a.cost == costs[k]
                        &&& a.cash == cash
                        &&& a.game == (Game { id: k as usize, duration_secs: GAME_DURATION })
                        &&& queued(a.entrance_queue) == Seq::<Ticket>::empty()
                        &&& queued(a.exit_queue) == Seq::<Ticket>::empty()
                    },
            decreases n - i,
        {
            let cost = self.park_config.game_cost(i);
            let admin = GameAdministrator::new(
                Game { id: i, duration_secs: GAME_DURATION },
                cost,
                cash,
            );
            self.game_administrators.push(admin);
            self.opening_of.push(opening);
            assert(self.opening_of@ =~= before_opening_of + Seq::new((i + 1) as nat, |k: int| opening));
            i = i + 1;
        }
        proof {
            let k = old(self)@.openings;
            let all = self.game_administrators@;
            assert(repeated(costs, k + 1) == repeated(costs, k) + costs);
            assert forall|t: int| #![trigger all[t]] before.len() <= t < all.len() implies all[t].cost
                == costs[t - before.len()] && all[t].game == games_of_opening(n as nat)[t
                - before.len()] by {
                assert(all[before.len() + (t - before.len())] == all[t]);
            }
            assert(all.map_values(|x: GameAdministrator| x.cost) =~= before.map_values(
                |x: GameAdministrator| x.cost,
            ) + costs);
            let batch = games_of_opening(n as nat);
            assert(repeated(batch, k + 1) == repeated(batch, k) + batch);
            assert(all.map_values(|x: GameAdministrator| x.game) =~= before.map_values(
                |x: GameAdministrator| x.game,
            ) + batch);
            assert forall|t: int| 0 <= t < all.len() implies #[trigger] self@.opening_of[t]
                < self@.openings && all[t].cash == self@.tills[self@.opening_of[t] as int] by {
                if t >= before.len() {
                    assert(all[before.len() + (t - before.len())] == all[t]);
                    assert(self@.opening_of[t] == opening);
                } else {
                    assert(self@.opening_of[t] == before_opening_of[t]);
                }
            }
            assert(self@.opening_of =~= old(self)@.opening_of + Seq::new(
                old(self)@.config.games_cost.len(),
                |i: int| old(self)@.openings as usize,
            ));
        }
    }

    /// Closes the park; the games stop once their round is over.
    pub fn close(&mut self)
        requires
            old(self).wf(),
        ensures
            final(self).wf(),
            final(self)@ == (ParkView { open: false, ..old(self)@ }),
    {
        self.is_open = false;
    }

    /// Some game of the park costs no more than `cash`.
    pub fn affords_any_game(&self, cash: i64) -> (r: bool)
        ensures
            r == self@.affords_any(cash),
    {
        let mut i: usize = 0;
        while i < self.game_administrators.len()
            invariant
                i <= self@.games.len(),
                forall|k: int| 0 <= k < i ==> #[trigger] self@.games[k].cost > cash,
            decreases self@.games.len() - i,
        {
            if self.game_administrators[i].is_affordable(cash) {
                return true;
            }
            i = i + 1;
        }
        false
    }

    /// How many game administrators the park has: one per configured game for each time
    /// it was opened.
    pub fn number_of_administrators(&self) -> (r: usize)
        ensures
            r == self@.games.len(),
    {
        self.game_administrators.len()
    }

    /// What game `game` costs, in cents.
    pub fn game_cost(&self, game: usize) -> (r: i64)
        requires
            game < self@.games.len(),
        ensures
            r == self@.games[game as int].cost,
    {
        self.game_administrators[game].cost
    }

    /// Game `game` costs no more than `cash`.
    pub fn can_afford_game(&self, cash: i64, game: usize) -> (r: bool)
        requires
            game < self@.games.len(),
        ensures
            r == (self@.games[game as int].cost <= cash),
    {
        self.game_administrators[game].cost <= cash
    }

    /// The customer joins the queue at game `game_number`'s entrance, with a ticket that
    /// names them and their entrance semaphore, and pays the game's cost into the till of the
    /// opening that set the game up.
    pub fn add_to_entrance_queue(&mut self, customer: &mut Customer, game_number: usize)
        requires
            old(self).wf(),
            game_number < old(self)@.games.len(),
            i64::MIN <= old(self)@.games[game_number as int].cash + old(self)@.games[game_number as int].cost
                <= i64::MAX,
            i64::MIN <= old(customer).cash - old(self)@.games[game_number as int].cost
                <= i64::MAX,
        ensures
            final(self).wf(),
            final(self)@.same_games(old(self)@),
            ({
                let b = old(self)@.opening_of[game_number as int] as int;
                let cost = old(self)@.games[game_number as int].cost;
                &&& final(self)@.tills == old(self)@.tills.update(b, (old(self)@.tills[b] + cost) as i64)
                &&& (final(self)@.tills[b] as int, final(customer).cash as int) == after_boarding(
                    old(self)@.tills[b] as int,
                    old(customer).cash as int,
                    cost as int,
                )
                &&& final(self)@.till == (if b == old(self)@.openings - 1 {
                    old(self)@.till + cost
                } else {
                    old(self)@.till as int
                })
            }),
            final(customer).cash == old(customer).cash - old(self)@.games[game_number as int].cost,
            final(customer).id == old(customer).id,
            final(customer).entrance_semaphore == old(customer).entrance_semaphore,
            final(customer).exit_semaphore == old(customer).exit_semaphore,
            final(self)@.entrance(game_number as int) == old(self)@.entrance(game_number as int).push(
                (Ticket { customer: old(customer).id, signal: old(customer).entrance_semaphore }),
            ),
            forall|i: int|
                0 <= i < old(self)@.games.len() && i != game_number ==> #[trigger] final(self)@.entrance(i) == old(self)@.entrance(i),
            forall|i: int|
                0 <= i < old(self)@.games.len() ==> #[trigger] final(self)@.exit(i) == old(self)@.exit(i),
    {
        let ticket = customer.entrance_ticket();
        enqueue(&mut self.game_administrators[game_number].entrance_queue, ticket);
        self.game_administrators[game_number].charge(customer);
        let opening = self.opening_of[game_number];
        let till = self.game_administrators[game_number].cash;
        self.tills.set(opening, till);
        self.share_till(opening, till);
        proof {
            lemma_same_costs_and_games(self@.games, old(self)@.games);
        }
    }

    /// The customer joins the queue at game `game_number`'s exit, with a ticket that names
    /// them and their exit semaphore.
    pub fn add_to_exit_queue(&mut self, customer: &Customer, game_number: usize)
        requires
            old(self).wf(),
            game_number < old(self)@.games.len(),
        ensures
            final(self).wf(),
            final(self)@.same_games(old(self)@),
            final(self)@.tills == old(self)@.tills,
            final(self)@.exit(game_number as int) == old(self)@.exit(game_number as int).push(
                (Ticket { customer: customer.id, signal: customer.exit_semaphore }),
            ),
            forall|i: int|
                0 <= i < old(self)@.games.len() && i != game_number ==> #[trigger] final(self)@.exit(i) == old(self)@.exit(i),
            forall|i: int|
                0 <= i < old(self)@.games.len() ==> #[trigger] final(self)@.entrance(i) == old(self)@.entrance(i),
    {
        let ticket = customer.exit_ticket();
        enqueue(&mut self.game_administrators[game_number].exit_queue, ticket);
        proof {
            lemma_same_costs_and_games(self@.games, old(self)@.games);
        }
    }

    /// The start of a round of game `game_number`: the customer who has waited longest at
    /// its entrance gets on, and the ticket is handed back so their semaphore can be released.
    pub fn start_ride(&mut self, game_number: usize) -> (r: Option<Ticket>)
        requires
            old(self).wf(),
            game_number < old(self)@.games.len(),
        ensures
            final(self).wf(),
            final(self)@.same_games(old(self)@),
            final(self)@.tills == old(self)@.tills,
            old(self)@.entrance(game_number as int).len() == 0 ==> r is None && final(self)@.entrance(game_number as int) == old(self)@.entrance(game_number as int),
            old(self)@.entrance(game_number as int).len() > 0 ==> r == Some(
                old(self)@.entrance(game_number as int)[0],
            ) && final(self)@.entrance(game_number as int) == old(self)@.entrance(
                game_number as int,
            ).drop_first(),
            (final(self)@.entrance(game_number as int), r) == ride(
                old(self)@.entrance(game_number as int),
            ),
            forall|i: int|
                0 <= i < old(self)@.games.len() && i != game_number ==> #[trigger] final(self)@.entrance(i) == old(self)@.entrance(i),
            forall|i: int|
                0 <= i < old(self)@.games.len() ==> #[trigger] final(self)@.exit(i) == old(self)@.exit(i),
    {
        let r = self.game_administrators[game_number].start_ride();
        proof {
            lemma_same_costs_and_games(self@.games, old(self)@.games);
        }
        r
    }

    /// The end of a round of game `game_number`: everyone waiting at its exit gets off, and
    /// their tickets are handed back, in the order they queued, so their semaphores can be
    /// released.
    pub fn end_ride(&mut self, game_number: usize) -> (r: Vec<Ticket>)
        requires
            old(self).wf(),
            game_number < old(self)@.games.len(),
        ensures
            final(self).wf(),
            final(self)@.same_games(old(self)@),
            final(self)@.tills == old(self)@.tills,
            r@ == old(self)@.exit(game_number as int),
            final(self)@.exit(game_number as int) == Seq::<Ticket>::empty(),
            forall|i: int|
                0 <= i < old(self)@.games.len() && i != game_number ==> #[trigger] final(self)@.exit(i) == old(self)@.exit(i),
            forall|i: int|
                0 <= i < old(self)@.games.len() ==> #[trigger] final(self)@.entrance(i) == old(self)@.entrance(i),
    {
        let r = self.game_administrators[game_number].end_ride();
        proof {
            lemma_same_costs_and_games(self@.games, old(self)@.games);
        }
        r
    }

    /// Puts `till` in the till of every administrator that opening `opening` set up.
    fn share_till(&mut self, opening: usize, till: i64)
        requires
            old(self).opening_of@.len() == old(self).game_administrators@.len(),
        ensures
            final(self).cash == old(self).cash,
            final(self).tills == old(self).tills,
            final(self).is_open == old(self).is_open,
            final(self).park_config == old(self).park_config,
            final(self).opening_of == old(self).opening_of,
            final(self).park_entrance_semaphore == old(self).park_entrance_semaphore,
            final(self)@.games.len() == old(self)@.games.len(),
            forall|i: int|
                0 <= i < old(self)@.games.len() ==> (#[trigger] final(self)@.games[i]).cash == (if old(self)@.opening_of[i] == opening {
                    till
                } else {
                    old(self)@.games[i].cash
                }) && final(self)@.games[i].cost == old(self)@.games[i].cost
                    && final(self)@.games[i].game == old(self)@.games[i].game
                    && final(self)@.games[i].entrance_queue == old(self)@.games[i].entrance_queue
                    && final(self)@.games[i].exit_queue == old(self)@.games[i].exit_queue,
    {
        let mut j: usize = 0;
        while j < self.game_administrators.len()
            invariant
                j <= self.game_administrators@.len(),
                self.cash == old(self).cash,
                self.tills == old(self).tills,
                self.is_open == old(self).is_open,
                self.park_config == old(self).park_config,
                self.opening_of == old(self).opening_of,
                self.park_entrance_semaphore == old(self).park_entrance_semaphore,
                self.game_administrators@.len() == old(self).game_administrators@.len(),
                self.opening_of@.len() == self.game_administrators@.len(),
                forall|i: int|
                    0 <= i < self.game_administrators@.len() ==> (#[trigger] self.game_administrators@[i]).cost
                        == old(self).game_administrators@[i].cost
                        && self.game_administrators@[i].game == old(self).game_administrators@[i].game
                        && self.game_administrators@[i].entrance_queue
                        == old(self).game_administrators@[i].entrance_queue
                        && self.game_administrators@[i].exit_queue
                        == old(self).game_administrators@[i].exit_queue
                        && self.game_administrators@[i].cash == (if i < j && old(self).opening_of@[i]
                        == opening {
                        till
                    } else {
                        old(self).game_administrators@[i].cash
                    }),
            decreases self.game_administrators@.len() - j,
        {
            if self.opening_of[j] == opening {
                self.game_administrators[j].cash = till;
            }
            j = j + 1;
        }
    }
}

} // verus!
