//! What the park's accounts keep through a whole day: money only moves from customers to the
//! till, and a customer only takes games they can pay for.

use vstd::prelude::*;
use crate::park::ParkView;

verus! {

/// The till and the customer's cash after the customer pays `cost` into the till, as
/// boarding a game does.
pub open spec fn after_boarding(till: int, cash: int, cost: int) -> (int, int) {
    (till + cost, cash - cost)
}

/// The sum of some amounts.
pub open spec fn total(amounts: Seq<int>) -> int
    decreases amounts.len(),
{
    if amounts.len() == 0 {
        0
    } else {
        total(amounts.drop_last()) + amounts.last()
    }
}

/// The sum of the amounts of some payments, each a customer's number and an amount.
pub open spec fn paid(payments: Seq<(int, int)>) -> int
    decreases payments.len(),
{
    if payments.len() == 0 {
        0
    } else {
        paid(payments.drop_last()) + payments.last().1
    }
}

/// The till and every customer's cash after the payments, in order: each one moves its
/// amount from customer `payment.0`'s cash into the till, as boarding a game does.
pub open spec fn after_payments(till: int, wallets: Seq<int>, payments: Seq<(int, int)>) -> (
    int,
    Seq<int>,
)
    decreases payments.len(),
{
    if payments.len() == 0 {
        (till, wallets)
    } else {
        let (t, w) = after_payments(till, wallets, payments.drop_last());
        let (c, amount) = payments.last();
        let (till_after, cash_after) = after_boarding(t, w[c], amount);
        (till_after, w.update(c, cash_after))
    }
}

/// Taking `amount` from one of the amounts takes it from their sum.
proof fn lemma_total_update(amounts: Seq<int>, c: int, amount: int)
    requires
        0 <= c < amounts.len(),
    ensures
        total(amounts.update(c, amounts[c] - amount)) == total(amounts) - amount,
    decreases amounts.len(),
{
    let updated = amounts.update(c, amounts[c] - amount);
    if c == amounts.len() - 1 {
        assert(updated.drop_last() =~= amounts.drop_last());
    } else {
        lemma_total_update(amounts.drop_last(), c, amount);
        assert(updated.drop_last() =~= amounts.drop_last().update(c, amounts[c] - amount));
    }
}

/// Money is conserved: whatever games the customers board, in whatever order, the till gains
/// exactly what they pay and their cash together loses exactly that, so the till and the
/// customers' cash together stay what they were. In particular a park that opens with no cash
/// ends a day in which its customers spent all they brought with exactly that amount.
pub proof fn lemma_money_is_conserved(till: int, wallets: Seq<int>, payments: Seq<(int, int)>)
    requires
        forall|k: int| 0 <= k < payments.len() ==> 0 <= (#[trigger] payments[k]).0 < wallets.len(),
    ensures
        after_payments(till, wallets, payments).0 == till + paid(payments),
        total(after_payments(till, wallets, payments).1) == total(wallets) - paid(payments),
        after_payments(till, wallets, payments).1.len() == wallets.len(),
        after_payments(till, wallets, payments).0 + total(after_payments(till, wallets, payments).1)
            == till + total(wallets),
    decreases payments.len(),
{
    if payments.len() > 0 {
        let rest = payments.drop_last();
        assert forall|k: int| 0 <= k < rest.len() implies 0 <= (#[trigger] rest[k]).0
            < wallets.len() by {
            assert(rest[k] == payments[k]);
        }
        lemma_money_is_conserved(till, wallets, rest);
        let (t, w) = after_payments(till, wallets, rest);
        let (c, amount) = payments.last();
        assert(payments.last() == payments[payments.len() - 1]);
        lemma_total_update(w, c, amount);
    }
}

/// A customer never spends more than they have: while they stay in the park (cash left and
/// some game they can pay for), the game they take, whichever was drawn, leaves them with no
/// less than nothing; and where every configured game costs something, it leaves them with
/// less than before, so their visit comes to an end.
pub proof fn lemma_visit_never_overdraws(park: ParkView, cash: i64, drawn: int)
    requires
        park.inv(),
        cash > 0,
        park.affords_any(cash),
        0 <= drawn < park.config.games_cost.len(),
    ensures
        0 <= park.choice(cash, drawn) < park.games.len(),
        cash - park.games[park.choice(cash, drawn)].cost >= 0,
        (forall|j: int| 0 <= j < park.config.games_cost.len() ==> #[trigger] park.config.games_cost[j]
            > 0) ==> cash - park.games[park.choice(cash, drawn)].cost < cash,
{
    park.lemma_first_opening(cash);
    let g = park.choice(cash, drawn);
    if park.games[drawn].cost > cash {
        park.lemma_first_affordable(cash);
        park.lemma_every_game_configured(g);
    }
}

} // verus!
