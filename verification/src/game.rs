//! A game of the park: each round it lets the next customer in and, once the ride is over,
//! lets everyone waiting at its exit out.

use vstd::prelude::*;
use queues::Queue;
use crate::ticket::{dequeue, queue_size, queued, Ticket};

verus! {

/// A game: its number in the park and how long a ride lasts, in seconds.
#[derive(Debug, Clone, Copy, PartialEq, Eq, Structural)]
pub struct Game {
    pub id: usize,
    pub duration_secs: u64,
}

/// One round's boarding from an entrance queue holding `waiting`: the queue left behind and
/// the ticket let on, the front one, where there is one.
pub open spec fn ride(waiting: Seq<Ticket>) -> (Seq<Ticket>, Option<Ticket>) {
    if waiting.len() == 0 {
        (waiting, None)
    } else {
        (waiting.drop_first(), Some(waiting[0]))
    }
}

/// What happens at a game's entrance: a customer joins the back of the queue, or a round
/// starts.
pub enum EntranceEvent {
    Arrival(Ticket),
    Round,
}

/// The entrance queue, and the tickets let on in order, after the events, starting from a
/// queue holding `waiting`. An arrival pushes its ticket at the back, as
/// `Park::add_to_entrance_queue` does; a round is a `ride`, as `Park::start_ride` does.
pub open spec fn run_entrance(waiting: Seq<Ticket>, events: Seq<EntranceEvent>) -> (
    Seq<Ticket>,
    Seq<Ticket>,
)
    decreases events.len(),
{
    if events.len() == 0 {
        (waiting, Seq::empty())
    } else {
        let (queue, boarded) = run_entrance(waiting, events.drop_last());
        match events.last() {
            EntranceEvent::Arrival(t) => (queue.push(t), boarded),
            EntranceEvent::Round => {
                let (rest, on) = ride(queue);
                (
                    rest,
                    match on {
                        Some(t) => boarded.push(t),
                        None => boarded,
                    },
                )
            },
        }
    }
}

/// The tickets of the arrivals among the events, in order.
pub open spec fn arrivals(events: Seq<EntranceEvent>) -> Seq<Ticket>
    decreases events.len(),
{
    if events.len() == 0 {
        Seq::empty()
    } else {
        match events.last() {
            EntranceEvent::Arrival(t) => arrivals(events.drop_last()).push(t),
            EntranceEvent::Round => arrivals(events.drop_last()),
        }
    }
}

/// How many rounds there are among the events.
pub open spec fn rounds(events: Seq<EntranceEvent>) -> nat
    decreases events.len(),
{
    if events.len() == 0 {
        0
    } else {
        match events.last() {
            EntranceEvent::Arrival(_) => rounds(events.drop_last()),
            EntranceEvent::Round => rounds(events.drop_last()) + 1,
        }
    }
}

/// First come, first served, with customers still arriving: whatever arrivals and rounds
/// happen, the tickets let on, followed by those still waiting, are exactly the tickets that
/// were waiting followed by those that arrived, in order; so everyone boards in the order
/// they queued and no one twice. And no one starves: after `n` rounds at least `n` of those
/// waiting at the start (or all of them) have boarded, so the ticket at place `k` boards by
/// the `k + 1`-th round.
pub proof fn lemma_first_come_first_served(waiting: Seq<Ticket>, events: Seq<EntranceEvent>)
    ensures
        run_entrance(waiting, events).1 + run_entrance(waiting, events).0 == waiting + arrivals(
            events,
        ),
        run_entrance(waiting, events).1.len() >= (if rounds(events) <= waiting.len() {
            rounds(events) as int
        } else {
            waiting.len() as int
        }),
    decreases events.len(),
{
    if events.len() == 0 {
        assert(Seq::<Ticket>::empty() + waiting =~= waiting + Seq::<Ticket>::empty());
    } else {
        let before = events.drop_last();
        lemma_first_come_first_served(waiting, before);
        let (queue, boarded) = run_entrance(waiting, before);
        match events.last() {
            EntranceEvent::Arrival(t) => {
                assert(boarded + queue.push(t) =~= (boarded + queue).push(t));
                assert((waiting + arrivals(before)).push(t) =~= waiting + arrivals(before).push(t));
            },
            EntranceEvent::Round => {
                if queue.len() > 0 {
                    assert(boarded.push(queue[0]) + queue.drop_first() =~= boarded + queue);
                } else {
                    assert(boarded + queue =~= boarded);
                }
            },
        }
    }
}

impl Game {
    /// The start of a round: the customer who has waited longest at the entrance gets on;
    /// no one where no one waits.
    pub fn board(&self, entrance_queue: &mut Queue<Ticket>) -> (r: Option<Ticket>)
        ensures
            queued(*old(entrance_queue)).len() == 0 ==> r is None && queued(*final(entrance_queue))
                == queued(*old(entrance_queue)),
            queued(*old(entrance_queue)).len() > 0 ==> r == Some(queued(*old(entrance_queue))[0])
                && queued(*final(entrance_queue)) == queued(*old(entrance_queue)).drop_first(),
            (queued(*final(entrance_queue)), r) == ride(queued(*old(entrance_queue))),
    {
        if queue_size(entrance_queue) != 0 {
            dequeue(entrance_queue)
        } else {
            None
        }
    }

    /// The end of a round: everyone waiting at the exit gets off, in the order they queued.
    pub fn unload(&self, exit_queue: &mut Queue<Ticket>) -> (r: Vec<Ticket>)
        ensures
            r@ == queued(*old(exit_queue)),
            queued(*final(exit_queue)) == Seq::<Ticket>::empty(),
    {
        let mut released: Vec<Ticket> = Vec::new();
        while queue_size(exit_queue) != 0
            invariant
                released@ + queued(*exit_queue) == queued(*old(exit_queue)),
            decreases queued(*exit_queue).len(),
        {
            let ghost before = queued(*exit_queue);
            match dequeue(exit_queue) {
                Some(ticket) => {
                    released.push(ticket);
                    assert(released@ + queued(*exit_queue) =~= queued(*old(exit_queue))) by {
                        assert(before =~= seq![ticket] + before.drop_first());
                    }
                },
                None => {},
            }
        }
        assert(queued(*exit_queue) =~= Seq::<Ticket>::empty());
        assert(released@ =~= queued(*old(exit_queue)));
        released
    }
}

} // verus!
