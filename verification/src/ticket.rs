//! Tickets that customers leave in a game's queues: who is waiting, and the semaphore
//! that wakes them. The queues are `queues::Queue`s and the semaphores `std_semaphore`'s.

use vstd::prelude::*;
use std::sync::Arc;
use queues::{IsQueue, Queue};
use std_semaphore::Semaphore;

verus! {

#[verifier::external_type_specification]
#[verifier::external_body]
pub struct ExSemaphore(Semaphore);

#[verifier::external_type_specification]
#[verifier::external_body]
#[verifier::reject_recursive_types(T)]
pub struct ExQueue<T: Clone>(Queue<T>);

/// The number of permits that a semaphore was made with.
pub uninterp spec fn initial_permits(semaphore: Semaphore) -> int;

/// Trusted: `std_semaphore::Semaphore::new`, which stores `count` as the semaphore's count.
/// Claimed: the semaphore was made with `count` permits. What the count is later, after
/// acquires and releases on other threads, is not claimed.
pub assume_specification[ Semaphore::new ](count: isize) -> (r: Semaphore)
    ensures
        initial_permits(r) == count,
;

/// Trusted: `Arc::clone` on a semaphore. Claimed: the clone points to the same semaphore,
/// as the documentation of `Arc::clone` says.
#[verifier::external_body]
pub(crate) fn share_semaphore(semaphore: &Arc<Semaphore>) -> (r: Arc<Semaphore>)
    ensures
        r == *semaphore,
{
    Arc::clone(semaphore)
}

/// A customer waiting in one of a game's queues, and the semaphore to release when
/// the game lets them through.
pub struct Ticket {
    pub customer: i64,
    pub signal: Arc<Semaphore>,
}

impl Clone for Ticket {
    /// The same customer and the same semaphore.
    fn clone(&self) -> (r: Ticket)
        ensures
            r == *self,
    {
        Ticket { customer: self.customer, signal: share_semaphore(&self.signal) }
    }
}

/// The tickets that a queue holds, oldest first.
pub uninterp spec fn queued(queue: Queue<Ticket>) -> Seq<Ticket>;

/// Trusted: `queues::Queue::new`. Claimed: the queue is empty.
#[verifier::external_body]
pub(crate) fn empty_queue() -> (r: Queue<Ticket>)
    ensures
        queued(r) == Seq::<Ticket>::empty(),
{
    Queue::new()
}

/// Trusted: `queues::IsQueue::add` on a `Queue`, which pushes onto its vector and always
/// succeeds. Claimed: the ticket goes to the back.
#[verifier::external_body]
pub(crate) fn enqueue(queue: &mut Queue<Ticket>, ticket: Ticket)
    ensures
        queued(*final(queue)) == queued(*old(queue)).push(ticket),
{
    let _ = queue.add(ticket);
}

/// Trusted: `queues::IsQueue::remove` on a `Queue`, which takes the oldest element and fails
/// only on an empty queue. Claimed: `None` and no change on an empty queue; otherwise the
/// front ticket, which leaves the queue.
#[verifier::external_body]
pub(crate) fn dequeue(queue: &mut Queue<Ticket>) -> (r: Option<Ticket>)
    ensures
        queued(*old(queue)).len() == 0 ==> r is None && queued(*final(queue)) == queued(
            *old(queue),
        ),
        queued(*old(queue)).len() > 0 ==> r == Some(queued(*old(queue))[0]) && queued(
            *final(queue),
        ) == queued(*old(queue)).drop_first(),
{
    queue.remove().ok()
}

/// Trusted: `queues::IsQueue::size` on a `Queue`. Claimed: the number of tickets it holds.
#[verifier::external_body]
pub(crate) fn queue_size(queue: &Queue<Ticket>) -> (r: usize)
    ensures
        r == queued(*queue).len(),
{
    queue.size()
}

} // verus!
