//! The store: blenders, the queue, and the tick that moves orders from one to
//! the other.

use vstd::prelude::*;
use crate::blender::{Blender, BlenderStatus};
use crate::clock::Clock;
use crate::error::StoreError;
use crate::order::Order;
use crate::queue::Queue;

verus! {

/// A store: its blenders, in a fixed order, and the orders that wait. The
/// store acts only when it is ticked.
pub struct Store {
    pub blenders: Vec<Blender>,
    pub queue: Queue,
    pub clock: Clock,
}

/// What a store holds, to a proof: the blenders by index and the waiting
/// orders, oldest first.
pub struct StoreState {
    pub blenders: Seq<Blender>,
    pub queue: Seq<Order>,
}

impl View for Store {
    type V = StoreState;

    open spec fn view(&self) -> StoreState {
        StoreState { blenders: self.blenders@, queue: self.queue@ }
    }
}

/// The blenders after a reclaim pass at the instant `now`: every blender that
/// is free then is cleaned, the taken ones are left alone.
pub open spec fn swept(blenders: Seq<Blender>, now: u64) -> Seq<Blender> {
    Seq::new(
        blenders.len(),
        |i: int|
            if blenders[i].busy_at(now as int) {
                blenders[i]
            } else {
                blenders[i].cleaned()
            },
    )
}

/// Whether `index` is the lowest index of a blender that is free at `now`.
pub open spec fn is_first_free(blenders: Seq<Blender>, now: u64, index: int) -> bool {
    &&& 0 <= index < blenders.len()
    &&& !blenders[index].busy_at(now as int)
    &&& forall|j: int| 0 <= j < index ==> (#[trigger] blenders[j]).busy_at(now as int)
}

/// The lowest index of a blender that is free at `now`, if there is one.
pub open spec fn first_free(blenders: Seq<Blender>, now: u64) -> Option<int> {
    if exists|i: int| is_first_free(blenders, now, i) {
        Some(choose|i: int| is_first_free(blenders, now, i))
    } else {
        None
    }
}

/// Whether every blender is taken at `now`.
pub open spec fn all_busy(blenders: Seq<Blender>, now: u64) -> bool {
    forall|j: int| 0 <= j < blenders.len() ==> (#[trigger] blenders[j]).busy_at(now as int)
}

/// What the dispatch pass makes of a store.
pub enum Decision {
    /// Nobody waits, or every blender is taken: nothing to do.
    Wait,
    /// The blender at this index starts on the oldest order.
    Start(int),
    /// The first free blender has speed zero and cannot start.
    Refuse,
}

/// What the dispatch pass decides at the instant `now`. Only the oldest order
/// and the first free blender are ever looked at.
pub open spec fn decision(store: StoreState, now: u64) -> Decision {
    if store.queue.len() == 0 {
        Decision::Wait
    } else {
        match first_free(store.blenders, now) {
            None => Decision::Wait,
            Some(index) => if store.blenders[index].speed == 0 {
                Decision::Refuse
            } else {
                Decision::Start(index)
            },
        }
    }
}

/// The dispatch pass at the instant `now`, as the state it leaves and what it
/// reports. A blender that starts is committed to the oldest order, which
/// leaves the queue. Where the pass waits or refuses, nothing changes, and a
/// refusal is reported as an error.
pub open spec fn dispatched(store: StoreState, now: u64) -> (StoreState, Result<(), StoreError>) {
    match decision(store, now) {
        Decision::Wait => (store, Ok(())),
        Decision::Refuse => (store, Err(StoreError::InvalidCapacity)),
        Decision::Start(index) => (
            StoreState {
                blenders: store.blenders.update(
                    index,
                    store.blenders[index].started(store.queue[0].ingredients@, now),
                ),
                queue: store.queue.drop_first(),
            },
            Ok(()),
        ),
    }
}

/// The store after the reclaim pass at `now`: the blenders swept, the queue
/// as it was.
pub open spec fn reclaimed(store: StoreState, now: u64) -> StoreState {
    StoreState { blenders: swept(store.blenders, now), queue: store.queue }
}

/// One tick at the instant `now`: the reclaim pass, then the dispatch pass.
pub open spec fn ticked(store: StoreState, now: u64) -> (StoreState, Result<(), StoreError>) {
    dispatched(reclaimed(store, now), now)
}

/// A blender starts only where it should: it is the first free one at that
/// instant, so that no running window is ever overwritten; it can blend; and
/// somebody waits.
pub proof fn lemma_start_goes_to_first_free(store: StoreState, now: u64, index: int)
    requires
        decision(store, now) == Decision::Start(index),
    ensures
        store.queue.len() > 0,
        is_first_free(store.blenders, now, index),
        store.blenders[index].speed != 0,
{
}

/// No two indices are the first free one.
pub proof fn lemma_first_free_is_unique(blenders: Seq<Blender>, now: u64, index: int)
    requires
        is_first_free(blenders, now, index),
    ensures
        first_free(blenders, now) == Some(index),
{
    let chosen = choose|i: int| is_first_free(blenders, now, i);
    assert(is_first_free(blenders, now, chosen));
    if chosen < index {
        assert(blenders[chosen].busy_at(now as int));
    } else if index < chosen {
        assert(blenders[index].busy_at(now as int));
    }
}

/// Where every blender is taken there is no first free one.
pub proof fn lemma_all_busy_has_no_free(blenders: Seq<Blender>, now: u64)
    requires
        all_busy(blenders, now),
    ensures
        first_free(blenders, now) is None,
{
    assert forall|i: int| !is_first_free(blenders, now, i) by {
        if 0 <= i < blenders.len() {
            assert(blenders[i].busy_at(now as int));
        }
    }
}

impl Store {
    /// A store with the given blenders and nobody waiting.
    pub fn new(blenders: Vec<Blender>) -> (store: Store)
        ensures
            store@.blenders == blenders@,
            store@.queue == Seq::<Order>::empty(),
    {
        Store { blenders, queue: Queue::new(), clock: Clock::start() }
    }

    /// Puts `order` at the end of the queue.
    pub fn submit(&mut self, order: Order)
        ensures
            final(self)@.blenders == old(self)@.blenders,
            final(self)@.queue == old(self)@.queue.push(order),
    {
        self.queue.add(order);
    }

    /// How many orders wait.
    pub fn queue_len(&self) -> (count: usize)
        ensures
            count == self@.queue.len(),
    {
        self.queue.size()
    }

    /// What the blender at `index` is doing at the instant `now`; nothing for
    /// an index past the last blender.
    pub fn unit_status_at(&self, index: usize, now: u64) -> (status: Option<BlenderStatus>)
        ensures
            index >= self@.blenders.len() ==> status is None,
            index < self@.blenders.len() ==> status == Some(
                self@.blenders[index as int].status_at(now as int),
            ),
    {
        if index < self.blenders.len() {
            Some(self.blenders[index].status(now))
        } else {
            None
        }
    }

    /// What the blender at `index` is doing by the store's clock. Which
    /// instant the clock gives is not known beforehand; whatever it is, the
    /// answer is the one `unit_status_at` gives for it.
    pub fn unit_status(&self, index: usize) -> (status: Option<BlenderStatus>)
        ensures
            index >= self@.blenders.len() ==> status is None,
            index < self@.blenders.len() ==> exists|now: u64|
                status == Some(#[trigger] self@.blenders[index as int].status_at(now as int)),
    {
        let now: u64 = self.clock.seconds();
        self.unit_status_at(index, now)
    }

    /// The lowest index of a blender that is free at the instant `now`, if
    /// any is.
    pub fn get_available_blender(&self, now: u64) -> (free_index: Option<usize>)
        ensures
            match free_index {
                Some(index) => is_first_free(self@.blenders, now, index as int) && first_free(
                    self@.blenders,
                    now,
                ) == Some(index as int),
                None => all_busy(self@.blenders, now) && first_free(self@.blenders, now) is None,
            },
    {
        let mut i: usize = 0;
        while i < self.blenders.len()
            invariant
                i <= self.blenders@.len(),
                forall|j: int| 0 <= j < i ==> (#[trigger] self.blenders@[j]).busy_at(now as int),
            decreases self.blenders@.len() - i,
        {
            if !self.blenders[i].is_active(now) {
                proof {
                    lemma_first_free_is_unique(self@.blenders, now, i as int);
                }
                return Some(i);
            }
            i = i + 1;
        }
        proof {
            lemma_all_busy_has_no_free(self@.blenders, now);
        }
        None
    }

    /// The reclaim pass at the instant `now`: every blender that is free then
    /// drops its window. The queue is not touched.
    pub fn clean_blenders(&mut self, now: u64)
        ensures
            final(self)@ == reclaimed(old(self)@, now),
    {
        let mut i: usize = 0;
        while i < self.blenders.len()
            invariant
                i <= self.blenders@.len(),
                self.blenders@.len() == old(self).blenders@.len(),
                self.queue == old(self).queue,
                forall|j: int|
                    0 <= j < i ==> self.blenders@[j] == swept(old(self).blenders@, now)[j],
                forall|j: int|
                    i <= j < self.blenders@.len() ==> self.blenders@[j] == old(self).blenders@[j],
            decreases self.blenders@.len() - i,
        {
            let mut blender: Blender = self.blenders[i];
            if !blender.is_active(now) {
                blender.clean();
                self.blenders[i] = blender;
            }
            i = i + 1;
        }
        assert(self.blenders@ =~= swept(old(self).blenders@, now));
    }

    /// The dispatch pass at the instant `now`: at most one order, the oldest,
    /// goes to the first free blender. The order is read before it is taken
    /// out, so that it stays queued where the blender cannot start.
    pub fn process_orders(&mut self, now: u64) -> (outcome: Result<(), StoreError>)
        ensures
            (final(self)@, outcome) == dispatched(old(self)@, now),
    {
        let oldest: &Order = match self.queue.peek() {
            Some(order) => order,
            None => { return Ok(()); },
        };
        let index: usize = match self.get_available_blender(now) {
            Some(index) => index,
            None => { return Ok(()); },
        };
        let mut blender: Blender = self.blenders[index];
        match blender.start_blend(&oldest.ingredients, now) {
            Ok(_) => {},
            Err(error) => { return Err(error); },
        }
        self.blenders[index] = blender;
        let removed = self.queue.remove();
        assert(final(self)@ =~= dispatched(old(self)@, now).0);
        removed
    }

    /// One tick at the instant `now`: the reclaim pass, then the dispatch pass.
    /// The instants handed to a store should all be readings of one clock.
    pub fn tick_at(&mut self, now: u64) -> (outcome: Result<(), StoreError>)
        ensures
            (final(self)@, outcome) == ticked(old(self)@, now),
    {
        self.clean_blenders(now);
        self.process_orders(now)
    }

    /// One tick at the instant the store's clock gives. Which instant that is
    /// is not known beforehand; whatever it is, the tick is the one that
    /// `tick_at` makes at it.
    pub fn tick(&mut self) -> (outcome: Result<(), StoreError>)
        ensures
            exists|now: u64| (final(self)@, outcome) == #[trigger] ticked(old(self)@, now),
    {
        let now: u64 = self.clock.seconds();
        self.tick_at(now)
    }
}

} // verus!
