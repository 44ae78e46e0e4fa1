//! What a store does over a whole run of submissions and ticks.

use vstd::prelude::*;
use crate::blender::{window_runs, Blender};
use crate::order::Order;
use crate::error::StoreError;
use crate::store::{
    all_busy, decision, first_free, is_first_free, lemma_all_busy_has_no_free,
    lemma_first_free_is_unique, lemma_start_goes_to_first_free, reclaimed, swept, ticked,
    Decision, StoreState,
};

verus! {

/// One thing that happens to a store.
pub enum Event {
    /// An order joins the queue.
    Submit(Order),
    /// The store is ticked at this instant.
    Tick(u64),
}

/// The store after one event.
pub open spec fn step(store: StoreState, event: Event) -> StoreState {
    match event {
        Event::Submit(order) => StoreState {
            blenders: store.blenders,
            queue: store.queue.push(order),
        },
        Event::Tick(now) => ticked(store, now).0,
    }
}

/// The orders that one event hands to a blender: the oldest one, where the
/// event is a tick whose dispatch pass starts a blender, and none otherwise.
pub open spec fn step_served(store: StoreState, event: Event) -> Seq<Order> {
    match event {
        Event::Submit(_) => Seq::empty(),
        Event::Tick(now) => match decision(reclaimed(store, now), now) {
            Decision::Start(_) => seq![store.queue[0]],
            _ => Seq::empty(),
        },
    }
}

/// The window that one event commits a blender to: where the event is a tick
/// whose dispatch pass starts a blender, the window that blender is given.
pub open spec fn step_window(store: StoreState, event: Event) -> Option<(u64, u128)> {
    match event {
        Event::Submit(_) => None,
        Event::Tick(now) => match decision(reclaimed(store, now), now) {
            Decision::Start(index) => store.blenders[index].started(
                store.queue[0].ingredients@,
                now,
            ).state,
            _ => None,
        },
    }
}

/// The store after a run of events.
pub open spec fn after(store: StoreState, events: Seq<Event>) -> StoreState
    decreases events.len(),
{
    if events.len() == 0 {
        store
    } else {
        step(after(store, events.drop_last()), events.last())
    }
}

/// The orders handed to blenders over a run of events, in the order in which
/// they were handed over.
pub open spec fn served(store: StoreState, events: Seq<Event>) -> Seq<Order>
    decreases events.len(),
{
    if events.len() == 0 {
        Seq::empty()
    } else {
        served(store, events.drop_last()) + step_served(
            after(store, events.drop_last()),
            events.last(),
        )
    }
}

/// The orders that joined the queue over a run of events, in the order in
/// which they came.
pub open spec fn arrived(events: Seq<Event>) -> Seq<Order>
    decreases events.len(),
{
    if events.len() == 0 {
        Seq::empty()
    } else {
        match events.last() {
            Event::Submit(order) => arrived(events.drop_last()).push(order),
            Event::Tick(_) => arrived(events.drop_last()),
        }
    }
}

/// How many of the orders handed over during a run of events are still in the
/// making at the instant `now`: the window their blender was given still runs.
pub open spec fn in_the_making(store: StoreState, events: Seq<Event>, now: u64) -> nat
    decreases events.len(),
{
    if events.len() == 0 {
        0
    } else {
        in_the_making(store, events.drop_last(), now) + match step_window(
            after(store, events.drop_last()),
            events.last(),
        ) {
            Some(window) => if window_runs(window, now as int) {
                1nat
            } else {
                0nat
            },
            None => 0nat,
        }
    }
}

/// How many of the orders handed over during a run of events are done at the
/// instant `now`: the window their blender was given has run out.
pub open spec fn finished(store: StoreState, events: Seq<Event>, now: u64) -> nat
    decreases events.len(),
{
    if events.len() == 0 {
        0
    } else {
        finished(store, events.drop_last(), now) + match step_window(
            after(store, events.drop_last()),
            events.last(),
        ) {
            Some(window) => if window_runs(window, now as int) {
                0nat
            } else {
                1nat
            },
            None => 0nat,
        }
    }
}

/// Whether no tick of the run is later than the instant `now`.
pub open spec fn ticked_by(events: Seq<Event>, now: u64) -> bool {
    forall|i: int|
        0 <= i < events.len() ==> match #[trigger] events[i] {
            Event::Tick(at) => at <= now,
            Event::Submit(_) => true,
        }
}

/// How many of the blenders are taken at the instant `now`.
pub open spec fn busy_count(blenders: Seq<Blender>, now: u64) -> nat
    decreases blenders.len(),
{
    if blenders.len() == 0 {
        0
    } else {
        busy_count(blenders.drop_last(), now) + if blenders.last().busy_at(now as int) {
            1nat
        } else {
            0nat
        }
    }
}

/// A run of ticks and nothing else, at the given instants.
pub open spec fn ticks_at(times: Seq<u64>) -> Seq<Event> {
    Seq::new(times.len(), |i: int| Event::Tick(times[i]))
}

/// How many of the blenders are free at the instant `now`.
pub open spec fn free_count(blenders: Seq<Blender>, now: u64) -> nat
    decreases blenders.len(),
{
    if blenders.len() == 0 {
        0
    } else {
        free_count(blenders.drop_last(), now) + if blenders.last().busy_at(now as int) {
            0nat
        } else {
            1nat
        }
    }
}

/// A tick hands over the oldest order or none: never two, never another one.
/// Whatever it does, the order handed over and the orders still waiting make
/// up the queue as it was.
pub proof fn lemma_tick_takes_oldest_or_none(store: StoreState, now: u64)
    ensures
        step_served(store, Event::Tick(now)).len() <= 1,
        step_served(store, Event::Tick(now)) + ticked(store, now).0.queue == store.queue,
{
    let taken = step_served(store, Event::Tick(now));
    assert(taken + ticked(store, now).0.queue =~= store.queue);
}

/// A tick fails only where somebody waits and the first blender that
/// is free once the reclaim pass is through has speed zero. The error then
/// names the speed, every order still waits in its place, and the blenders
/// are as the reclaim pass left them.
pub proof fn lemma_failed_tick_keeps_every_order(store: StoreState, now: u64)
    ensures
        ticked(store, now).1 is Err <==> store.queue.len() > 0 && match first_free(
            swept(store.blenders, now),
            now,
        ) {
            Some(index) => store.blenders[index].speed == 0,
            None => false,
        },
        ticked(store, now).1 is Err ==> ticked(store, now) == (
            reclaimed(store, now),
            Err::<(), StoreError>(StoreError::InvalidCapacity),
        ),
{
    let cleared = swept(store.blenders, now);
    if store.queue.len() > 0 {
        match first_free(cleared, now) {
            Some(index) => {
                assert(is_first_free(cleared, now, index));
                assert(cleared[index].speed == store.blenders[index].speed);
            },
            None => {},
        }
    }
}

/// While every blender is taken, a tick changes nothing: the orders wait.
pub proof fn lemma_busy_store_waits(store: StoreState, now: u64)
    requires
        all_busy(store.blenders, now),
    ensures
        ticked(store, now) == (store, Ok::<(), StoreError>(())),
{
    assert(swept(store.blenders, now) =~= store.blenders);
    lemma_all_busy_has_no_free(store.blenders, now);
}

/// A store in which nobody waits and no blender holds a window is at rest: a
/// tick at any instant leaves it as it is.
pub proof fn lemma_store_at_rest_stays(store: StoreState, now: u64)
    requires
        store.queue.len() == 0,
        forall|i: int| 0 <= i < store.blenders.len() ==> !(#[trigger] store.blenders[i]).has_window(),
    ensures
        ticked(store, now) == (store, Ok::<(), StoreError>(())),
{
    assert(swept(store.blenders, now) =~= store.blenders);
}

/// No free blender keeps a window that has run out: after a tick at `now`,
/// each blender is either taken at `now` or holds no window.
pub proof fn lemma_tick_leaves_no_stale_window(store: StoreState, now: u64, index: int)
    requires
        0 <= index < store.blenders.len(),
    ensures
        ticked(store, now).0.blenders.len() == store.blenders.len(),
        ticked(store, now).0.blenders[index].busy_at(now as int) || !ticked(
            store,
            now,
        ).0.blenders[index].has_window(),
{
    let cleared = swept(store.blenders, now);
    assert(cleared[index].busy_at(now as int) || !cleared[index].has_window());
    match decision(reclaimed(store, now), now) {
        Decision::Start(first) => {
            assert(is_first_free(cleared, now, first));
        },
        _ => {},
    }
}

/// Orders are handed to blenders in the order in which they came, and none is
/// lost: over any run of events, the orders handed over, followed by those
/// still waiting, are the orders that waited at first followed by those that
/// joined, one for one and in the same order.
pub proof fn lemma_orders_leave_in_arrival_order(store: StoreState, events: Seq<Event>)
    ensures
        served(store, events) + after(store, events).queue == store.queue + arrived(events),
        served(store, events).len() + after(store, events).queue.len() == store.queue.len()
            + arrived(events).len(),
    decreases events.len(),
{
    if events.len() == 0 {
        assert(served(store, events) + after(store, events).queue =~= store.queue + arrived(
            events,
        ));
    } else {
        let earlier = events.drop_last();
        lemma_orders_leave_in_arrival_order(store, earlier);
        let before = after(store, earlier);
        match events.last() {
            Event::Submit(order) => {
                assert(served(store, events) + after(store, events).queue =~= (served(
                    store,
                    earlier,
                ) + before.queue).push(order));
                assert(store.queue + arrived(events) =~= (store.queue + arrived(earlier)).push(
                    order,
                ));
            },
            Event::Tick(now) => {
                lemma_tick_takes_oldest_or_none(before, now);
                let taken = step_served(before, events.last());
                assert(served(store, events) + after(store, events).queue =~= served(
                    store,
                    earlier,
                ) + (taken + ticked(before, now).0.queue));
            },
        }
        assert(served(store, events).len() + after(store, events).queue.len() == (served(
            store,
            events,
        ) + after(store, events).queue).len());
    }
}

/// How many of the blenders have no window recorded.
spec fn idle_count(blenders: Seq<Blender>) -> nat
    decreases blenders.len(),
{
    if blenders.len() == 0 {
        0
    } else {
        idle_count(blenders.drop_last()) + if blenders.last().has_window() {
            0nat
        } else {
            1nat
        }
    }
}

/// A blender without a window is free at every instant.
proof fn lemma_idle_are_free(blenders: Seq<Blender>, now: u64)
    ensures
        free_count(blenders, now) >= idle_count(blenders),
    decreases blenders.len(),
{
    if blenders.len() > 0 {
        lemma_idle_are_free(blenders.drop_last(), now);
    }
}

/// The reclaim pass leaves every blender that was free without a window.
proof fn lemma_swept_free_are_idle(blenders: Seq<Blender>, now: u64)
    ensures
        idle_count(swept(blenders, now)) >= free_count(blenders, now),
    decreases blenders.len(),
{
    if blenders.len() > 0 {
        lemma_swept_free_are_idle(blenders.drop_last(), now);
        assert(swept(blenders, now).drop_last() =~= swept(blenders.drop_last(), now));
    }
}

/// Committing one blender takes at most one from those without a window.
proof fn lemma_one_start_takes_one(blenders: Seq<Blender>, index: int, blender: Blender)
    requires
        0 <= index < blenders.len(),
    ensures
        idle_count(blenders.update(index, blender)) + 1 >= idle_count(blenders),
    decreases blenders.len(),
{
    let changed = blenders.update(index, blender);
    if index == blenders.len() - 1 {
        assert(changed.drop_last() =~= blenders.drop_last());
    } else {
        lemma_one_start_takes_one(blenders.drop_last(), index, blender);
        assert(changed.drop_last() =~= blenders.drop_last().update(index, blender));
    }
}

/// Where the count of free blenders is not zero, one of them is free.
proof fn lemma_counted_free_exists(blenders: Seq<Blender>, now: u64) -> (index: int)
    requires
        free_count(blenders, now) > 0,
    ensures
        0 <= index < blenders.len(),
        !blenders[index].busy_at(now as int),
    decreases blenders.len(),
{
    if blenders.last().busy_at(now as int) {
        lemma_counted_free_exists(blenders.drop_last(), now)
    } else {
        blenders.len() - 1
    }
}

/// Where some blender is free, one of the free ones comes first.
proof fn lemma_first_free_exists(blenders: Seq<Blender>, now: u64, index: int) -> (first: int)
    requires
        0 <= index < blenders.len(),
        !blenders[index].busy_at(now as int),
    ensures
        is_first_free(blenders, now, first),
        first_free(blenders, now) == Some(first),
    decreases index,
{
    if forall|j: int| 0 <= j < index ==> (#[trigger] blenders[j]).busy_at(now as int) {
        lemma_first_free_is_unique(blenders, now, index);
        index
    } else {
        let lower = choose|j: int| 0 <= j < index && !(#[trigger] blenders[j]).busy_at(now as int);
        lemma_first_free_exists(blenders, now, lower)
    }
}

/// Whether every blender has a speed other than zero.
pub open spec fn all_can_blend(blenders: Seq<Blender>) -> bool {
    forall|i: int| 0 <= i < blenders.len() ==> (#[trigger] blenders[i]).speed != 0
}

/// The run of `lemma_enough_blenders_serve_every_tick`, with what its
/// induction carries along: the blenders keep their speeds, and of those that
/// were free at first, all but one for each tick are left without a window.
proof fn lemma_every_tick_serves(store: StoreState, times: Seq<u64>)
    requires
        all_can_blend(store.blenders),
        times.len() <= store.queue.len(),
        times.len() > 0 ==> times.len() <= free_count(store.blenders, times[0]),
    ensures
        served(store, ticks_at(times)) == store.queue.take(times.len() as int),
        after(store, ticks_at(times)).queue == store.queue.skip(times.len() as int),
        all_can_blend(after(store, ticks_at(times)).blenders),
        times.len() > 0 ==> idle_count(after(store, ticks_at(times)).blenders) + times.len()
            >= free_count(store.blenders, times[0]),
    decreases times.len(),
{
    let events = ticks_at(times);
    if times.len() == 0 {
        assert(served(store, events) =~= store.queue.take(0));
        assert(after(store, events).queue =~= store.queue.skip(0));
    } else {
        let earlier = times.drop_last();
        let now = times.last();
        assert(events.drop_last() =~= ticks_at(earlier));
        assert(events.last() == Event::Tick(now));
        lemma_every_tick_serves(store, earlier);
        let before = after(store, ticks_at(earlier));
        if earlier.len() > 0 {
            lemma_idle_are_free(before.blenders, now);
        }
        assert(free_count(before.blenders, now) >= 1);
        let cleared = swept(before.blenders, now);
        lemma_swept_free_are_idle(before.blenders, now);
        lemma_idle_are_free(cleared, now);
        let free = lemma_counted_free_exists(cleared, now);
        let first = lemma_first_free_exists(cleared, now, free);
        assert(before.blenders[first].speed != 0);
        assert(cleared[first].speed != 0);
        let ready = reclaimed(before, now);
        assert(before.queue.len() > 0);
        assert(decision(ready, now) == Decision::Start(first));
        let committed = cleared[first].started(before.queue[0].ingredients@, now);
        lemma_one_start_takes_one(cleared, first, committed);
        let result = after(store, events);
        assert(result == ticked(before, now).0);
        assert(result.blenders == cleared.update(first, committed));
        assert(result.queue == before.queue.drop_first());
        assert(result.queue =~= store.queue.skip(times.len() as int));
        assert(served(store, events) == served(store, ticks_at(earlier)) + seq![before.queue[0]]);
        assert(served(store, events) =~= store.queue.take(times.len() as int));
        assert forall|i: int| 0 <= i < result.blenders.len() implies (#[trigger] result.blenders[i]).speed
            != 0 by {
            assert(before.blenders[i].speed != 0);
            assert(cleared[i].speed == before.blenders[i].speed);
        }
    }
}

/// With enough free blenders nobody waits longer than their turn: where every
/// blender can blend and at least as many blenders are free at the first tick
/// as there are ticks, each tick hands over an order, so that the ticks serve
/// the oldest orders, as many as there are ticks, in the order in which they
/// stood in the queue, and the others still wait in theirs. The instants of
/// the ticks may be any.
pub proof fn lemma_enough_blenders_serve_every_tick(store: StoreState, times: Seq<u64>)
    requires
        all_can_blend(store.blenders),
        times.len() <= store.queue.len(),
        times.len() > 0 ==> times.len() <= free_count(store.blenders, times[0]),
    ensures
        served(store, ticks_at(times)) == store.queue.take(times.len() as int),
        after(store, ticks_at(times)).queue == store.queue.skip(times.len() as int),
        times.len() == store.queue.len() ==> served(store, ticks_at(times)) == store.queue
            && after(store, ticks_at(times)).queue.len() == 0,
{
    lemma_every_tick_serves(store, times);
    if times.len() == store.queue.len() {
        assert(store.queue.take(times.len() as int) =~= store.queue);
    }
}

/// Two rows of blenders that are taken at the same places hold equally many
/// taken ones.
proof fn lemma_busy_count_by_place(first: Seq<Blender>, second: Seq<Blender>, now: u64)
    requires
        first.len() == second.len(),
        forall|i: int|
            0 <= i < first.len() ==> first[i].busy_at(now as int) == second[i].busy_at(now as int),
    ensures
        busy_count(first, now) == busy_count(second, now),
    decreases first.len(),
{
    if first.len() > 0 {
        lemma_busy_count_by_place(first.drop_last(), second.drop_last(), now);
    }
}

/// Putting another blender in one place changes the count of taken blenders
/// by what the two differ in.
proof fn lemma_busy_count_update(blenders: Seq<Blender>, index: int, blender: Blender, now: u64)
    requires
        0 <= index < blenders.len(),
    ensures
        busy_count(blenders.update(index, blender), now) + if blenders[index].busy_at(now as int) {
            1nat
        } else {
            0nat
        } == busy_count(blenders, now) + if blender.busy_at(now as int) {
            1nat
        } else {
            0nat
        },
    decreases blenders.len(),
{
    let changed = blenders.update(index, blender);
    if index == blenders.len() - 1 {
        assert(changed.drop_last() =~= blenders.drop_last());
    } else {
        lemma_busy_count_update(blenders.drop_last(), index, blender, now);
        assert(changed.drop_last() =~= blenders.drop_last().update(index, blender));
    }
}

/// Every order that was handed over is either in the making or done.
proof fn lemma_served_are_in_the_making_or_done(store: StoreState, events: Seq<Event>, now: u64)
    ensures
        in_the_making(store, events, now) + finished(store, events, now) == served(
            store,
            events,
        ).len(),
    decreases events.len(),
{
    if events.len() > 0 {
        lemma_served_are_in_the_making_or_done(store, events.drop_last(), now);
    }
}

/// No order vanishes: at any instant, the orders that wait, those in the
/// making and those that are done are as many as the orders that waited at
/// first and those that joined since.
pub proof fn lemma_no_order_vanishes(store: StoreState, events: Seq<Event>, now: u64)
    ensures
        after(store, events).queue.len() + in_the_making(store, events, now) + finished(
            store,
            events,
            now,
        ) == store.queue.len() + arrived(events).len(),
{
    lemma_orders_leave_in_arrival_order(store, events);
    lemma_served_are_in_the_making_or_done(store, events, now);
}

/// Each order in the making has a blender to itself: at an instant that no
/// tick of the run is later than, the blenders that are taken are those that
/// were taken from the outset and still are, and one more for each order in
/// the making.
pub proof fn lemma_orders_in_the_making_hold_a_blender_each(
    store: StoreState,
    events: Seq<Event>,
    now: u64,
)
    requires
        ticked_by(events, now),
    ensures
        after(store, events).blenders.len() == store.blenders.len(),
        busy_count(after(store, events).blenders, now) == busy_count(store.blenders, now)
            + in_the_making(store, events, now),
    decreases events.len(),
{
    if events.len() > 0 {
        let earlier = events.drop_last();
        assert forall|i: int| 0 <= i < earlier.len() implies match #[trigger] earlier[i] {
            Event::Tick(at) => at <= now,
            Event::Submit(_) => true,
        } by {
            assert(earlier[i] == events[i]);
        }
        lemma_orders_in_the_making_hold_a_blender_each(store, earlier, now);
        let before = after(store, earlier);
        match events.last() {
            Event::Submit(_) => {},
            Event::Tick(at) => {
                assert(events[events.len() - 1] == Event::Tick(at));
                assert(at <= now);
                let cleared = swept(before.blenders, at);
                lemma_busy_count_by_place(before.blenders, cleared, now);
                match decision(reclaimed(before, at), at) {
                    Decision::Start(index) => {
                        lemma_start_goes_to_first_free(reclaimed(before, at), at, index);
                        let committed = cleared[index].started(before.queue[0].ingredients@, at);
                        lemma_busy_count_update(cleared, index, committed, now);
                        assert(!cleared[index].busy_at(now as int));
                        assert(committed.state == before.blenders[index].started(
                            before.queue[0].ingredients@,
                            at,
                        ).state);
                    },
                    _ => {},
                }
            },
        }
    }
}

} // verus!
