//! The line of waiting orders.

use vstd::prelude::*;
use crate::error::StoreError;
use crate::order::Order;

verus! {

/// Orders that wait, oldest first.
#[derive(Clone, Debug)]
pub struct Queue {
    orders: Vec<Order>,
}

impl View for Queue {
    type V = Seq<Order>;

    /// The waiting orders, oldest at index 0.
    closed spec fn view(&self) -> Seq<Order> {
        self.orders@
    }
}

impl Queue {
    /// A queue in which nobody waits.
    pub fn new() -> (queue: Queue)
        ensures
            queue@ == Seq::<Order>::empty(),
    {
        Queue { orders: Vec::new() }
    }

    /// How many orders wait.
    pub fn size(&self) -> (count: usize)
        ensures
            count == self@.len(),
    {
        self.orders.len()
    }

    /// Puts `order` at the end of the line.
    pub fn add(&mut self, order: Order)
        ensures
            final(self)@ == old(self)@.push(order),
    {
        self.orders.push(order);
    }

    /// The oldest order, which stays in the line.
    pub fn peek(&self) -> (oldest: Option<&Order>)
        ensures
            self@.len() == 0 ==> oldest is None,
            self@.len() > 0 ==> oldest == Some(&self@[0]),
    {
        if self.orders.len() == 0 {
            None
        } else {
            Some(&self.orders[0])
        }
    }

    /// Takes the oldest order out of the line; the others keep their places
    /// behind one another. On an empty queue nothing changes and the error says so.
    pub fn remove(&mut self) -> (outcome: Result<(), StoreError>)
        ensures
            old(self)@.len() == 0 ==> outcome == Err::<(), StoreError>(StoreError::EmptyQueue)
                && final(self)@ == old(self)@,
            old(self)@.len() > 0 ==> outcome == Ok::<(), StoreError>(())
                && final(self)@ == old(self)@.drop_first(),
    {
        if self.orders.len() == 0 {
            Err(StoreError::EmptyQueue)
        } else {
            self.orders.remove(0);
            Ok(())
        }
    }
}

} // verus!
