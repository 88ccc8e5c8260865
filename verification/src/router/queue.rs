//! The bounded priority queue of pending requests.
//!
//! Items leave the queue by priority, highest first, and items of equal
//! priority in the order they arrived.

use vstd::prelude::*;

use super::request::{priority_rank, Priority};
use crate::utils::error::{CoreError, ErrorView};
use crate::utils::text::{decimal, decimal_string};

verus! {

/// The position of the item that leaves the queue next: the first of the
/// items of highest priority.
pub open spec fn next_out<T>(s: Seq<(Priority, T)>, i: int) -> bool {
    &&& 0 <= i < s.len()
    &&& forall|j: int| 0 <= j < s.len() ==> priority_rank(#[trigger] s[j].0) <= priority_rank(s[i].0)
    &&& forall|j: int| 0 <= j < i ==> priority_rank(#[trigger] s[j].0) < priority_rank(s[i].0)
}

/// The message of a full queue.
pub open spec fn full_message(max_size: usize) -> Seq<char> {
    "Request queue is full (max_size: "@ + decimal(max_size as nat) + ")"@
}

/// A bounded queue of items, each with a priority.
pub struct RequestQueue<T> {
    entries: Vec<(Priority, T)>,
    max_size: usize,
}

/// The state of a queue.
#[derive(Debug, Clone, Copy)]
pub struct QueueStats {
    /// Items waiting.
    pub current_size: usize,
    /// Most items the queue holds.
    pub max_size: usize,
    /// Whether the queue is full.
    pub is_full: bool,
    /// Whether the queue is empty.
    pub is_empty: bool,
}

impl<T> RequestQueue<T> {
    /// The items waiting, in the order they arrived, with their priorities.
    pub closed spec fn items(&self) -> Seq<(Priority, T)> {
        self.entries@
    }

    /// Most items the queue holds.
    pub closed spec fn capacity(&self) -> usize {
        self.max_size
    }

    /// An empty queue holding at most `max_size` items.
    pub fn new(max_size: usize) -> (r: Self)
        ensures
            r.items().len() == 0,
            r.capacity() == max_size,
    {
        RequestQueue { entries: Vec::new(), max_size }
    }

    /// Adds `item` with `priority` at the back. A queue holding its
    /// capacity or more refuses with `QueueFull` and is left as it was.
    pub fn enqueue(&mut self, priority: Priority, item: T) -> (r: Result<(), CoreError>)
        ensures
            final(self).capacity() == old(self).capacity(),
            old(self).items().len() >= old(self).capacity() ==> final(self).items() == old(self).items() && (r matches Err(
                e,
            ) && e@ == ErrorView::QueueFull {
                max_size: old(self).capacity(),
                message: full_message(old(self).capacity()),
            }),
            old(self).items().len() < old(self).capacity() ==> r is Ok && final(self).items() == old(
                self,
            ).items().push((priority, item)),
    {
        if self.entries.len() >= self.max_size {
            let n = decimal_string(self.max_size as u64);
            let mut m = String::from_str("Request queue is full (max_size: ");
            m.append(n.as_str());
            m.append(")");
            return Err(CoreError::QueueFull { max_size: self.max_size, message: m });
        }
        self.entries.push((priority, item));
        Ok(())
    }

    /// Takes the next item out: the first of those of highest priority.
    /// `None` when the queue is empty.
    pub fn try_dequeue(&mut self) -> (r: Option<T>)
        ensures
            final(self).capacity() == old(self).capacity(),
            old(self).items().len() == 0 ==> r is None && final(self).items() == old(self).items(),
            old(self).items().len() > 0 ==> exists|i: int|
                next_out(old(self).items(), i) && r == Some(old(self).items()[i].1) && final(self).items() == old(
                    self,
                ).items().remove(i),
    {
        if self.entries.len() == 0 {
            return None;
        }
        let mut best: usize = 0;
        let mut i: usize = 1;
        while i < self.entries.len()
            invariant
                1 <= i <= self.entries.len(),
                best < i,
                forall|j: int| 0 <= j < i ==> priority_rank(#[trigger] self.entries@[j].0) <= priority_rank(
                    self.entries@[best as int].0,
                ),
                forall|j: int| 0 <= j < best ==> priority_rank(#[trigger] self.entries@[j].0) < priority_rank(
                    self.entries@[best as int].0,
                ),
            decreases self.entries.len() - i,
        {
            if self.entries[i].0.rank() > self.entries[best].0.rank() {
                best = i;
            }
            i = i + 1;
        }
        let ghost s0 = self.entries@;
        let (_, item) = self.entries.remove(best);
        proof {
            assert(next_out(s0, best as int));
        }
        Some(item)
    }

    /// How many items wait.
    pub fn size(&self) -> (r: usize)
        ensures
            r == self.items().len(),
    {
        self.entries.len()
    }

    /// Whether the queue holds its capacity or more.
    pub fn is_full(&self) -> (r: bool)
        ensures
            r == (self.items().len() >= self.capacity()),
    {
        self.entries.len() >= self.max_size
    }

    /// Whether no item waits.
    pub fn is_empty(&self) -> (r: bool)
        ensures
            r == (self.items().len() == 0),
    {
        self.entries.len() == 0
    }

    /// Most items the queue holds.
    pub fn max_size(&self) -> (r: usize)
        ensures
            r == self.capacity(),
    {
        self.max_size
    }

    /// Drops every item.
    pub fn clear(&mut self)
        ensures
            final(self).items().len() == 0,
            final(self).capacity() == old(self).capacity(),
    {
        self.entries.clear();
    }

    /// The state of the queue.
    pub fn stats(&self) -> (r: QueueStats)
        ensures
            r.current_size == self.items().len(),
            r.max_size == self.capacity(),
            r.is_full == (self.items().len() >= self.capacity()),
            r.is_empty == (self.items().len() == 0),
    {
        QueueStats {
            current_size: self.size(),
            max_size: self.max_size,
            is_full: self.is_full(),
            is_empty: self.is_empty(),
        }
    }
}

/// An item leaves before every later item of its priority and before every
/// item of lower priority.
pub proof fn lemma_next_out_order<T>(s: Seq<(Priority, T)>, i: int)
    requires
        next_out(s, i),
    ensures
        forall|j: int| 0 <= j < s.len() && j != i && s[j].0 == s[i].0 ==> j > i,
        forall|j: int| 0 <= j < s.len() ==> priority_rank(#[trigger] s[j].0) <= priority_rank(s[i].0),
{
    assert forall|j: int| 0 <= j < s.len() && j != i && s[j].0 == s[i].0 implies j > i by {
        if j < i {
            assert(priority_rank(s[j].0) < priority_rank(s[i].0));
        }
    }
}

} // verus!
