//! Queue of work items that remembers which of them have been handed out.
use vstd::prelude::*;

verus! {

/// What a [`UsingQueue`] holds.
#[verifier::ext_equal]
pub struct QueueView<T> {
    /// The item that was pushed last, if it has not been used.
    pub pending: Option<T>,
    /// The items that have been used, oldest first.
    pub in_use: Seq<T>,
    /// How many used items are kept.
    pub max_size: nat,
}

impl<T> QueueView<T> {
    /// No more used items are kept than the limit allows.
    pub open spec fn wf(self) -> bool {
        self.in_use.len() <= self.max_size
    }

    /// The queue with nothing in it.
    pub open spec fn empty(max_size: nat) -> QueueView<T> {
        QueueView { pending: None, in_use: Seq::empty(), max_size }
    }

    /// The used item that was handed out last.
    pub open spec fn newest_used(self) -> Option<T> {
        if self.in_use.len() > 0 {
            Some(self.in_use.last())
        } else {
            None
        }
    }

    /// The item at the top: the pending one, otherwise the newest used one.
    pub open spec fn last(self) -> Option<T> {
        if self.pending is Some {
            self.pending
        } else {
            self.newest_used()
        }
    }

    /// The queue after `item` was pushed: it takes the place of the pending item.
    pub open spec fn pushed(self, item: T) -> QueueView<T> {
        QueueView { pending: Some(item), ..self }
    }

    /// The queue after its top was used: a pending item becomes the newest used one, and the
    /// oldest used one leaves where there would be too many.
    pub open spec fn used(self) -> QueueView<T> {
        match self.pending {
            None => self,
            Some(item) => {
                let in_use = self.in_use.push(item);
                QueueView {
                    pending: None,
                    in_use: if in_use.len() > self.max_size {
                        in_use.drop_first()
                    } else {
                        in_use
                    },
                    ..self
                }
            },
        }
    }

    /// The queue after the pending item was taken away.
    pub open spec fn without_pending(self) -> QueueView<T> {
        QueueView { pending: None, ..self }
    }

    /// The queue after the used item at `index` was taken away.
    pub open spec fn without_used(self, index: int) -> QueueView<T> {
        QueueView { in_use: self.in_use.remove(index), ..self }
    }
}

/// Queue that separates the item that was pushed last from the items that somebody works on.
///
/// A pushed item that nobody used is replaced by the next push. A used item stays until it is
/// taken, or until as many newer items as the queue keeps have been used.
pub struct UsingQueue<T> {
    pending: Option<T>,
    in_use: Vec<T>,
    max_size: usize,
}

impl<T> View for UsingQueue<T> {
    type V = QueueView<T>;

    closed spec fn view(&self) -> QueueView<T> {
        QueueView { pending: self.pending, in_use: self.in_use@, max_size: self.max_size as nat }
    }
}

impl<T> UsingQueue<T> {
    /// The used items stay within the limit.
    pub open spec fn wf(&self) -> bool {
        self@.wf()
    }

    /// Makes an empty queue that keeps up to `max_size` used items.
    pub fn new(max_size: usize) -> (r: UsingQueue<T>)
        ensures
            r.wf(),
            r@ == QueueView::<T>::empty(max_size as nat),
    {
        UsingQueue { pending: None, in_use: Vec::new(), max_size }
    }

    /// The item at the top of the queue. Looking at it does not use it.
    pub fn peek_last_ref(&self) -> (r: Option<&T>)
        ensures
            r is Some <==> self@.last() is Some,
            r matches Some(x) ==> self@.last() == Some(*x),
    {
        match &self.pending {
            Some(x) => Some(x),
            None => {
                let n: usize = self.in_use.len();
                if n > 0 {
                    Some(&self.in_use[n - 1])
                } else {
                    None
                }
            },
        }
    }

    /// Uses the item at the top of the queue and hands it out.
    pub fn use_last_ref(&mut self) -> (r: Option<&T>)
        requires
            old(self).wf(),
        ensures
            final(self).wf(),
            final(self)@ == old(self)@.used(),
            r is Some <==> old(self)@.used().newest_used() is Some,
            r matches Some(x) ==> old(self)@.used().newest_used() == Some(*x),
    {
        if let Some(x) = self.pending.take() {
            self.in_use.push(x);
            if self.in_use.len() > self.max_size {
                let ghost grown = self.in_use@;
                self.in_use.remove(0);
                assert(self.in_use@ =~= grown.drop_first());
            }
        }
        let n: usize = self.in_use.len();
        if n > 0 {
            Some(&self.in_use[n - 1])
        } else {
            None
        }
    }

    /// Puts `item` on top of the queue. A pending item that was never used is dropped.
    pub fn push(&mut self, item: T)
        requires
            old(self).wf(),
        ensures
            final(self).wf(),
            final(self)@ == old(self)@.pushed(item),
    {
        self.pending = Some(item);
    }

    /// Drops every item.
    pub fn reset(&mut self)
        requires
            old(self).wf(),
        ensures
            final(self).wf(),
            final(self)@ == QueueView::<T>::empty(old(self)@.max_size),
    {
        self.pending = None;
        self.in_use.clear();
    }

    /// Where the oldest used item stands for which `predicate` holds.
    fn find_used<F: Fn(&T) -> bool>(&self, predicate: F) -> (r: Option<usize>)
        requires
            forall|x: &T| #[trigger] call_requires(predicate, (x,)),
        ensures
            match r {
                Some(i) => {
                    &&& i < self@.in_use.len()
                    &&& call_ensures(predicate, (&self@.in_use[i as int],), true)
                    &&& forall|j: int|
                        0 <= j < i ==> call_ensures(
                            predicate,
                            (&#[trigger] self@.in_use[j],),
                            false,
                        )
                },
                None => forall|j: int|
                    0 <= j < self@.in_use.len() ==> call_ensures(
                        predicate,
                        (&#[trigger] self@.in_use[j],),
                        false,
                    ),
            },
    {
        let mut i: usize = 0;
        while i < self.in_use.len()
            invariant
                i <= self.in_use.len(),
                forall|x: &T| #[trigger] call_requires(predicate, (x,)),
                forall|j: int|
                    0 <= j < i ==> call_ensures(predicate, (&#[trigger] self@.in_use[j],), false),
            decreases self.in_use.len() - i,
        {
            if predicate(&self.in_use[i]) {
                assert(self@.in_use[i as int] == self.in_use@[i as int]);
                return Some(i);
            }
            i += 1;
        }
        None
    }

    /// Gives a copy of the oldest used item for which `predicate` holds, and leaves it in use.
    pub fn get_used_if<F: Fn(&T) -> bool>(&self, predicate: F) -> (r: Option<T>) where T: Clone
        requires
            forall|x: &T| #[trigger] call_requires(predicate, (x,)),
        ensures
            match r {
                Some(t) => exists|i: int|
                    {
                        &&& 0 <= i < self@.in_use.len()
                        &&& cloned::<T>(#[trigger] self@.in_use[i], t)
                        &&& call_ensures(predicate, (&self@.in_use[i],), true)
                        &&& forall|j: int|
                            0 <= j < i ==> call_ensures(
                                predicate,
                                (&#[trigger] self@.in_use[j],),
                                false,
                            )
                    },
                None => forall|j: int|
                    0 <= j < self@.in_use.len() ==> call_ensures(
                        predicate,
                        (&#[trigger] self@.in_use[j],),
                        false,
                    ),
            },
    {
        match self.find_used(predicate) {
            Some(i) => {
                let item = self.in_use[i].clone();
                assert(cloned::<T>(self@.in_use[i as int], item));
                Some(item)
            },
            None => None,
        }
    }

    /// Takes out the oldest used item for which `predicate` holds.
    pub fn take_used_if<F: Fn(&T) -> bool>(&mut self, predicate: F) -> (r: Option<T>)
        requires
            old(self).wf(),
            forall|x: &T| #[trigger] call_requires(predicate, (x,)),
        ensures
            final(self).wf(),
            match r {
                Some(t) => exists|i: int|
                    {
                        &&& 0 <= i < old(self)@.in_use.len()
                        &&& t == #[trigger] old(self)@.in_use[i]
                        &&& call_ensures(predicate, (&t,), true)
                        &&& forall|j: int|
                            0 <= j < i ==> call_ensures(
                                predicate,
                                (&#[trigger] old(self)@.in_use[j],),
                                false,
                            )
                        &&& final(self)@ == old(self)@.without_used(i)
                    },
                None => {
                    &&& final(self)@ == old(self)@
                    &&& forall|j: int|
                        0 <= j < old(self)@.in_use.len() ==> call_ensures(
                            predicate,
                            (&#[trigger] old(self)@.in_use[j],),
                            false,
                        )
                },
            },
    {
        match self.find_used(predicate) {
            Some(i) => {
                let item = self.in_use.remove(i);
                assert(item == old(self)@.in_use[i as int]);
                Some(item)
            },
            None => None,
        }
    }

    /// Drops the pending item, if there is one.
    pub fn drop_pending(&mut self)
        requires
            old(self).wf(),
        ensures
            final(self).wf(),
            final(self)@ == old(self)@.without_pending(),
    {
        self.pending = None;
    }
}

/// A pushed item that nobody used is lost with the next push.
pub proof fn law_unused_item_is_replaced<T>(queue: QueueView<T>, first: T, second: T)
    ensures
        queue.pushed(first).pushed(second) == queue.pushed(second),
{
}

/// An item that is pushed and used is the newest one in use, and is not used twice.
pub proof fn law_used_once<T>(queue: QueueView<T>, item: T)
    requires
        queue.wf(),
        queue.max_size > 0,
    ensures
        queue.pushed(item).used().newest_used() == Some(item),
        queue.pushed(item).used().used() == queue.pushed(item).used(),
{
}

/// The item at the top is the pending one, and where nothing is pending the last of the used ones.
pub proof fn law_top_of_a_queue<T>(queue: QueueView<T>)
    ensures
        queue.pending is Some ==> queue.last() == queue.pending,
        queue.pending is None && queue.in_use.len() > 0 ==> queue.last() == Some(
            queue.in_use[queue.in_use.len() - 1],
        ),
        queue.pending is None && queue.in_use.len() == 0 ==> queue.last() is None,
        queue.in_use.len() > 0 ==> queue.newest_used() == Some(
            queue.in_use[queue.in_use.len() - 1],
        ),
        queue.in_use.len() == 0 ==> queue.newest_used() is None,
        queue.wf() <==> queue.in_use.len() <= queue.max_size,
{
}

/// An item that is pushed is pending and on top, and the used items stay. Taking the pending item
/// away leaves the used ones.
pub proof fn law_push_puts_on_top<T>(queue: QueueView<T>, item: T)
    ensures
        queue.pushed(item).last() == Some(item),
        queue.pushed(item).pending == Some(item),
        queue.pushed(item).in_use == queue.in_use,
        queue.pushed(item).max_size == queue.max_size,
        queue.without_pending().pending is None,
        queue.without_pending().in_use == queue.in_use,
        queue.without_pending().max_size == queue.max_size,
        queue.pushed(item).without_pending() == queue.without_pending(),
{
}

/// Using the top changes nothing where nothing is pending. A pending item becomes the last of the
/// used ones, and the others keep their order. The first of them leaves only where the limit was
/// reached.
pub proof fn law_use_makes_newest<T>(queue: QueueView<T>)
    requires
        queue.wf(),
        queue.max_size > 0,
    ensures
        queue.pending is None ==> queue.used() == queue,
        queue.used().pending is None,
        queue.used().max_size == queue.max_size,
        queue.used().wf(),
        queue.used().last() == queue.last(),
        queue.pending matches Some(item) ==> {
            let gone = if queue.in_use.len() == queue.max_size {
                1int
            } else {
                0int
            };
            &&& queue.used().in_use.len() == queue.in_use.len() + 1 - gone
            &&& queue.used().in_use[queue.used().in_use.len() - 1] == item
            &&& forall|i: int|
                gone <= i < queue.in_use.len() ==> queue.used().in_use[i - gone]
                    == #[trigger] queue.in_use[i]
        },
{
}

/// Taking a used item away leaves the others in their order, and what is pending. An empty queue
/// has nothing, and keeps its limit.
pub proof fn law_take_leaves_the_others<T>(queue: QueueView<T>, index: int)
    requires
        0 <= index < queue.in_use.len(),
    ensures
        ({
            let left = queue.without_used(index);
            &&& left.pending == queue.pending
            &&& left.max_size == queue.max_size
            &&& left.in_use.len() == queue.in_use.len() - 1
            &&& forall|i: int| 0 <= i < index ==> #[trigger] left.in_use[i] == queue.in_use[i]
            &&& forall|i: int|
                index <= i < left.in_use.len() ==> #[trigger] left.in_use[i] == queue.in_use[i + 1]
        }),
        ({
            let empty = QueueView::<T>::empty(queue.max_size);
            &&& empty.pending is None
            &&& empty.in_use.len() == 0
            &&& empty.max_size == queue.max_size
        }),
{
}

} // verus!
