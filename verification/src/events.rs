//! The events that drive the sweep, and the queue that hands them out by
//! priority.

use vstd::prelude::*;
use crate::scalar::{exact_scalar, gt, lt, Scalar};

verus! {

/// What an event asks for.
#[derive(Debug, PartialEq, Eq, Structural, Clone, Copy)]
pub enum EventKind {
    /// The sweep line reaches the site of a face: an arc is added.
    AddArc { face_id: usize },
    /// The circle of three neighbouring arcs is passed: the middle arc is removed.
    RemoveArc { arc_id: usize },
}

/// An event of the sweep.
#[derive(Debug, PartialEq, Clone, Copy)]
pub struct Event<T> {
    pub id: usize,
    pub priority: T,
    pub kind: EventKind,
}

/// `a` is handed out before `b`: it has the higher priority, or, where neither
/// priority is above the other, the smaller id.
pub open spec fn precedes<T: Scalar>(a: Event<T>, b: Event<T>) -> bool {
    if gt(a.priority, b.priority) {
        true
    } else if lt(a.priority, b.priority) {
        false
    } else {
        a.id < b.id
    }
}

/// The index of the event that is handed out among the first `upto + 1` events:
/// the first one, unless a later one precedes the choice made before it.
pub open spec fn first_choice<T: Scalar>(events: Seq<Event<T>>, upto: int) -> int
    decreases upto,
{
    if upto <= 0 {
        0
    } else {
        let best = first_choice(events, upto - 1);
        if precedes(events[upto], events[best]) {
            upto
        } else {
            best
        }
    }
}

/// Among the events, no event precedes itself, and an event that precedes one
/// that precedes a third precedes the third.
pub open spec fn orders_events<T: Scalar>(events: Seq<Event<T>>) -> bool {
    &&& forall|i: int| 0 <= i < events.len() ==> !precedes(#[trigger] events[i], events[i])
    &&& forall|i: int, j: int, k: int|
        0 <= i < events.len() && 0 <= j < events.len() && 0 <= k < events.len() && #[trigger] precedes(
            events[i],
            events[j],
        ) && #[trigger] precedes(events[j], events[k]) ==> precedes(events[i], events[k])
}

/// Where `precedes` orders the events, the event that is handed out is
/// preceded by none of them, and none of them has a priority above its own:
/// events come out in the order of descending priority.
pub proof fn lemma_first_choice_comes_first<T: Scalar>(events: Seq<Event<T>>, upto: int, j: int)
    requires
        orders_events(events),
        0 <= j <= upto < events.len(),
    ensures
        0 <= first_choice(events, upto) <= upto,
        !precedes(events[j], events[first_choice(events, upto)]),
        !gt(events[j].priority, events[first_choice(events, upto)].priority),
    decreases upto,
{
    if upto > 0 {
        let best = first_choice(events, upto - 1);
        lemma_first_choice_comes_first(events, upto - 1, 0);
        if j < upto {
            lemma_first_choice_comes_first(events, upto - 1, j);
            if precedes(events[upto], events[best]) {
                if precedes(events[j], events[upto]) {
                    assert(precedes(events[j], events[best]));
                }
            }
        }
    }
}

/// The number of events that add an arc.
pub open spec fn site_events<T>(events: Seq<Event<T>>) -> nat
    decreases events.len(),
{
    if events.len() == 0 {
        0
    } else {
        site_events(events.drop_last()) + if events.last().kind is AddArc {
            1nat
        } else {
            0nat
        }
    }
}

/// Taking an event out of a list lowers the number of site events by one where
/// it is a site event, and leaves it where it is not.
pub proof fn lemma_site_events_remove<T>(events: Seq<Event<T>>, k: int)
    requires
        0 <= k < events.len(),
    ensures
        site_events(events) == site_events(events.remove(k)) + if events[k].kind is AddArc {
            1nat
        } else {
            0nat
        },
    decreases events.len(),
{
    if k == events.len() - 1 {
        assert(events.remove(k) =~= events.drop_last());
    } else {
        lemma_site_events_remove(events.drop_last(), k);
        assert(events.remove(k).drop_last() =~= events.drop_last().remove(k));
        assert(events.remove(k).last() == events.last());
    }
}

/// Adding an event to a list raises the number of site events by one where it
/// is a site event, and leaves it where it is not.
pub proof fn lemma_site_events_push<T>(events: Seq<Event<T>>, event: Event<T>)
    ensures
        site_events(events.push(event)) == site_events(events) + if event.kind is AddArc {
            1nat
        } else {
            0nat
        },
{
    assert(events.push(event).drop_last() =~= events);
}

impl<T: Scalar> Event<T> {
    /// Whether this event is handed out before the other one.
    pub fn precedes(&self, other: &Event<T>) -> (first: bool)
        ensures
            exact_scalar::<T>() ==> first == precedes(*self, *other),
    {
        if self.priority > other.priority {
            true
        } else if self.priority < other.priority {
            false
        } else {
            self.id < other.id
        }
    }
}

/// A priority queue of events. It keeps every event ever scheduled, so that the
/// position of an event is its id, and a list of the ids that are still
/// pending.
pub struct EventQueue<T> {
    pub scheduled: Vec<Event<T>>,
    pub pending: Vec<usize>,
}

impl<T: Scalar> EventQueue<T> {
    /// The invariant of the queue: the id of an event is its position, and every
    /// pending id is that of an event.
    pub open spec fn wf(&self) -> bool {
        &&& forall|i: int| 0 <= i < self.scheduled.len() ==> (#[trigger] self.scheduled[i]).id == i
        &&& forall|k: int| 0 <= k < self.pending.len() ==> #[trigger] self.pending[k] < self.scheduled.len()
    }

    /// The events that are pending, in the order in which they are kept.
    pub open spec fn pending_events(&self) -> Seq<Event<T>> {
        Seq::new(self.pending@.len(), |k: int| self.scheduled[self.pending[k] as int])
    }

    /// An empty queue.
    pub fn new() -> (queue: EventQueue<T>)
        ensures
            queue.wf(),
            queue.scheduled@.len() == 0,
            queue.pending@.len() == 0,
    {
        EventQueue { scheduled: Vec::new(), pending: Vec::new() }
    }

    /// The number of pending events.
    pub fn len(&self) -> (n: usize)
        ensures
            n == self.pending@.len(),
    {
        self.pending.len()
    }

    /// Schedules an event; its id is the number of events scheduled before it.
    pub fn push(&mut self, priority: T, kind: EventKind) -> (id: usize)
        requires
            old(self).wf(),
        ensures
            final(self).wf(),
            id == old(self).scheduled.len(),
            final(self).scheduled@ == old(self).scheduled@.push(Event { id, priority, kind }),
            final(self).pending@ == old(self).pending@.push(id),
            final(self).pending_events() == old(self).pending_events().push(
                Event { id, priority, kind },
            ),
    {
        let id = self.scheduled.len();
        self.scheduled.push(Event { id, priority, kind });
        self.pending.push(id);
        proof {
            assert(self.pending_events() =~= old(self).pending_events().push(
                Event { id, priority, kind },
            ));
        }
        id
    }

    /// Hands out the pending event that precedes the others, or `None` where no
    /// event is pending.
    pub fn pop(&mut self) -> (event: Option<Event<T>>)
        requires
            old(self).wf(),
        ensures
            final(self).wf(),
            final(self).scheduled == old(self).scheduled,
            event is None <==> old(self).pending@.len() == 0,
            event is None ==> final(self).pending == old(self).pending,
            event matches Some(e) ==> exists|k: int|
                {
                    &&& 0 <= k < old(self).pending@.len()
                    &&& e == old(self).pending_events()[k]
                    &&& #[trigger] final(self).pending@ == old(self).pending@.remove(k)
                    &&& final(self).pending_events() == old(self).pending_events().remove(k)
                    &&& exact_scalar::<T>() ==> k == first_choice(
                        old(self).pending_events(),
                        old(self).pending@.len() - 1,
                    )
                },
    {
        let n = self.pending.len();
        if n == 0 {
            return None;
        }
        let mut best: usize = 0;
        let mut k: usize = 1;
        while k < n
            invariant
                self.wf(),
                *self == *old(self),
                n == self.pending.len(),
                1 <= k <= n,
                best < k,
                exact_scalar::<T>() ==> best == first_choice(self.pending_events(), k - 1),
            decreases n - k,
        {
            let candidate = self.scheduled[self.pending[k]];
            let chosen = self.scheduled[self.pending[best]];
            if candidate.precedes(&chosen) {
                best = k;
            }
            k = k + 1;
        }
        let event = self.scheduled[self.pending[best]];
        self.pending.remove(best);
        proof {
            assert(self.pending_events() =~= old(self).pending_events().remove(best as int));
        }
        Some(event)
    }

    /// Forgets every event.
    pub fn clear(&mut self)
        ensures
            final(self).wf(),
            final(self).scheduled@.len() == 0,
            final(self).pending@.len() == 0,
    {
        self.scheduled.clear();
        self.pending.clear();
    }
}

} // verus!
