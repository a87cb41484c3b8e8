//! The pending events of a run, kept in processing order.

use crate::event::{event_le, lemma_event_le_total, lemma_event_le_transitive, Event};
use vstd::prelude::*;

verus! {

broadcast use vstd::seq_lib::group_to_multiset_ensures;

/// Every event goes no later than the ones after it.
pub open spec fn events_sorted(s: Seq<Event>) -> bool {
    forall|i: int, j: int| 0 <= i < j < s.len() ==> event_le(#[trigger] s[i], #[trigger] s[j])
}

/// Where `e` goes among `s`: after every event that goes no later than it.
pub open spec fn insert_pos(s: Seq<Event>, e: Event) -> int
    decreases s.len(),
{
    if s.len() == 0 {
        0
    } else if event_le(s.last(), e) {
        s.len() as int
    } else {
        insert_pos(s.drop_last(), e)
    }
}

/// `s` with `e` put in its place.
pub open spec fn sorted_insert(s: Seq<Event>, e: Event) -> Seq<Event> {
    s.insert(insert_pos(s, e), e)
}

/// The queue a sequence of insertions builds, from an empty one.
pub open spec fn filled(es: Seq<Event>) -> Seq<Event>
    decreases es.len(),
{
    if es.len() == 0 {
        Seq::empty()
    } else {
        sorted_insert(filled(es.drop_last()), es.last())
    }
}

/// In a sorted sequence, `insert_pos` splits the events that go no later
/// than `e` from those that go after it.
pub proof fn lemma_insert_pos(s: Seq<Event>, e: Event)
    requires
        events_sorted(s),
    ensures
        0 <= insert_pos(s, e) <= s.len(),
        forall|j: int| 0 <= j < insert_pos(s, e) ==> event_le(#[trigger] s[j], e),
        forall|j: int| insert_pos(s, e) <= j < s.len() ==> !event_le(#[trigger] s[j], e),
    decreases s.len(),
{
    if s.len() > 0 {
        let p = s.drop_last();
        assert(events_sorted(p));
        lemma_insert_pos(p, e);
        if event_le(s.last(), e) {
            assert forall|j: int| 0 <= j < s.len() implies event_le(#[trigger] s[j], e) by {
                if j < s.len() - 1 {
                    lemma_event_le_transitive(s[j], s.last(), e);
                }
            }
        } else {
            assert forall|j: int| 0 <= j < insert_pos(s, e) implies event_le(
                #[trigger] s[j],
                e,
            ) by {
                assert(p[j] == s[j]);
            }
            assert forall|j: int| insert_pos(s, e) <= j < s.len() implies !event_le(
                #[trigger] s[j],
                e,
            ) by {
                if j < s.len() - 1 {
                    assert(p[j] == s[j]);
                }
            }
        }
    }
}

/// Inserting in place keeps a sequence sorted and adds exactly `e`.
pub proof fn lemma_sorted_insert(s: Seq<Event>, e: Event)
    requires
        events_sorted(s),
    ensures
        events_sorted(sorted_insert(s, e)),
        sorted_insert(s, e).len() == s.len() + 1,
        sorted_insert(s, e).to_multiset() == s.to_multiset().insert(e),
{
    lemma_insert_pos(s, e);
    let k = insert_pos(s, e);
    let r = sorted_insert(s, e);
    assert forall|i: int, j: int| 0 <= i < j < r.len() implies event_le(
        #[trigger] r[i],
        #[trigger] r[j],
    ) by {
        if i < k && j == k {
        } else if i == k && j > k {
            lemma_event_le_total(s[j - 1], e);
        } else if i < k && j > k {
            assert(event_le(s[i], s[j - 1]));
        } else if i < k {
            assert(event_le(s[i], s[j]));
        } else {
            assert(event_le(s[i - 1], s[j - 1]));
        }
    }
}

/// Whatever events are inserted, in whatever order, the queue holds exactly
/// those events, sorted, so that successive pops return them in processing
/// order.
pub proof fn lemma_insertions_pop_in_order(es: Seq<Event>)
    ensures
        events_sorted(filled(es)),
        filled(es).to_multiset() == es.to_multiset(),
    decreases es.len(),
{
    if es.len() > 0 {
        let p = es.drop_last();
        lemma_insertions_pop_in_order(p);
        lemma_sorted_insert(filled(p), es.last());
        assert(es == p.push(es.last()));
        assert(es.to_multiset() == p.to_multiset().insert(es.last()));
    }
}

/// The pending events, earliest first.
pub struct EventQueue {
    pub q: Vec<Event>,
}

impl View for EventQueue {
    type V = Seq<Event>;

    open spec fn view(&self) -> Seq<Event> {
        self.q@
    }
}

impl EventQueue {
    pub open spec fn wf(&self) -> bool {
        events_sorted(self@)
    }

    pub fn new() -> (r: EventQueue)
        ensures
            r@ == Seq::<Event>::empty(),
            r.wf(),
    {
        EventQueue { q: Vec::new() }
    }

    pub fn len(&self) -> (r: usize)
        ensures
            r == self@.len(),
    {
        self.q.len()
    }

    /// Puts `event` after every pending event that goes no later than it.
    pub fn add(&mut self, event: Event)
        requires
            old(self).wf(),
        ensures
            final(self)@ == sorted_insert(old(self)@, event),
            final(self).wf(),
            final(self)@.to_multiset() == old(self)@.to_multiset().insert(event),
    {
        let ghost s = self@;
        proof {
            lemma_insert_pos(s, event);
        }
        let mut lo: usize = 0;
        let mut hi: usize = self.q.len();
        while lo < hi
            invariant
                self@ == s,
                events_sorted(s),
                0 <= lo <= hi <= s.len(),
                forall|j: int| 0 <= j < lo ==> event_le(#[trigger] s[j], event),
                forall|j: int| hi <= j < s.len() ==> !event_le(#[trigger] s[j], event),
            decreases hi - lo,
        {
            let mid = lo + (hi - lo) / 2;
            if self.q[mid].goes_before(&event) {
                assert forall|j: int| 0 <= j <= mid implies event_le(#[trigger] s[j], event) by {
                    if j < mid {
                        lemma_event_le_transitive(s[j], s[mid as int], event);
                    }
                }
                lo = mid + 1;
            } else {
                assert forall|j: int| mid <= j < s.len() implies !event_le(
                    #[trigger] s[j],
                    event,
                ) by {
                    if j > mid && event_le(s[j], event) {
                        lemma_event_le_transitive(s[mid as int], s[j], event);
                    }
                }
                hi = mid;
            }
        }
        let ghost k = insert_pos(s, event);
        assert(lo == k) by {
            if lo < k {
                assert(event_le(s[lo as int], event));
            }
            if k < lo {
                assert(event_le(s[k], event));
            }
        }
        self.q.insert(lo, event);
        proof {
            lemma_sorted_insert(s, event);
        }
    }

    /// The next event to process, or `None` when nothing is pending.
    pub fn peek(&self) -> (r: Option<Event>)
        ensures
            self@.len() == 0 ==> r is None,
            self@.len() > 0 ==> r == Some(self@[0]),
    {
        if self.q.len() == 0 {
            None
        } else {
            Some(self.q[0])
        }
    }

    /// Removes and returns the earliest pending event; `None` when the
    /// queue is empty, which ends a run.
    pub fn pop_earliest(&mut self) -> (r: Option<Event>)
        requires
            old(self).wf(),
        ensures
            final(self).wf(),
            old(self)@.len() == 0 ==> r is None && final(self)@ == old(self)@,
            old(self)@.len() > 0 ==> r == Some(old(self)@[0]) && final(self)@ == old(
                self,
            )@.drop_first(),
            r matches Some(e) ==> forall|i: int|
                0 <= i < final(self)@.len() ==> event_le(e, #[trigger] final(self)@[i]),
    {
        if self.q.len() == 0 {
            None
        } else {
            let e = self.q.remove(0);
            assert(self@ =~= old(self)@.drop_first());
            Some(e)
        }
    }
}

} // verus!
