use vstd::prelude::*;

use crate::rtype::ResourceLink;

verus! {

#[derive(Clone, Copy, Debug, PartialEq, Eq, Structural)]
pub enum EventKind {
    Add,
    Update,
    Delete,
}

/// One block of the Hue event stream: its id, what happened, and to which
/// resource.
#[derive(Clone, Copy, Debug, PartialEq, Eq, Structural)]
pub struct HueEvent {
    pub id: u64,
    pub kind: EventKind,
    pub link: ResourceLink,
}

/// The event stream: ids are handed out in order without gaps, and the last
/// `capacity` events are kept for clients that reconnect.
#[derive(Debug)]
pub struct HueEventStream {
    next_id: u64,
    capacity: usize,
    ring: Vec<HueEvent>,
}

/// The last `n` elements of `s` (all of them if there are fewer).
pub open spec fn last_n(s: Seq<HueEvent>, n: nat) -> Seq<HueEvent> {
    if s.len() <= n {
        s
    } else {
        s.subrange(s.len() - n, s.len() as int)
    }
}

/// The events of `s` with an id above `n`, in order.
pub open spec fn after_id(s: Seq<HueEvent>, n: u64) -> Seq<HueEvent> {
    s.filter(|e: HueEvent| e.id > n)
}

impl HueEventStream {
    pub closed spec fn spec_next_id(&self) -> u64 {
        self.next_id
    }

    pub closed spec fn spec_capacity(&self) -> nat {
        self.capacity as nat
    }

    /// The events kept, oldest first.
    pub closed spec fn retained(&self) -> Seq<HueEvent> {
        self.ring@
    }

    /// The kept events are the last ones handed out: consecutive ids ending
    /// just below the next id, at most `capacity` of them.
    pub open spec fn wf(&self) -> bool {
        &&& self.spec_capacity() > 0
        &&& self.retained().len() <= self.spec_capacity()
        &&& self.retained().len() <= self.spec_next_id()
        &&& forall|i: int|
            0 <= i < self.retained().len() ==> (#[trigger] self.retained()[i]).id
                == self.spec_next_id() - self.retained().len() + i
    }

    /// An empty stream that keeps up to `capacity` events.
    pub fn new(capacity: usize) -> (r: Self)
        requires
            capacity > 0,
        ensures
            r.wf(),
            r.spec_next_id() == 0,
            r.spec_capacity() == capacity,
            r.retained() == Seq::<HueEvent>::empty(),
    {
        HueEventStream { next_id: 0, capacity, ring: Vec::new() }
    }

    /// The id that the next event gets.
    pub fn next_id(&self) -> (r: u64)
        ensures
            r == self.spec_next_id(),
    {
        self.next_id
    }

    /// Appends an event with the next id and returns it; the oldest kept
    /// event is dropped when more than `capacity` would be kept.
    pub fn hue_event(&mut self, kind: EventKind, link: ResourceLink) -> (r: HueEvent)
        requires
            old(self).wf(),
            old(self).spec_next_id() < u64::MAX,
        ensures
            final(self).wf(),
            r == (HueEvent { id: old(self).spec_next_id(), kind, link }),
            final(self).spec_next_id() == old(self).spec_next_id() + 1,
            final(self).spec_capacity() == old(self).spec_capacity(),
            final(self).retained() == last_n(old(self).retained().push(r), old(self).spec_capacity()),
    {
        let e = HueEvent { id: self.next_id, kind, link };
        let ghost pushed = self.ring@.push(e);
        self.ring.push(e);
        if self.ring.len() > self.capacity {
            self.ring.remove(0);
            proof {
                assert(self.ring@ =~= pushed.subrange(pushed.len() - self.capacity, pushed.len() as int));
            }
        }
        self.next_id = self.next_id + 1;
        e
    }

    /// The kept events with an id above `last_id`, oldest first; all kept
    /// events where no id is given.
    pub fn events_after(&self, last_id: Option<u64>) -> (r: Vec<HueEvent>)
        requires
            self.wf(),
        ensures
            r@ == match last_id {
                Some(n) => after_id(self.retained(), n),
                None => self.retained(),
            },
    {
        let mut out: Vec<HueEvent> = Vec::new();
        let mut i: usize = 0;
        while i < self.ring.len()
            invariant
                0 <= i <= self.ring@.len(),
                out@ == match last_id {
                    Some(n) => after_id(self.ring@.subrange(0, i as int), n),
                    None => self.ring@.subrange(0, i as int),
                },
            decreases self.ring@.len() - i,
        {
            let e = self.ring[i];
            proof {
                let s = self.ring@.subrange(0, i + 1);
                assert(s.drop_last() =~= self.ring@.subrange(0, i as int));
                assert(s.last() == e);
                if let Some(n) = last_id {
                    reveal(Seq::filter);
                }
            }
            match last_id {
                Some(n) => {
                    if e.id > n {
                        out.push(e);
                    }
                },
                None => {
                    out.push(e);
                },
            }
            i = i + 1;
        }
        proof {
            assert(self.ring@.subrange(0, self.ring@.len() as int) =~= self.ring@);
        }
        out
    }
}

/// A client that saw the events up to `n` and reconnects is handed exactly
/// the kept events after `n`: a run of consecutive ids starting at `n + 1`
/// (or at the oldest kept one), ending just below the next id, so that the
/// live events that follow continue it without a gap or a repeat.
pub proof fn lemma_replay_is_suffix(s: HueEventStream, n: u64)
    requires
        s.wf(),
        n < s.spec_next_id(),
    ensures
        ({
            let kept = s.retained();
            let first = s.spec_next_id() - kept.len();
            let start = if n + 1 > first {
                n + 1 - first
            } else {
                0
            };
            after_id(kept, n) == kept.subrange(start, kept.len() as int)
        }),
{
    let kept = s.retained();
    let first = s.spec_next_id() - kept.len();
    let start: int = if n + 1 > first {
        n + 1 - first
    } else {
        0
    };
    assert forall|i: int| 0 <= i < kept.len() implies ((#[trigger] kept[i]).id > n <==> i >= start) by {
        assert(kept[i].id == s.spec_next_id() - kept.len() + i);
    }
    lemma_filter_suffix(kept, n, start);
}

proof fn lemma_filter_suffix(kept: Seq<HueEvent>, n: u64, start: int)
    requires
        0 <= start <= kept.len(),
        forall|i: int| 0 <= i < kept.len() ==> ((#[trigger] kept[i]).id > n <==> i >= start),
    ensures
        after_id(kept, n) == kept.subrange(start, kept.len() as int),
    decreases kept.len(),
{
    reveal(Seq::filter);
    if kept.len() > 0 {
        let d = kept.drop_last();
        assert forall|i: int| 0 <= i < d.len() implies ((#[trigger] d[i]).id > n <==> i >= (if start
            <= d.len() {
            start
        } else {
            d.len() as int
        })) by {
            assert(d[i] == kept[i]);
        }
        if start <= d.len() {
            lemma_filter_suffix(d, n, start);
            assert(kept.last() == kept[kept.len() - 1]);
            assert(kept.subrange(start, kept.len() as int) =~= d.subrange(start, d.len() as int).push(
                kept.last(),
            ));
        } else {
            lemma_filter_suffix(d, n, d.len() as int);
            assert(kept.subrange(start, kept.len() as int) =~= Seq::<HueEvent>::empty());
            assert(d.subrange(d.len() as int, d.len() as int) =~= Seq::<HueEvent>::empty());
        }
    }
}

} // verus!
