use vstd::prelude::*;
use crate::model::WeatherData;

verus! {

/// Appends `m` to a listener's backlog of at most `cap` items, dropping the oldest
/// item when the backlog is full.
pub open spec fn bounded_push(q: Seq<WeatherData>, m: WeatherData, cap: nat) -> Seq<WeatherData> {
    if q.len() < cap {
        q.push(m)
    } else {
        q.drop_first().push(m)
    }
}

/// The listener slots after `m` is published: every attached listener gets it, a
/// detached slot stays detached.
pub open spec fn after_publish(
    slots: Seq<Option<Seq<WeatherData>>>,
    m: WeatherData,
    cap: nat,
) -> Seq<Option<Seq<WeatherData>>> {
    Seq::new(
        slots.len(),
        |i: int|
            match slots[i] {
                Some(q) => Some(bounded_push(q, m, cap)),
                None => None,
            },
    )
}

/// How many of the slots hold an attached listener.
pub open spec fn attached_count(slots: Seq<Option<Seq<WeatherData>>>) -> nat
    decreases slots.len(),
{
    if slots.len() == 0 {
        0
    } else {
        attached_count(slots.drop_last()) + if slots.last() is Some {
            1nat
        } else {
            0nat
        }
    }
}

/// What listener `id` has pending; nothing where the slot is detached or unknown.
pub open spec fn pending(slots: Seq<Option<Seq<WeatherData>>>, id: int) -> Seq<WeatherData> {
    if 0 <= id < slots.len() && slots[id] is Some {
        slots[id].unwrap()
    } else {
        Seq::empty()
    }
}

/// A listener that subscribes before a publication receives it; one that
/// subscribes after it does not.
pub proof fn lemma_fan_out(slots: Seq<Option<Seq<WeatherData>>>, m: WeatherData, cap: nat)
    requires
        cap > 0,
    ensures
        pending(after_publish(slots.push(Some(Seq::<WeatherData>::empty())), m, cap), slots.len() as int)
            == seq![m],
        pending(after_publish(slots, m, cap).push(Some(Seq::<WeatherData>::empty())), slots.len() as int)
            .len() == 0,
{
    let early = after_publish(slots.push(Some(Seq::<WeatherData>::empty())), m, cap);
    assert(early[slots.len() as int] == Some(bounded_push(Seq::<WeatherData>::empty(), m, cap)));
    assert(Seq::<WeatherData>::empty().push(m) =~= seq![m]);
}

/// An attached listener receives a publication as its newest pending item; one that
/// had kept up has exactly that item pending.
pub proof fn lemma_attached_listener_receives(
    slots: Seq<Option<Seq<WeatherData>>>,
    m: WeatherData,
    cap: nat,
    id: int,
)
    requires
        cap > 0,
        0 <= id < slots.len(),
        slots[id] is Some,
    ensures
        pending(after_publish(slots, m, cap), id).len() > 0,
        pending(after_publish(slots, m, cap), id).last() == m,
        pending(slots, id).len() == 0 ==> pending(after_publish(slots, m, cap), id) == seq![m],
{
    let q = slots[id].unwrap();
    assert(after_publish(slots, m, cap)[id] == Some(bounded_push(q, m, cap)));
    if q.len() == 0 {
        assert(q.push(m) =~= seq![m]);
    }
}

/// Live fan-out of accepted measurements. Each listener owns a slot with a backlog
/// bounded by the capacity; on overflow the oldest pending measurement of that
/// listener is dropped, so publishing never waits on a listener.
pub struct Broadcaster {
    capacity: usize,
    slots: Vec<Option<Vec<WeatherData>>>,
}

impl View for Broadcaster {
    type V = Seq<Option<Seq<WeatherData>>>;

    closed spec fn view(&self) -> Seq<Option<Seq<WeatherData>>> {
        Seq::new(
            self.slots@.len(),
            |i: int|
                match self.slots@[i] {
                    Some(q) => Some(q@),
                    None => None,
                },
        )
    }
}

impl Broadcaster {
    /// The most measurements a listener may have pending.
    pub closed spec fn cap(&self) -> nat {
        self.capacity as nat
    }

    pub closed spec fn wf(&self) -> bool {
        &&& self.capacity > 0
        &&& forall|i: int|
            0 <= i < self.slots@.len() && (#[trigger] self.slots@[i]) is Some ==> self.slots@[i].unwrap()@.len()
                <= self.capacity
    }

    /// A well-formed broadcaster keeps at least one pending item per listener.
    pub proof fn lemma_wf_cap(&self)
        requires
            self.wf(),
        ensures
            self.cap() > 0,
    {
    }

    /// A broadcaster with no listener.
    pub fn new(capacity: usize) -> (r: Broadcaster)
        requires
            capacity > 0,
        ensures
            r.wf(),
            r.cap() == capacity,
            r@ == Seq::<Option<Seq<WeatherData>>>::empty(),
    {
        let r = Broadcaster { capacity, slots: Vec::new() };
        assert(r@ =~= Seq::<Option<Seq<WeatherData>>>::empty());
        r
    }

    /// Attaches a new listener; it receives what is published from now on, and
    /// nothing published before.
    pub fn subscribe(&mut self) -> (id: usize)
        requires
            old(self).wf(),
        ensures
            final(self).wf(),
            final(self).cap() == old(self).cap(),
            id == old(self)@.len(),
            final(self)@ == old(self)@.push(Some(Seq::<WeatherData>::empty())),
    {
        let id = self.slots.len();
        self.slots.push(Some(Vec::new()));
        assert(self@ =~= old(self)@.push(Some(Seq::<WeatherData>::empty())));
        id
    }

    /// Detaches a listener and drops what it had pending; other listeners are untouched.
    pub fn unsubscribe(&mut self, id: usize)
        requires
            old(self).wf(),
        ensures
            final(self).wf(),
            final(self).cap() == old(self).cap(),
            final(self)@ == if id < old(self)@.len() {
                old(self)@.update(id as int, None)
            } else {
                old(self)@
            },
    {
        if id < self.slots.len() {
            self.slots.set(id, None);
            assert(self@ =~= old(self)@.update(id as int, None));
        }
    }

    /// Hands `m` to every attached listener and returns how many there were; with no
    /// listener this does nothing.
    pub fn publish(&mut self, m: WeatherData) -> (delivered: usize)
        requires
            old(self).wf(),
        ensures
            final(self).wf(),
            final(self).cap() == old(self).cap(),
            final(self)@ == after_publish(old(self)@, m, old(self).cap()),
            delivered == attached_count(old(self)@),
    {
        let ghost before_view = self@;
        let n = self.slots.len();
        let mut delivered: usize = 0;
        let mut i: usize = 0;
        while i < n
            invariant
                n == self.slots@.len(),
                n == before_view.len(),
                i <= n,
                self.wf(),
                self.cap() == old(self).cap(),
                before_view == old(self)@,
                delivered == attached_count(before_view.subrange(0, i as int)),
                delivered <= i,
                forall|j: int| 0 <= j < i ==> #[trigger] self@[j] == after_publish(before_view, m, self.cap())[j],
                forall|j: int| i <= j < n ==> #[trigger] self@[j] == before_view[j],
            decreases n - i,
        {
            let ghost before_slot = before_view[i as int];
            assert(self@[i as int] == before_slot);
            let ghost pre = self.slots@;
            let ghost pre_view = self@;
            let mut slot: Option<Vec<WeatherData>> = None;
            core::mem::swap(&mut self.slots[i], &mut slot);
            assert(slot == pre[i as int]);
            assert(slot matches Some(q) ==> before_slot == Some(q@));
            assert(slot is None ==> before_slot is None);
            let refill = match slot {
                Some(mut q) => {
                    let ghost q0 = q@;
                    if q.len() >= self.capacity {
                        q.remove(0);
                        assert(q@ =~= q0.drop_first());
                    }
                    q.push(m);
                    assert(q@ == bounded_push(q0, m, self.cap()));
                    delivered = delivered + 1;
                    Some(q)
                },
                None => None,
            };
            self.slots.set(i, refill);
            proof {
                assert forall|j: int| 0 <= j < n && j != i implies #[trigger] self@[j] == pre_view[j] by {
                    assert(self.slots@[j] == pre[j]);
                }
                assert(self@[i as int] == after_publish(before_view, m, self.cap())[i as int]);
                assert(before_view.subrange(0, i as int + 1).drop_last() =~= before_view.subrange(0, i as int));
            }
            i = i + 1;
        }
        assert(self@ =~= after_publish(before_view, m, self.cap()));
        assert(before_view.subrange(0, n as int) =~= before_view);
        delivered
    }

    /// Takes the oldest measurement pending for listener `id`, if it has one.
    pub fn next(&mut self, id: usize) -> (r: Option<WeatherData>)
        requires
            old(self).wf(),
        ensures
            final(self).wf(),
            final(self).cap() == old(self).cap(),
            pending(old(self)@, id as int).len() > 0 ==> {
                &&& r == Some(pending(old(self)@, id as int)[0])
                &&& final(self)@ == old(self)@.update(
                    id as int,
                    Some(pending(old(self)@, id as int).drop_first()),
                )
            },
            pending(old(self)@, id as int).len() == 0 ==> r is None && final(self)@ == old(
                self,
            )@,
    {
        if id >= self.slots.len() {
            return None;
        }
        let mut slot: Option<Vec<WeatherData>> = None;
        core::mem::swap(&mut self.slots[id], &mut slot);
        let (refill, r) = match slot {
            Some(mut q) => {
                if q.len() > 0 {
                    let first = q.remove(0);
                    (Some(q), Some(first))
                } else {
                    (Some(q), None)
                }
            },
            None => (None, None),
        };
        self.slots.set(id, refill);
        proof {
            if r is Some {
                assert(self@ =~= old(self)@.update(id as int, Some(old(self)@[id as int].unwrap().drop_first())));
            } else {
                assert(self@ =~= old(self)@);
            }
        }
        r
    }
}

} // verus!
