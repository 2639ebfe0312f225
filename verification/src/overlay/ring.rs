//! The ring's bookkeeping: a fixed set of device slots streaming an endless
//! repetition of a layer order.
//!
//! One prefetcher claims schedule positions and lands payloads; consumers
//! reserve positions in order, take payloads, and release slots. Waiting is
//! the caller's.

use std::collections::VecDeque;
use vstd::prelude::*;

verus! {

/// What the prefetcher does next.
#[derive(Debug, Clone, Copy, PartialEq, Eq, Structural)]
pub enum Claim {
    /// The ring is shutting down: stop.
    Exit,
    /// Every slot is in use: wait for a release.
    Wait,
    /// Upload this layer for this schedule position.
    Upload { pos: u64, layer: usize },
}

/// What a consumer that waits for a position gets.
#[derive(Debug)]
pub enum Taken<P> {
    /// The payload.
    Landed(SlotGuard<P>),
    /// Not yet: wait.
    Wait,
    /// The prefetcher is gone and the position never landed.
    Gone,
}

/// One acquired payload and, through it, one ring slot.
#[derive(Debug)]
pub struct SlotGuard<P> {
    pub layer: usize,
    pub payload: P,
}

impl<P> SlotGuard<P> {
    /// The layer this payload belongs to.
    pub fn layer(&self) -> (r: usize)
        ensures
            r == self.layer,
    {
        self.layer
    }
}

/// The ring's state.
#[derive(Debug)]
pub struct RingState<P> {
    /// The per-token layer order, repeated indefinitely.
    pub order: Vec<usize>,
    /// Device slots.
    pub slots: usize,
    /// Landed but untaken payloads, in schedule order.
    pub ready: VecDeque<(u64, P)>,
    /// Next schedule position the prefetcher will claim.
    pub next_upload: u64,
    /// Next schedule position a consumer will reserve.
    pub next_acquire: u64,
    /// Slots in use: the upload in flight, landed payloads, guards out.
    pub occupied: usize,
    pub shutdown: bool,
    pub prefetcher_gone: bool,
    /// Is an upload in flight?
    pub in_flight: bool,
}

/// The two rings stream the same order over the same slots.
pub open spec fn same_ring<P>(before: RingState<P>, after: RingState<P>) -> bool {
    &&& after.order@ == before.order@
    &&& after.slots == before.slots
}

/// The two rings are as close to their end.
pub open spec fn same_end<P>(before: RingState<P>, after: RingState<P>) -> bool {
    &&& after.shutdown == before.shutdown
    &&& after.prefetcher_gone == before.prefetcher_gone
}

/// The prefetcher asks what to do: nothing more once the ring shuts down, to
/// wait while every slot is in use, else the layer at the next position,
/// whose slot is then spoken for.
pub open spec fn claims<P>(before: RingState<P>, r: Claim, after: RingState<P>) -> bool {
    &&& same_ring(before, after)
    &&& same_end(before, after)
    &&& after.ready@ == before.ready@
    &&& after.next_acquire == before.next_acquire
    &&& r == (if before.shutdown {
        Claim::Exit
    } else if before.occupied >= before.slots {
        Claim::Wait
    } else {
        Claim::Upload {
            pos: before.next_upload,
            layer: before.layer_at(before.next_upload as int),
        }
    })
    &&& after.in_flight == (r is Upload)
    &&& after.next_upload == before.next_upload + (if r is Upload {
        1int
    } else {
        0int
    })
    &&& after.occupied == before.occupied + (if r is Upload {
        1int
    } else {
        0int
    })
    &&& after.guards() == before.guards()
    &&& after.next_take() == before.next_take()
}

/// The upload in flight lands behind what has landed.
pub open spec fn lands<P>(before: RingState<P>, payload: P, after: RingState<P>) -> bool {
    &&& same_ring(before, after)
    &&& same_end(before, after)
    &&& !after.in_flight
    &&& after.ready@ == before.ready@.push(((before.next_upload - 1) as u64, payload))
    &&& after.next_upload == before.next_upload
    &&& after.next_acquire == before.next_acquire
    &&& after.occupied == before.occupied
    &&& after.guards() == before.guards()
    &&& after.next_take() == before.next_take()
}

/// A consumer asks for a layer: it gets the next position when the layer is
/// due there, and else nothing changes.
pub open spec fn reserves<P>(
    before: RingState<P>,
    layer: usize,
    r: Result<u64, (u64, usize)>,
    after: RingState<P>,
) -> bool {
    let pos = before.next_acquire;
    let due = before.layer_at(pos as int);
    &&& same_ring(before, after)
    &&& same_end(before, after)
    &&& after.ready@ == before.ready@
    &&& after.next_upload == before.next_upload
    &&& after.occupied == before.occupied
    &&& after.in_flight == before.in_flight
    &&& match r {
        Ok(p) => layer == due && p == pos && after.next_acquire == pos + 1,
        Err(e) => layer != due && e == (pos, due) && after.next_acquire == pos,
    }
}

/// A consumer takes a position: the payload when the position is the next to
/// be taken and has landed, and else nothing changes.
pub open spec fn takes<P>(
    before: RingState<P>,
    pos: u64,
    r: Taken<P>,
    after: RingState<P>,
) -> bool {
    &&& same_ring(before, after)
    &&& same_end(before, after)
    &&& after.next_upload == before.next_upload
    &&& after.next_acquire == before.next_acquire
    &&& after.occupied == before.occupied
    &&& after.in_flight == before.in_flight
    &&& match r {
        Taken::Landed(g) => {
            &&& before.ready@.len() > 0
            &&& before.next_take() == pos
            &&& before.ready@[0] == (pos, g.payload)
            &&& g.layer == before.layer_at(pos as int)
            &&& after.ready@ == before.ready@.subrange(1, before.ready@.len() as int)
            &&& after.guards() == before.guards() + 1
        },
        Taken::Wait => {
            &&& !(before.ready@.len() > 0 && before.next_take() == pos)
            &&& !before.prefetcher_gone
            &&& after.ready@ == before.ready@
        },
        Taken::Gone => {
            &&& !(before.ready@.len() > 0 && before.next_take() == pos)
            &&& before.prefetcher_gone
            &&& after.ready@ == before.ready@
        },
    }
}

/// One slot less is in use, and nothing else changes.
pub open spec fn releases<P>(before: RingState<P>, after: RingState<P>) -> bool {
    &&& same_ring(before, after)
    &&& same_end(before, after)
    &&& after.occupied == before.occupied - 1
    &&& after.guards() == before.guards() - 1
    &&& after.ready@ == before.ready@
    &&& after.next_upload == before.next_upload
    &&& after.next_acquire == before.next_acquire
    &&& after.in_flight == before.in_flight
}

/// What is scheduled, landed and in use stays.
pub open spec fn same_traffic<P>(before: RingState<P>, after: RingState<P>) -> bool {
    &&& same_ring(before, after)
    &&& after.ready@ == before.ready@
    &&& after.next_upload == before.next_upload
    &&& after.next_acquire == before.next_acquire
    &&& after.occupied == before.occupied
    &&& after.in_flight == before.in_flight
}

/// The ring is asked to stop.
pub open spec fn shuts_down<P>(before: RingState<P>, after: RingState<P>) -> bool {
    &&& same_traffic(before, after)
    &&& after.shutdown
    &&& after.prefetcher_gone == before.prefetcher_gone
}

/// The prefetcher is gone.
pub open spec fn retires<P>(before: RingState<P>, after: RingState<P>) -> bool {
    &&& same_traffic(before, after)
    &&& after.prefetcher_gone
    &&& after.shutdown == before.shutdown
}

impl<P> RingState<P> {
    /// The layer at a schedule position.
    pub open spec fn layer_at(self, pos: int) -> usize {
        self.order@[pos % self.order@.len() as int]
    }

    /// Uploads in flight: at most one.
    pub open spec fn flying(self) -> int {
        if self.in_flight {
            1
        } else {
            0
        }
    }

    /// The next position to be taken: everything before it was taken.
    pub open spec fn next_take(self) -> int {
        self.next_upload - self.flying() - self.ready@.len()
    }

    /// Guards out: occupied slots that hold neither a landed payload nor the
    /// upload in flight.
    pub open spec fn guards(self) -> int {
        self.occupied - self.ready@.len() - self.flying()
    }

    /// Never more slots in use than there are; what has landed are
    /// consecutive positions, from the next one to be taken on.
    pub open spec fn wf(self) -> bool {
        &&& self.slots >= 1
        &&& self.order@.len() >= 1
        &&& self.occupied <= self.slots
        &&& 0 <= self.guards() <= self.next_take()
        &&& self.next_take() <= self.next_acquire
        &&& forall|i: int|
            0 <= i < self.ready@.len() ==> (#[trigger] self.ready@[i]).0 == self.next_take() + i
    }

    /// Nothing has happened yet.
    pub open spec fn is_fresh(self) -> bool {
        &&& self.ready@.len() == 0
        &&& self.next_upload == 0
        &&& self.next_acquire == 0
        &&& self.occupied == 0
        &&& !self.shutdown
        &&& !self.prefetcher_gone
        &&& !self.in_flight
    }

    /// An empty ring over `order` with `slots` slots.
    pub fn new(slots: usize, order: Vec<usize>) -> (r: Self)
        requires
            slots >= 1,
            order@.len() >= 1,
        ensures
            r.wf(),
            r.is_fresh(),
            r.order@ == order@,
            r.slots == slots,
    {
        RingState {
            order,
            slots,
            ready: VecDeque::new(),
            next_upload: 0,
            next_acquire: 0,
            occupied: 0,
            shutdown: false,
            prefetcher_gone: false,
            in_flight: false,
        }
    }

    /// The layer at a schedule position.
    fn scheduled(&self, pos: u64) -> (r: usize)
        requires
            self.order@.len() >= 1,
        ensures
            r == self.layer_at(pos as int),
    {
        let i: u64 = pos % (self.order.len() as u64);
        self.order[i as usize]
    }

    /// The prefetcher's next step. A claimed slot is spoken for while the
    /// upload flies; the window only ever extends by the next position.
    pub fn claim(&mut self) -> (r: Claim)
        requires
            old(self).wf(),
            !old(self).in_flight,
            old(self).next_upload < u64::MAX,
        ensures
            final(self).wf(),
            claims(*old(self), r, *final(self)),
    {
        if self.shutdown {
            return Claim::Exit;
        }
        if self.occupied >= self.slots {
            return Claim::Wait;
        }
        let pos: u64 = self.next_upload;
        let layer: usize = self.scheduled(pos);
        self.next_upload = pos + 1;
        self.occupied = self.occupied + 1;
        self.in_flight = true;
        assert(self.ready@ == old(self).ready@);
        Claim::Upload { pos, layer }
    }

    /// The upload in flight has landed.
    pub fn land(&mut self, payload: P)
        requires
            old(self).wf(),
            old(self).in_flight,
            old(self).ready@.len() < usize::MAX,
        ensures
            final(self).wf(),
            lands(*old(self), payload, *final(self)),
    {
        let ghost before = self.ready@;
        let ghost first = self.next_take();
        let pos: u64 = self.next_upload - 1;
        self.in_flight = false;
        self.ready.push_back((pos, payload));
        proof {
            assert(self.ready@ == before.push((pos, payload)));
            assert forall|i: int| 0 <= i < self.ready@.len() implies (
            #[trigger] self.ready@[i]).0 == first + i by {
                if i < before.len() {
                    assert(self.ready@[i] == before[i]);
                }
            }
        }
    }

    /// Reserve the next schedule position for `layer`. The ring serves a
    /// known order: asking for another layer changes nothing and returns the
    /// position with the layer that is due there.
    pub fn reserve(&mut self, layer: usize) -> (r: Result<u64, (u64, usize)>)
        requires
            old(self).wf(),
            old(self).next_acquire < u64::MAX,
        ensures
            final(self).wf(),
            reserves(*old(self), layer, r, *final(self)),
    {
        let pos: u64 = self.next_acquire;
        let due: usize = self.scheduled(pos);
        if layer != due {
            return Err((pos, due));
        }
        self.next_acquire = pos + 1;
        assert(self.ready@ == old(self).ready@);
        Ok(pos)
    }

    /// Take the payload of a reserved position, if it is the next to be taken
    /// and has landed. Its slot stays in use until it is released.
    pub fn take(&mut self, pos: u64) -> (r: Taken<P>)
        requires
            old(self).wf(),
            pos < old(self).next_acquire,
        ensures
            final(self).wf(),
            takes(*old(self), pos, r, *final(self)),
    {
        let here: bool = if self.ready.len() > 0 {
            assert(self.ready@[0].0 == self.next_take());
            self.ready[0].0 == pos
        } else {
            false
        };
        if here {
            let ghost before = self.ready@;
            let ghost first = self.next_take();
            match self.ready.pop_front() {
                Some(front) => {
                    proof {
                        assert forall|i: int| 0 <= i < self.ready@.len() implies (
                        #[trigger] self.ready@[i]).0 == first + 1 + i by {
                            assert(self.ready@[i] == before[i + 1]);
                        }
                    }
                    let layer: usize = self.scheduled(pos);
                    return Taken::Landed(SlotGuard { layer, payload: front.1 });
                },
                None => {},
            }
        }
        if self.prefetcher_gone {
            Taken::Gone
        } else {
            Taken::Wait
        }
    }

    /// A guard was dropped, its payload first: the slot is free.
    pub fn release(&mut self)
        requires
            old(self).wf(),
            old(self).guards() >= 1,
        ensures
            final(self).wf(),
            releases(*old(self), *final(self)),
    {
        self.occupied = self.occupied - 1;
        assert(self.ready@ == old(self).ready@);
    }

    /// Ask the prefetcher to stop.
    pub fn shut_down(&mut self)
        requires
            old(self).wf(),
        ensures
            final(self).wf(),
            shuts_down(*old(self), *final(self)),
    {
        self.shutdown = true;
        assert(self.ready@ == old(self).ready@);
    }

    /// The prefetcher exited, cleanly or not: a consumer must not wait for it
    /// any more.
    pub fn retire(&mut self)
        requires
            old(self).wf(),
        ensures
            final(self).wf(),
            retires(*old(self), *final(self)),
    {
        self.prefetcher_gone = true;
        assert(self.ready@ == old(self).ready@);
    }

    /// At most `slots` layers' bytes are on the device at once, whatever the
    /// depth: landed payloads, guards out and the upload in flight together
    /// never exceed the slots.
    pub proof fn the_device_holds_at_most_the_slots(self)
        requires
            self.wf(),
        ensures
            self.ready@.len() + self.guards() + self.flying() <= self.slots,
    {
    }

    /// A consumer never starves while it holds fewer guards than there are
    /// slots: the position it waits for has landed, is in flight, or has a
    /// free slot to be claimed for.
    pub proof fn a_free_slot_is_always_on_its_way(self)
        requires
            self.wf(),
            self.guards() < self.slots,
        ensures
            self.ready@.len() > 0 || self.in_flight || self.occupied < self.slots,
    {
    }
}

/// One thing that happens to a ring.
pub enum Event<P> {
    Claimed(Claim),
    Landed(P),
    Reserved { layer: usize, answer: Result<u64, (u64, usize)> },
    Took { pos: u64, got: Taken<P> },
    Released,
    ShutDown,
    Retired,
}

/// Does `e` lead from one state to the next, where it may happen?
pub open spec fn happens<P>(before: RingState<P>, e: Event<P>, after: RingState<P>) -> bool {
    match e {
        Event::Claimed(r) => !before.in_flight && claims(before, r, after),
        Event::Landed(payload) => before.in_flight && lands(before, payload, after),
        Event::Reserved { layer, answer } => reserves(before, layer, answer, after),
        Event::Took { pos, got } => pos < before.next_acquire && takes(before, pos, got, after),
        Event::Released => before.guards() >= 1 && releases(before, after),
        Event::ShutDown => shuts_down(before, after),
        Event::Retired => retires(before, after),
    }
}

/// A ring's life: its states from a fresh one on, and what happened between
/// one and the next.
pub open spec fn is_life<P>(states: Seq<RingState<P>>, events: Seq<Event<P>>) -> bool {
    &&& states.len() == events.len() + 1
    &&& states[0].is_fresh()
    &&& forall|k: int| 0 <= k < states.len() ==> (#[trigger] states[k]).wf()
    &&& forall|k: int|
        0 <= k < events.len() ==> happens(states[k], #[trigger] events[k], states[k + 1])
}

/// The layers uploaded in the first `n` events, in order.
pub open spec fn uploads<P>(events: Seq<Event<P>>, n: nat) -> Seq<usize>
    decreases n,
{
    if n == 0 {
        Seq::empty()
    } else {
        let rest = uploads(events, (n - 1) as nat);
        match events[n - 1] {
            Event::Claimed(Claim::Upload { pos: _, layer }) => rest.push(layer),
            _ => rest,
        }
    }
}

/// The payloads landed in the first `n` events, in order: the `i`-th is what
/// the `i`-th upload gave.
pub open spec fn landings<P>(events: Seq<Event<P>>, n: nat) -> Seq<P>
    decreases n,
{
    if n == 0 {
        Seq::empty()
    } else {
        let rest = landings(events, (n - 1) as nat);
        match events[n - 1] {
            Event::Landed(payload) => rest.push(payload),
            _ => rest,
        }
    }
}

/// The layers reserved in the first `n` events, in order.
pub open spec fn reservations<P>(events: Seq<Event<P>>, n: nat) -> Seq<usize>
    decreases n,
{
    if n == 0 {
        Seq::empty()
    } else {
        let rest = reservations(events, (n - 1) as nat);
        match events[n - 1] {
            Event::Reserved { layer, answer: Ok(_) } => rest.push(layer),
            _ => rest,
        }
    }
}

/// The guards handed out in the first `n` events, in order.
pub open spec fn acquired<P>(events: Seq<Event<P>>, n: nat) -> Seq<SlotGuard<P>>
    decreases n,
{
    if n == 0 {
        Seq::empty()
    } else {
        let rest = acquired(events, (n - 1) as nat);
        match events[n - 1] {
            Event::Took { pos: _, got: Taken::Landed(g) } => rest.push(g),
            _ => rest,
        }
    }
}

/// The layers are those of the endless repetition of an order, from its start
/// on.
pub open spec fn follows(layers: Seq<usize>, order: Seq<usize>) -> bool {
    forall|i: int| 0 <= i < layers.len() ==> #[trigger] layers[i] == order[i % order.len() as int]
}

/// The guards in order: the `i`-th is for the layer at position `i` of the
/// endless repetition, with the payload that landed there.
pub open spec fn serves_in_order<P>(
    guards: Seq<SlotGuard<P>>,
    payloads: Seq<P>,
    order: Seq<usize>,
) -> bool {
    &&& guards.len() <= payloads.len()
    &&& forall|i: int|
        0 <= i < guards.len() ==> (#[trigger] guards[i]).layer == order[i % order.len() as int]
            && guards[i].payload == payloads[i]
}

/// Where a life stands after `n` events.
spec fn stands<P>(states: Seq<RingState<P>>, events: Seq<Event<P>>, n: nat) -> bool {
    let s = states[n as int];
    let order = states[0].order@;
    let landed = landings(events, n);
    &&& same_ring(states[0], s)
    &&& uploads(events, n).len() == s.next_upload
    &&& follows(uploads(events, n), order)
    &&& landed.len() == s.next_upload - s.flying()
    &&& reservations(events, n).len() == s.next_acquire
    &&& follows(reservations(events, n), order)
    &&& acquired(events, n).len() == s.next_take()
    &&& serves_in_order(acquired(events, n), landed, order)
    &&& forall|i: int|
        0 <= i < s.ready@.len() ==> (#[trigger] s.ready@[i]).1 == landed[s.next_take() + i]
}

/// Every event keeps the order.
proof fn lemma_stands<P>(states: Seq<RingState<P>>, events: Seq<Event<P>>, n: nat)
    requires
        is_life(states, events),
        n <= events.len(),
    ensures
        stands(states, events, n),
    decreases n,
{
    if n > 0 {
        let m = (n - 1) as nat;
        lemma_stands(states, events, m);
        let a = states[m as int];
        let b = states[n as int];
        let e = events[m as int];
        assert(a.wf() && b.wf());
        assert(happens(a, e, b));
        let landed = landings(events, m);
        match e {
            Event::Landed(payload) => {
                assert forall|i: int| 0 <= i < b.ready@.len() implies (#[trigger] b.ready@[i]).1
                    == landings(events, n)[b.next_take() + i] by {
                    if i < a.ready@.len() {
                        assert(b.ready@[i] == a.ready@[i]);
                    }
                }
            },
            Event::Took { pos, got } => {
                if let Taken::Landed(g) = got {
                    assert(a.ready@[0].1 == landed[a.next_take()]);
                    assert forall|i: int| 0 <= i < b.ready@.len() implies (
                    #[trigger] b.ready@[i]).1 == landed[b.next_take() + i] by {
                        assert(b.ready@[i] == a.ready@[i + 1]);
                    }
                }
            },
            _ => {},
        }
    }
}

/// What the ring is for, over every wrap of the order: the `i`-th acquire
/// reserves position `i`, its guard is for the layer that the order has
/// there, and holds what landed from the `i`-th upload, which was of that
/// layer. Never are more than `slots` payloads alive or on their way.
pub proof fn acquires_follow_the_order<P>(
    states: Seq<RingState<P>>,
    events: Seq<Event<P>>,
    n: nat,
)
    requires
        is_life(states, events),
        n <= events.len(),
    ensures
        follows(uploads(events, n), states[0].order@),
        follows(reservations(events, n), states[0].order@),
        serves_in_order(acquired(events, n), landings(events, n), states[0].order@),
        landings(events, n).len() <= uploads(events, n).len(),
        acquired(events, n).len() <= reservations(events, n).len(),
        states[n as int].ready@.len() + states[n as int].guards() + states[n as int].flying()
            <= states[0].slots,
{
    lemma_stands(states, events, n);
    assert(states[n as int].wf());
}

/// A request is refused exactly when another layer is due: after `i`
/// reservations only the layer at position `i` of the endless repetition is
/// given one, and it is position `i`.
pub proof fn only_the_due_layer_is_reserved<P>(
    states: Seq<RingState<P>>,
    events: Seq<Event<P>>,
    k: int,
)
    requires
        is_life(states, events),
        0 <= k < events.len(),
        events[k] is Reserved,
    ensures
        ({
            let i = reservations(events, k as nat).len() as int;
            let due = states[0].order@[i % states[0].order@.len() as int];
            match events[k]->answer {
                Ok(pos) => events[k]->layer == due && pos == i,
                Err(e) => events[k]->layer != due && e.0 == i && e.1 == due,
            }
        }),
{
    lemma_stands(states, events, k as nat);
    assert(happens(states[k], events[k], states[k + 1]));
}

/// A payload is handed out exactly when its position is the next and it has
/// landed: after `i` acquires a reserved position gets its guard when it is
/// position `i` and more than `i` payloads have landed.
pub proof fn a_landed_position_is_handed_out<P>(
    states: Seq<RingState<P>>,
    events: Seq<Event<P>>,
    k: int,
)
    requires
        is_life(states, events),
        0 <= k < events.len(),
        events[k] is Took,
    ensures
        ({
            let i = acquired(events, k as nat).len();
            (events[k]->got is Landed) == (events[k]->pos == i && landings(
                events,
                k as nat,
            ).len() > i)
        }),
{
    lemma_stands(states, events, k as nat);
    assert(happens(states[k], events[k], states[k + 1]));
}

} // verus!
