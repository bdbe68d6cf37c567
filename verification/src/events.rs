//! The typed event bus: per-kind FIFO queues with frame-bounded visibility.
//!
//! Every event kind has at most one queue, created lazily on first post.
//! A queue is double buffered: events posted since the last maintenance
//! update sit in the front buffer, events posted in the window before that
//! in the back buffer.  A maintenance update moves the front buffer to the
//! back and drops what the back held, so an event stays readable until the
//! second update after it was posted.  Non-consuming readers track how many
//! events a queue has ever accepted and only see events posted past their
//! cursor; a consuming drain empties both buffers at once.

use vstd::prelude::*;

use crate::window::WindowId;

verus! {

/// One event of the runtime.  Events are plain values; the queues they
/// travel through are chosen by their kind.
#[derive(Debug, Copy, Clone, PartialEq, Eq, Structural)]
pub enum RuntimeEvent {
    /// Ask the lifecycle machine to create a window under this identifier.
    Create { window_id: WindowId },
    /// The window's draw bounds changed; its surface must be looked at.
    Resize { window_id: WindowId, entity: u64 },
    /// Present the entity's surface onto its window.
    Repaint { entity: u64 },
    /// Tear the entity's window down.
    Destroy { entity: u64 },
    /// The user asked the entity's window to close.
    CloseRequested { entity: u64 },
    /// The application asks the runtime to stop.
    Shutdown,
    /// A window behavior asks the event loop to stop.
    ShutdownEventLoop,
}

/// The tag that names one event queue.
#[derive(Debug, Copy, Clone, PartialEq, Eq, Structural)]
pub enum EventKind {
    Create,
    Resize,
    Repaint,
    Destroy,
    CloseRequested,
    Shutdown,
    ShutdownEventLoop,
}

/// The queue an event travels through.
pub open spec fn kind_of(e: RuntimeEvent) -> EventKind {
    match e {
        RuntimeEvent::Create { .. } => EventKind::Create,
        RuntimeEvent::Resize { .. } => EventKind::Resize,
        RuntimeEvent::Repaint { .. } => EventKind::Repaint,
        RuntimeEvent::Destroy { .. } => EventKind::Destroy,
        RuntimeEvent::CloseRequested { .. } => EventKind::CloseRequested,
        RuntimeEvent::Shutdown => EventKind::Shutdown,
        RuntimeEvent::ShutdownEventLoop => EventKind::ShutdownEventLoop,
    }
}

/// Computes the queue tag of an event.
pub fn event_kind(e: &RuntimeEvent) -> (k: EventKind)
    ensures
        k == kind_of(*e),
{
    match e {
        RuntimeEvent::Create { .. } => EventKind::Create,
        RuntimeEvent::Resize { .. } => EventKind::Resize,
        RuntimeEvent::Repaint { .. } => EventKind::Repaint,
        RuntimeEvent::Destroy { .. } => EventKind::Destroy,
        RuntimeEvent::CloseRequested { .. } => EventKind::CloseRequested,
        RuntimeEvent::Shutdown => EventKind::Shutdown,
        RuntimeEvent::ShutdownEventLoop => EventKind::ShutdownEventLoop,
    }
}

/// The mathematical state of one queue.
///
/// `total` counts every event the queue has ever accepted; it gives each
/// event a position.  The buffered events are the last
/// `back.len() + front.len()` positions, back buffer first.
pub struct QueueModel {
    pub kind: EventKind,
    pub back: Seq<RuntimeEvent>,
    pub front: Seq<RuntimeEvent>,
    pub total: nat,
}

impl QueueModel {
    /// An empty queue for one kind.
    pub open spec fn empty(kind: EventKind) -> QueueModel {
        QueueModel { kind, back: Seq::empty(), front: Seq::empty(), total: 0 }
    }

    /// Every event still buffered, oldest first.
    pub open spec fn buffered(self) -> Seq<RuntimeEvent> {
        self.back + self.front
    }

    /// The position of the oldest buffered event.
    pub open spec fn first_position(self) -> int {
        self.total - self.buffered().len()
    }

    /// A queue is well formed when its position count covers its buffers
    /// and every buffered event belongs to it.
    pub open spec fn wf(self) -> bool {
        &&& self.buffered().len() <= self.total
        &&& self.total <= usize::MAX
        &&& forall|i: int|
            0 <= i < self.buffered().len() ==> kind_of(#[trigger] self.buffered()[i]) == self.kind
    }

    /// Posting appends to the front buffer.
    pub open spec fn post(self, e: RuntimeEvent) -> QueueModel {
        QueueModel { front: self.front.push(e), total: self.total + 1, ..self }
    }

    /// A maintenance update drops the back buffer and moves the front
    /// buffer into its place.
    pub open spec fn update(self) -> QueueModel {
        QueueModel { back: self.front, front: Seq::empty(), ..self }
    }

    /// A consuming drain empties both buffers.
    pub open spec fn drained(self) -> QueueModel {
        QueueModel { back: Seq::empty(), front: Seq::empty(), ..self }
    }

    /// What a reader whose cursor is `cursor` sees: the buffered events
    /// whose position is at least the cursor, oldest first.
    pub open spec fn visible_from(self, cursor: nat) -> Seq<RuntimeEvent> {
        if cursor <= self.first_position() {
            self.buffered()
        } else if cursor <= self.total {
            self.buffered().skip(cursor - self.first_position())
        } else {
            Seq::empty()
        }
    }
}

/// An event posted while the queue is in state `m` is visible to any
/// reader whose cursor does not pass it, stays visible through one
/// maintenance update, and is gone after the second: the oldest position
/// still buffered then lies past it.
pub proof fn lemma_two_update_visibility(m: QueueModel, e: RuntimeEvent, cursor: nat)
    requires
        m.wf(),
        cursor <= m.total,
    ensures
        ({
            let posted = m.post(e);
            let once = posted.update();
            let twice = once.update();
            &&& posted.visible_from(cursor).contains(e)
            &&& once.visible_from(cursor).contains(e)
            &&& twice.first_position() > m.total
            &&& twice.total == m.total + 1
        }),
{
    let posted = m.post(e);
    let once = posted.update();
    let twice = once.update();
    assert(posted.buffered() =~= m.buffered().push(e));
    assert(posted.visible_from(cursor)[posted.visible_from(cursor).len() - 1] == e);
    assert(once.buffered() =~= posted.front);
    assert(once.buffered()[once.buffered().len() - 1] == e);
    assert(once.first_position() <= m.total);
    assert(once.visible_from(cursor)[once.visible_from(cursor).len() - 1] == e);
    assert(twice.buffered() =~= Seq::<RuntimeEvent>::empty());
}

/// Posting extends what a reader sees by exactly the posted event,
/// wherever within the queue's history the reader stands.
pub proof fn lemma_post_extends_visibility(q: QueueModel, e: RuntimeEvent, cursor: nat)
    requires
        q.wf(),
        cursor <= q.total,
    ensures
        q.post(e).visible_from(cursor) == q.visible_from(cursor).push(e),
{
    let p = q.post(e);
    assert(p.buffered() =~= q.buffered().push(e));
    assert(p.first_position() == q.first_position());
    if cursor <= q.first_position() {
        assert(p.visible_from(cursor) =~= q.visible_from(cursor).push(e));
    } else {
        let k = cursor - q.first_position();
        assert(p.visible_from(cursor) == p.buffered().skip(k));
        assert forall|j: int|
            0 <= j < p.buffered().skip(k).len() implies p.buffered().skip(k)[j] == q.buffered()
            .skip(k)
            .push(e)[j] by {
            if j < q.buffered().len() - k {
                assert(p.buffered()[k + j] == q.buffered()[k + j]);
            } else {
                assert(p.buffered()[k + j] == e);
            }
        }
        assert(p.visible_from(cursor) =~= q.visible_from(cursor).push(e));
    }
}

/// One double-buffered FIFO queue for a single event kind.
pub struct EventQueue {
    kind: EventKind,
    back: Vec<RuntimeEvent>,
    front: Vec<RuntimeEvent>,
    total: u64,
}

impl View for EventQueue {
    type V = QueueModel;

    closed spec fn view(&self) -> QueueModel {
        QueueModel { kind: self.kind, back: self.back@, front: self.front@, total: self.total as nat }
    }
}

impl EventQueue {
    /// An empty queue for one kind.
    pub fn new(kind: EventKind) -> (q: EventQueue)
        ensures
            q@ == QueueModel::empty(kind),
            q@.wf(),
    {
        let q = EventQueue { kind, back: Vec::new(), front: Vec::new(), total: 0 };
        proof {
            assert(q@.buffered() =~= Seq::<RuntimeEvent>::empty());
            assert(q@ =~= QueueModel::empty(kind));
        }
        q
    }

    /// The tag of the events this queue carries.
    pub fn kind(&self) -> (k: EventKind)
        ensures
            k == self@.kind,
    {
        self.kind
    }

    /// Appends one event.
    pub fn post(&mut self, e: RuntimeEvent)
        requires
            old(self)@.wf(),
            kind_of(e) == old(self)@.kind,
            old(self)@.total < usize::MAX,
        ensures
            final(self)@ == old(self)@.post(e),
            final(self)@.wf(),
    {
        self.front.push(e);
        self.total = self.total + 1;
        proof {
            assert(self@.buffered() =~= old(self)@.buffered().push(e));
        }
    }

    /// Runs one maintenance update: what the back buffer held expires and
    /// the front buffer takes its place.
    pub fn update(&mut self)
        requires
            old(self)@.wf(),
        ensures
            final(self)@ == old(self)@.update(),
            final(self)@.wf(),
    {
        let mut fresh: Vec<RuntimeEvent> = Vec::new();
        core::mem::swap(&mut self.front, &mut fresh);
        self.back = fresh;
        proof {
            assert(self@.buffered() =~= old(self)@.front);
            assert forall|i: int| 0 <= i < self@.buffered().len() implies kind_of(
                #[trigger] self@.buffered()[i],
            ) == self@.kind by {
                assert(self@.buffered()[i] == old(self)@.buffered()[old(self)@.back.len() + i]);
            }
        }
    }

    /// Takes every buffered event out of the queue, oldest first.
    pub fn drain(&mut self) -> (events: Vec<RuntimeEvent>)
        requires
            old(self)@.wf(),
        ensures
            events@ == old(self)@.buffered(),
            final(self)@ == old(self)@.drained(),
            final(self)@.wf(),
    {
        let mut events: Vec<RuntimeEvent> = Vec::new();
        core::mem::swap(&mut self.back, &mut events);
        let mut front: Vec<RuntimeEvent> = Vec::new();
        core::mem::swap(&mut self.front, &mut front);
        let mut i: usize = 0;
        while i < front.len()
            invariant
                i <= front.len(),
                events@ == old(self)@.back + front@.take(i as int),
                front@ == old(self)@.front,
            decreases front.len() - i,
        {
            events.push(front[i]);
            proof {
                assert(front@.take(i + 1) =~= front@.take(i as int).push(front@[i as int]));
            }
            i = i + 1;
        }
        proof {
            assert(front@.take(front@.len() as int) =~= front@);
            assert(self@.buffered() =~= Seq::<RuntimeEvent>::empty());
        }
        events
    }

    /// Reads, without consuming, every buffered event whose position is at
    /// least `cursor`, and reports the position a reader should continue
    /// from.
    pub fn read_from(&self, cursor: u64) -> (r: (Vec<RuntimeEvent>, u64))
        requires
            self@.wf(),
            cursor <= self@.total,
        ensures
            r.0@ == self@.visible_from(cursor as nat),
            r.1 == self@.total,
    {
        let buffered_len = self.back.len() + self.front.len();
        let first_position = self.total - (buffered_len as u64);
        let start: usize = if cursor <= first_position {
            0
        } else {
            (cursor - first_position) as usize
        };
        let ghost target = self@.visible_from(cursor as nat);
        proof {
            assert(self@.buffered() =~= self.back@ + self.front@);
            assert(target =~= self@.buffered().skip(start as int));
        }
        let mut events: Vec<RuntimeEvent> = Vec::new();
        let mut i: usize = start;
        while i < buffered_len
            invariant
                start <= i <= buffered_len,
                buffered_len == self@.buffered().len(),
                self@.wf(),
                buffered_len == self.back.len() + self.front.len(),
                events@ == self@.buffered().skip(start as int).take(i - start),
                target == self@.buffered().skip(start as int),
            decreases buffered_len - i,
        {
            let e = if i < self.back.len() {
                self.back[i]
            } else {
                self.front[i - self.back.len()]
            };
            proof {
                assert(e == self@.buffered()[i as int]);
                assert(self@.buffered().skip(start as int).take(i - start + 1) =~= self@.buffered()
                    .skip(start as int)
                    .take(i - start)
                    .push(self@.buffered()[i as int]));
            }
            events.push(e);
            i = i + 1;
        }
        proof {
            assert(events@ =~= self@.buffered().skip(start as int));
        }
        (events, self.total)
    }

    /// Whether no event is buffered.
    pub fn is_empty(&self) -> (r: bool)
        ensures
            r == (self@.buffered().len() == 0),
    {
        self.back.len() == 0 && self.front.len() == 0
    }

    /// How many events the queue has ever accepted.
    pub fn total_posted(&self) -> (n: u64)
        ensures
            n == self@.total,
    {
        self.total
    }
}

/// A bus is well formed when every queue is and no two queues share a
/// kind.
pub open spec fn bus_wf(bus: Seq<QueueModel>) -> bool {
    &&& forall|i: int| 0 <= i < bus.len() ==> (#[trigger] bus[i]).wf()
    &&& forall|i: int, j: int|
        0 <= i < bus.len() && 0 <= j < bus.len() && i != j ==> (#[trigger] bus[i]).kind != (
        #[trigger] bus[j]).kind
}

/// Whether the bus already holds a queue for this kind.
pub open spec fn bus_has(bus: Seq<QueueModel>, kind: EventKind) -> bool {
    exists|i: int| 0 <= i < bus.len() && (#[trigger] bus[i]).kind == kind
}

/// The position of the kind's queue on the bus.
pub open spec fn bus_index_of(bus: Seq<QueueModel>, kind: EventKind) -> int {
    choose|i: int| 0 <= i < bus.len() && (#[trigger] bus[i]).kind == kind
}

/// The kind's queue.
pub open spec fn bus_queue(bus: Seq<QueueModel>, kind: EventKind) -> QueueModel {
    bus[bus_index_of(bus, kind)]
}

/// On a well-formed bus a kind names at most one queue, so any position
/// holding the kind is the position of its queue.
pub proof fn lemma_bus_index_unique(bus: Seq<QueueModel>, i: int)
    requires
        bus_wf(bus),
        0 <= i < bus.len(),
    ensures
        bus_index_of(bus, bus[i].kind) == i,
{
    let kind = bus[i].kind;
    assert(bus_has(bus, kind));
    let j = bus_index_of(bus, kind);
    assert(0 <= j < bus.len() && bus[j].kind == kind);
}

/// Posting an event: the queue of its kind accepts it, registered first
/// if the bus did not hold it yet.
pub open spec fn bus_post(bus: Seq<QueueModel>, e: RuntimeEvent) -> Seq<QueueModel> {
    let kind = kind_of(e);
    if bus_has(bus, kind) {
        bus.update(bus_index_of(bus, kind), bus_queue(bus, kind).post(e))
    } else {
        bus.push(QueueModel::empty(kind).post(e))
    }
}

/// A maintenance update of one kind's queue; a kind without a queue is
/// left alone.
pub open spec fn bus_update_kind(bus: Seq<QueueModel>, kind: EventKind) -> Seq<QueueModel> {
    if bus_has(bus, kind) {
        bus.update(bus_index_of(bus, kind), bus_queue(bus, kind).update())
    } else {
        bus
    }
}

/// A consuming drain of one kind's queue.
pub open spec fn bus_drain_kind(bus: Seq<QueueModel>, kind: EventKind) -> Seq<QueueModel> {
    if bus_has(bus, kind) {
        bus.update(bus_index_of(bus, kind), bus_queue(bus, kind).drained())
    } else {
        bus
    }
}

/// Whether the kind's queue can still accept an event: it either does
/// not exist yet or has not reached the position limit.
pub open spec fn bus_can_post(bus: Seq<QueueModel>, kind: EventKind) -> bool {
    bus_has(bus, kind) ==> bus_queue(bus, kind).total < usize::MAX
}

/// Registering a kind: a no-op when its queue already exists, so lazy
/// registration is idempotent per kind.
pub open spec fn bus_register(bus: Seq<QueueModel>, kind: EventKind) -> Seq<QueueModel> {
    if bus_has(bus, kind) {
        bus
    } else {
        bus.push(QueueModel::empty(kind))
    }
}

/// How posting changes the bus, seen from any kind: the posted kind's
/// queue exists afterwards and has grown by the event; every other
/// queue is untouched.
pub proof fn lemma_bus_post_effect(bus: Seq<QueueModel>, e: RuntimeEvent, k: EventKind)
    requires
        bus_wf(bus),
    ensures
        k != kind_of(e) ==> bus_has(bus_post(bus, e), k) == bus_has(bus, k),
        k != kind_of(e) && bus_has(bus, k) ==> bus_queue(bus_post(bus, e), k) == bus_queue(bus, k),
        bus_has(bus_post(bus, e), kind_of(e)),
        bus_queue(bus_post(bus, e), kind_of(e)) == (if bus_has(bus, kind_of(e)) {
            bus_queue(bus, kind_of(e)).post(e)
        } else {
            QueueModel::empty(kind_of(e)).post(e)
        }),
{
    let post = bus_post(bus, e);
    let ek = kind_of(e);
    if bus_has(bus, ek) {
        let i = bus_index_of(bus, ek);
        assert(0 <= i < bus.len() && bus[i].kind == ek);
        assert(post[i].kind == ek);
        assert(bus_has(post, ek));
        assert forall|j: int| 0 <= j < post.len() && (#[trigger] post[j]).kind == ek implies j
            == i by {
            if j != i {
                assert(post[j] == bus[j]);
            }
        }
        assert(bus_index_of(post, ek) == i);
        if k != ek && bus_has(bus, k) {
            let m = bus_index_of(bus, k);
            assert(post[m] == bus[m]);
            assert(bus_has(post, k));
            assert forall|j: int| 0 <= j < post.len() && (#[trigger] post[j]).kind == k implies j
                == m by {
                if j != m {
                    if j == i {
                        assert(post[j].kind == ek);
                    } else {
                        assert(post[j] == bus[j]);
                    }
                }
            }
            assert(bus_index_of(post, k) == m);
        }
        if k != ek && !bus_has(bus, k) {
            assert forall|j: int| 0 <= j < post.len() implies (#[trigger] post[j]).kind != k by {
                if j == i {
                    assert(post[j].kind == ek);
                } else {
                    assert(post[j] == bus[j]);
                }
            }
        }
    } else {
        let i = bus.len() as int;
        assert(post[i].kind == ek);
        assert(bus_has(post, ek));
        assert forall|j: int| 0 <= j < post.len() && (#[trigger] post[j]).kind == ek implies j
            == i by {
            if j != i {
                assert(post[j] == bus[j]);
                assert(bus_has(bus, ek));
            }
        }
        assert(bus_index_of(post, ek) == i);
        if k != ek && bus_has(bus, k) {
            let m = bus_index_of(bus, k);
            assert(post[m] == bus[m]);
            assert(bus_has(post, k));
            assert forall|j: int| 0 <= j < post.len() && (#[trigger] post[j]).kind == k implies j
                == m by {
                if j != m {
                    if j == i {
                    } else {
                        assert(post[j] == bus[j]);
                    }
                }
            }
            assert(bus_index_of(post, k) == m);
        }
        if k != ek && !bus_has(bus, k) {
            assert forall|j: int| 0 <= j < post.len() implies (#[trigger] post[j]).kind != k by {
                if j != i {
                    assert(post[j] == bus[j]);
                }
            }
        }
    }
}

/// Posting onto a well-formed bus with room leaves it well formed.
pub proof fn lemma_bus_post_wf(bus: Seq<QueueModel>, e: RuntimeEvent)
    requires
        bus_wf(bus),
        bus_can_post(bus, kind_of(e)),
    ensures
        bus_wf(bus_post(bus, e)),
{
    let post = bus_post(bus, e);
    let ek = kind_of(e);
    if bus_has(bus, ek) {
        let i = bus_index_of(bus, ek);
        assert(0 <= i < bus.len() && bus[i].kind == ek);
        let q = bus[i].post(e);
        assert(q.buffered() =~= bus[i].buffered().push(e));
        assert(q.wf());
        assert forall|j: int| 0 <= j < post.len() implies (#[trigger] post[j]).wf() by {
            if j != i {
                assert(post[j] == bus[j]);
            }
        }
        assert forall|a: int, b: int|
            0 <= a < post.len() && 0 <= b < post.len() && a != b implies (
        #[trigger] post[a]).kind != (#[trigger] post[b]).kind by {
            assert(post[a].kind == bus[a].kind);
            assert(post[b].kind == bus[b].kind);
        }
    } else {
        let q = QueueModel::empty(ek).post(e);
        assert(q.buffered() =~= Seq::<RuntimeEvent>::empty().push(e));
        assert(q.wf());
        assert forall|j: int| 0 <= j < post.len() implies (#[trigger] post[j]).wf() by {
            if j < bus.len() {
                assert(post[j] == bus[j]);
            }
        }
        assert forall|a: int, b: int|
            0 <= a < post.len() && 0 <= b < post.len() && a != b implies (
        #[trigger] post[a]).kind != (#[trigger] post[b]).kind by {
            if a < bus.len() && b < bus.len() {
            } else if a == bus.len() {
                assert(post[a].kind == ek);
                assert(post[b] == bus[b]);
            } else {
                assert(post[b].kind == ek);
                assert(post[a] == bus[a]);
            }
        }
    }
}

/// How a maintenance update or a drain of one kind changes the bus: the
/// kind's queue keeps its position count, and every other queue is
/// untouched.  Both operations replace the kind's queue in place.
pub proof fn lemma_bus_replace_effect(bus: Seq<QueueModel>, kind: EventKind, k: EventKind)
    requires
        bus_wf(bus),
    ensures
        bus_has(bus_update_kind(bus, kind), k) == bus_has(bus, k),
        bus_has(bus_drain_kind(bus, kind), k) == bus_has(bus, k),
        k != kind && bus_has(bus, k) ==> bus_queue(bus_update_kind(bus, kind), k) == bus_queue(
            bus,
            k,
        ) && bus_queue(bus_drain_kind(bus, kind), k) == bus_queue(bus, k),
        k == kind && bus_has(bus, k) ==> bus_queue(bus_update_kind(bus, kind), k) == bus_queue(
            bus,
            k,
        ).update() && bus_queue(bus_drain_kind(bus, kind), k) == bus_queue(bus, k).drained(),
{
    if bus_has(bus, kind) {
        let i = bus_index_of(bus, kind);
        assert(0 <= i < bus.len() && bus[i].kind == kind);
        let up = bus_update_kind(bus, kind);
        let dr = bus_drain_kind(bus, kind);
        assert(up[i].kind == kind);
        assert(dr[i].kind == kind);
        assert forall|j: int| 0 <= j < bus.len() && j != i implies up[j] == bus[j] && dr[j]
            == bus[j] by {}
        if bus_has(bus, k) {
            let m = bus_index_of(bus, k);
            assert(0 <= m < bus.len() && bus[m].kind == k);
            assert(up[m].kind == k && dr[m].kind == k);
            assert(bus_has(up, k) && bus_has(dr, k));
            assert forall|j: int| 0 <= j < up.len() && (#[trigger] up[j]).kind == k implies j
                == m by {
                if j != i {
                    assert(up[j] == bus[j]);
                } else {
                    assert(up[j].kind == kind && bus[j].kind == kind);
                }
            }
            assert forall|j: int| 0 <= j < dr.len() && (#[trigger] dr[j]).kind == k implies j
                == m by {
                if j != i {
                    assert(dr[j] == bus[j]);
                } else {
                    assert(dr[j].kind == kind && bus[j].kind == kind);
                }
            }
            assert(bus_index_of(up, k) == m);
            assert(bus_index_of(dr, k) == m);
        } else {
            assert forall|j: int| 0 <= j < up.len() implies (#[trigger] up[j]).kind != k by {
                if j != i {
                    assert(up[j] == bus[j]);
                }
            }
            assert forall|j: int| 0 <= j < dr.len() implies (#[trigger] dr[j]).kind != k by {
                if j != i {
                    assert(dr[j] == bus[j]);
                }
            }
        }
    }
}

/// How registering a kind changes the bus: its queue exists afterwards,
/// empty if it did not exist before, and every other queue is untouched.
pub proof fn lemma_bus_register_effect(bus: Seq<QueueModel>, kind: EventKind, k: EventKind)
    requires
        bus_wf(bus),
    ensures
        bus_wf(bus_register(bus, kind)),
        bus_has(bus_register(bus, kind), k) == (bus_has(bus, k) || k == kind),
        bus_has(bus, k) ==> bus_queue(bus_register(bus, kind), k) == bus_queue(bus, k),
        !bus_has(bus, kind) ==> bus_queue(bus_register(bus, kind), kind) == QueueModel::empty(
            kind,
        ),
{
    if !bus_has(bus, kind) {
        let reg = bus_register(bus, kind);
        let i = bus.len() as int;
        assert(reg[i] == QueueModel::empty(kind));
        assert(QueueModel::empty(kind).buffered() =~= Seq::<RuntimeEvent>::empty());
        assert forall|j: int| 0 <= j < reg.len() implies (#[trigger] reg[j]).wf() by {
            if j < bus.len() {
                assert(reg[j] == bus[j]);
            }
        }
        assert forall|a: int, b: int|
            0 <= a < reg.len() && 0 <= b < reg.len() && a != b implies (#[trigger] reg[a]).kind
            != (#[trigger] reg[b]).kind by {
            if a < bus.len() && b < bus.len() {
            } else if a == bus.len() {
                assert(reg[b] == bus[b]);
                assert(!bus_has(bus, kind));
            } else {
                assert(reg[a] == bus[a]);
                assert(!bus_has(bus, kind));
            }
        }
        assert(bus_has(reg, kind));
        assert forall|j: int| 0 <= j < reg.len() && (#[trigger] reg[j]).kind == kind implies j
            == i by {
            if j != i {
                assert(reg[j] == bus[j]);
            }
        }
        assert(bus_index_of(reg, kind) == i);
        if bus_has(bus, k) {
            let m = bus_index_of(bus, k);
            assert(reg[m] == bus[m]);
            assert(bus_has(reg, k));
            assert forall|j: int| 0 <= j < reg.len() && (#[trigger] reg[j]).kind == k implies j
                == m by {
                if j < bus.len() {
                    assert(reg[j] == bus[j]);
                } else {
                    assert(reg[j].kind == kind);
                }
            }
            assert(bus_index_of(reg, k) == m);
        }
        if !bus_has(bus, k) && k != kind {
            assert forall|j: int| 0 <= j < reg.len() implies (#[trigger] reg[j]).kind != k by {
                if j < bus.len() {
                    assert(reg[j] == bus[j]);
                }
            }
        }
    }
}

/// Every queue on the bus can still accept `n` more events before the
/// position limit.
pub open spec fn bus_headroom(bus: Seq<QueueModel>, n: nat) -> bool {
    forall|i: int| 0 <= i < bus.len() ==> (#[trigger] bus[i]).total + n <= usize::MAX
}

/// Headroom only shrinks as less is asked of it.
pub proof fn lemma_headroom_monotone(bus: Seq<QueueModel>, n: nat, m: nat)
    requires
        bus_headroom(bus, n),
        m <= n,
    ensures
        bus_headroom(bus, m),
{
}

/// A bus with headroom for at least one event can accept a post of any
/// kind.
pub proof fn lemma_headroom_can_post(bus: Seq<QueueModel>, kind: EventKind, n: nat)
    requires
        bus_wf(bus),
        bus_headroom(bus, n),
        1 <= n,
    ensures
        bus_can_post(bus, kind),
{
    if bus_has(bus, kind) {
        let i = bus_index_of(bus, kind);
        assert(bus[i].total + n <= usize::MAX);
    }
}

/// One post costs at most one unit of every queue's headroom.
pub proof fn lemma_bus_post_headroom(bus: Seq<QueueModel>, e: RuntimeEvent, n: nat)
    requires
        bus_wf(bus),
        bus_headroom(bus, n),
        1 <= n <= usize::MAX,
    ensures
        bus_headroom(bus_post(bus, e), (n - 1) as nat),
{
    let post = bus_post(bus, e);
    if bus_has(bus, kind_of(e)) {
        let i = bus_index_of(bus, kind_of(e));
        assert forall|j: int| 0 <= j < post.len() implies (#[trigger] post[j]).total + (n - 1)
            <= usize::MAX by {
            if j == i {
                assert(bus[i].total + n <= usize::MAX);
            } else {
                assert(post[j] == bus[j]);
            }
        }
    } else {
        assert forall|j: int| 0 <= j < post.len() implies (#[trigger] post[j]).total + (n - 1)
            <= usize::MAX by {
            if j < bus.len() {
                assert(post[j] == bus[j]);
            } else {
                assert(post[j].total == 1);
            }
        }
    }
}

/// Registering costs no headroom: a fresh queue starts empty.
pub proof fn lemma_bus_register_headroom(bus: Seq<QueueModel>, kind: EventKind, n: nat)
    requires
        bus_headroom(bus, n),
        n <= usize::MAX,
    ensures
        bus_headroom(bus_register(bus, kind), n),
{
    let reg = bus_register(bus, kind);
    if !bus_has(bus, kind) {
        assert forall|j: int| 0 <= j < reg.len() implies (#[trigger] reg[j]).total + n
            <= usize::MAX by {
            if j < bus.len() {
                assert(reg[j] == bus[j]);
            } else {
                assert(reg[j].total == 0);
            }
        }
    }
}

/// The typed event bus: one lazily registered queue per event kind.
pub struct EventBus {
    queues: Vec<EventQueue>,
}

impl View for EventBus {
    type V = Seq<QueueModel>;

    closed spec fn view(&self) -> Seq<QueueModel> {
        Seq::new(self.queues@.len(), |i: int| self.queues@[i]@)
    }
}

impl EventBus {
    /// A bus with no queues yet.
    pub fn new() -> (bus: EventBus)
        ensures
            bus@ == Seq::<QueueModel>::empty(),
            bus_wf(bus@),
    {
        let bus = EventBus { queues: Vec::new() };
        proof {
            assert(bus@ =~= Seq::<QueueModel>::empty());
        }
        bus
    }

    /// Where the kind's queue sits, if it was ever registered.
    fn find_queue(&self, kind: EventKind) -> (r: Option<usize>)
        requires
            bus_wf(self@),
        ensures
            match r {
                Some(i) => i < self@.len() && self@[i as int].kind == kind && bus_has(self@, kind)
                    && bus_index_of(self@, kind) == i,
                None => !bus_has(self@, kind),
            },
    {
        let n = self.queues.len();
        let mut i: usize = 0;
        while i < n
            invariant
                i <= n,
                n == self.queues.len(),
                bus_wf(self@),
                forall|j: int| 0 <= j < i ==> (#[trigger] self@[j]).kind != kind,
            decreases n - i,
        {
            if self.queues[i].kind() == kind {
                proof {
                    lemma_bus_index_unique(self@, i as int);
                }
                return Some(i);
            }
            i = i + 1;
        }
        None
    }

    /// Ensures the kind has a queue, reporting whether one was created.
    pub fn register(&mut self, kind: EventKind) -> (created: bool)
        requires
            bus_wf(old(self)@),
        ensures
            final(self)@ == bus_register(old(self)@, kind),
            created == !bus_has(old(self)@, kind),
            bus_wf(final(self)@),
            bus_has(final(self)@, kind),
    {
        match self.find_queue(kind) {
            Some(_) => {
                proof {
                    assert(self@ =~= bus_register(self@, kind));
                }
                false
            },
            None => {
                self.queues.push(EventQueue::new(kind));
                proof {
                    assert(self@ =~= bus_register(old(self)@, kind));
                    assert(self@[self@.len() - 1].kind == kind);
                }
                true
            },
        }
    }

    /// Appends the event to the queue of its kind, registering the queue
    /// on first use.
    pub fn post(&mut self, e: RuntimeEvent)
        requires
            bus_wf(old(self)@),
            bus_has(old(self)@, kind_of(e)) ==> bus_queue(old(self)@, kind_of(e)).total
                < usize::MAX,
        ensures
            final(self)@ == bus_post(old(self)@, e),
            bus_wf(final(self)@),
    {
        let kind = event_kind(&e);
        match self.find_queue(kind) {
            Some(i) => {
                let queue = &mut self.queues[i];
                queue.post(e);
                proof {
                    assert(self@ =~= bus_post(old(self)@, e));
                }
            },
            None => {
                let mut queue = EventQueue::new(kind);
                queue.post(e);
                self.queues.push(queue);
                proof {
                    assert(self@ =~= bus_post(old(self)@, e));
                    assert forall|i: int| 0 <= i < self@.len() implies (
                    #[trigger] self@[i]).wf() by {}
                }
            },
        }
    }

    /// Whether the kind's queue was ever registered.
    pub fn has_kind(&self, kind: EventKind) -> (r: bool)
        requires
            bus_wf(self@),
        ensures
            r == bus_has(self@, kind),
    {
        self.find_queue(kind).is_some()
    }

    /// Whether the kind's queue can still accept an event.
    pub fn can_post(&self, kind: EventKind) -> (r: bool)
        requires
            bus_wf(self@),
        ensures
            r == bus_can_post(self@, kind),
    {
        match self.find_queue(kind) {
            Some(i) => self.queues[i].total_posted() < usize::MAX as u64,
            None => true,
        }
    }

    /// Runs the maintenance update of one kind's queue.
    pub fn update_kind(&mut self, kind: EventKind)
        requires
            bus_wf(old(self)@),
        ensures
            final(self)@ == bus_update_kind(old(self)@, kind),
            bus_wf(final(self)@),
    {
        match self.find_queue(kind) {
            Some(i) => {
                let queue = &mut self.queues[i];
                queue.update();
                proof {
                    assert(self@ =~= bus_update_kind(old(self)@, kind));
                }
            },
            None => {
                proof {
                    assert(self@ =~= bus_update_kind(old(self)@, kind));
                }
            },
        }
    }

    /// Takes every buffered event of the kind, oldest first.
    pub fn drain_kind(&mut self, kind: EventKind) -> (events: Vec<RuntimeEvent>)
        requires
            bus_wf(old(self)@),
        ensures
            final(self)@ == bus_drain_kind(old(self)@, kind),
            bus_wf(final(self)@),
            events@ == if bus_has(old(self)@, kind) {
                bus_queue(old(self)@, kind).buffered()
            } else {
                Seq::<RuntimeEvent>::empty()
            },
    {
        match self.find_queue(kind) {
            Some(i) => {
                let queue = &mut self.queues[i];
                let events = queue.drain();
                proof {
                    assert(self@ =~= bus_drain_kind(old(self)@, kind));
                }
                events
            },
            None => {
                proof {
                    assert(self@ =~= bus_drain_kind(old(self)@, kind));
                }
                Vec::new()
            },
        }
    }

    /// Reads, without consuming, the kind's events visible past `cursor`,
    /// and the position to continue from.
    pub fn read_kind_from(&self, kind: EventKind, cursor: u64) -> (r: (Vec<RuntimeEvent>, u64))
        requires
            bus_wf(self@),
            bus_has(self@, kind) ==> cursor <= bus_queue(self@, kind).total,
        ensures
            r.0@ == if bus_has(self@, kind) {
                bus_queue(self@, kind).visible_from(cursor as nat)
            } else {
                Seq::<RuntimeEvent>::empty()
            },
            r.1 == if bus_has(self@, kind) {
                bus_queue(self@, kind).total
            } else {
                cursor as nat
            },
    {
        match self.find_queue(kind) {
            Some(i) => self.queues[i].read_from(cursor),
            None => (Vec::new(), cursor),
        }
    }

    /// Whether the kind's queue exists and buffers at least one event.
    pub fn kind_has_events(&self, kind: EventKind) -> (r: bool)
        requires
            bus_wf(self@),
        ensures
            r == (bus_has(self@, kind) && bus_queue(self@, kind).buffered().len() > 0),
    {
        match self.find_queue(kind) {
            Some(i) => !self.queues[i].is_empty(),
            None => false,
        }
    }
}

} // verus!
