//! The window lifecycle state machine: the systems that turn lifecycle
//! events into consistent entity state and rendering commands.
//!
//! Each handler states exactly how it moves the store.  Where a window
//! behavior decides — whether a close may proceed, what a hook asks of
//! the runtime — the handler that carries the decision out takes it as a
//! plain value, so its contract covers every answer a behavior can give.

use vstd::prelude::*;

use crate::collections::{
    entity_batch_get, entity_batch_items, entity_batch_len, entity_batch_new, entity_batch_push,
    EntityBatch,
};
use crate::events::{
    bus_can_post, bus_has, bus_post, bus_queue, bus_wf, kind_of, EventKind, QueueModel,
    RuntimeEvent,
};
use crate::events::{lemma_bus_post_effect, lemma_bus_post_wf, lemma_bus_replace_effect};
use crate::renderer::{fresh_surface_model, valid_surface_dims, Surface, WindowDrawTarget};
use crate::window::{
    EventLoopTarget, OsWindowModel, Window, WindowBundle, WindowCallbacks, WindowContext, WindowId,
};
use crate::world::{
    cursor_wf, ControlFlow, ReaderCursors, RuntimeError, WindowEntity, WindowEntityModel, World,
    WorldModel,
};

verus! {

/// The window entity one carried-out `Create` adds: a fresh entity
/// identifier, the asked-for window identifier, a fresh native
/// identifier, and an OS window at the event loop's initial bounds whose
/// title is what the behavior's `on_create` asked for, if anything.
pub open spec fn created_window_model(
    w: WorldModel,
    id: u32,
    title_change: Option<Seq<char>>,
) -> WindowEntityModel {
    WindowEntityModel {
        entity: w.next_entity,
        id,
        raw_id: w.target.next_raw_id,
        root: 0,
        os_window: OsWindowModel {
            title: match title_change {
                Some(t) => t,
                None => "Untitled Window"@,
            },
            width: w.target.initial_width,
            height: w.target.initial_height,
            presented: None,
        },
        surface: None,
        surface_generation: 0,
    }
}

/// The store after one `Create` is carried out: the new window entity is
/// live with its behavior registered, the behavior no longer pends at
/// position `pending_index`, the entity is marked fresh for the surface
/// system, both identifier generators have advanced, and the shutdown
/// request of the behavior's `on_create`, if it made one, is posted.
pub open spec fn create_applied(
    w: WorldModel,
    id: u32,
    pending_index: int,
    title_change: Option<Seq<char>>,
    shutdown: bool,
) -> WorldModel {
    WorldModel {
        entities: w.entities.push(created_window_model(w, id, title_change)),
        callback_keys: w.callback_keys.push(w.next_entity),
        pending: w.pending.remove(pending_index),
        bus: if shutdown {
            bus_post(w.bus, RuntimeEvent::ShutdownEventLoop)
        } else {
            w.bus
        },
        next_entity: (w.next_entity + 1) as u64,
        target: EventLoopTarget { next_raw_id: (w.target.next_raw_id + 1) as u64, ..w.target },
        fresh: w.fresh.push(w.next_entity),
        ..w
    }
}

/// The witness that one `Create` was carried out faithfully: the
/// behavior waiting at `pending_index` was taken, and the store moved by
/// exactly the `create_applied` step for what the behavior's `on_create`
/// asked.
pub open spec fn create_witnessed(
    pre: WorldModel,
    post: WorldModel,
    id: u32,
    pending_index: int,
    title_change: Option<Seq<char>>,
    shutdown: bool,
) -> bool {
    &&& 0 <= pending_index < pre.pending.len()
    &&& pre.pending[pending_index] == id
    &&& post == create_applied(pre, id, pending_index, title_change, shutdown)
}

impl<W: Window> World<W> {
    /// Whether a behavior pends for this window identifier.
    pub fn has_pending(&self, id: WindowId) -> (r: bool)
        ensures
            r == self@.pending.contains(id.0),
    {
        let n = self.pending_windows.len();
        let mut i: usize = 0;
        while i < n
            invariant
                i <= n,
                n == self.pending_windows@.len(),
                forall|j: int| 0 <= j < i ==> (#[trigger] self@.pending[j]) != id.0,
            decreases n - i,
        {
            if self.pending_windows[i].0.0 == id.0 {
                proof {
                    assert(self@.pending[i as int] == id.0);
                }
                return true;
            }
            i = i + 1;
        }
        proof {
            assert(forall|j: int|
                0 <= j < self@.pending.len() ==> (#[trigger] self@.pending[j]) != id.0);
        }
        false
    }
}

/// Carries out one `Create` event: creation is guarded by "no live
/// window already has this identifier" — a duplicate is rejected as a
/// fatal fault and the store is left untouched, never overwritten.  On
/// success the OS window is allocated, the behavior's `on_create` has
/// run with a title-setting capability, the native identifier is
/// recorded, the entity is spawned and its behavior registered.
pub fn handle_create_event<W: Window>(world: &mut World<W>, id: WindowId) -> (r: Result<
    u64,
    RuntimeError,
>)
    requires
        old(world)@.wf(),
    ensures
        final(world)@.wf(),
        match r {
            Ok(entity) => {
                &&& !old(world)@.has_window_id(id.0)
                &&& entity == old(world)@.next_entity
                &&& exists|pi: int, tc: Option<Seq<char>>, shut: bool|
                    #[trigger] create_witnessed(old(world)@, final(world)@, id.0, pi, tc, shut)
            },
            Err(e) => match e {
                RuntimeError::DuplicateWindowId(i) => i == id.0 && old(world)@.has_window_id(id.0)
                    && final(world)@ == old(world)@,
                RuntimeError::MissingWindowBehavior(i) => i == id.0
                    && !old(world)@.has_window_id(id.0) && !old(world)@.pending.contains(id.0)
                    && final(world)@ == old(world)@,
                RuntimeError::WindowAllocationFailed(i) => i == id.0
                    && !old(world)@.has_window_id(id.0) && old(world)@.pending.contains(id.0)
                    && (old(world)@.target.next_raw_id == u64::MAX
                    || old(world)@.next_entity == u64::MAX) && final(world)@ == old(world)@,
                RuntimeError::EventOverflow => !bus_can_post(
                    old(world)@.bus,
                    EventKind::ShutdownEventLoop,
                ) && final(world)@.entities == old(world)@.entities
                    && final(world)@.callback_keys == old(world)@.callback_keys
                    && final(world)@.bus == old(world)@.bus
                    && final(world)@.control_flow == old(world)@.control_flow,
                _ => false,
            },
        },
{
    if world.find_window_id(id).is_some() {
        return Err(RuntimeError::DuplicateWindowId(id.0));
    }
    if !world.has_pending(id) {
        return Err(RuntimeError::MissingWindowBehavior(id.0));
    }
    if world.target.next_raw_id == u64::MAX || world.next_entity == u64::MAX {
        return Err(RuntimeError::WindowAllocationFailed(id.0));
    }
    let behavior = match world.take_pending(id) {
        Some(b) => b,
        None => {
            proof {
                assert(false);
            }
            unreached()
        },
    };
    let ghost pre = old(world)@;
    let ghost mid = world@;
    let ghost pi = choose|i: int|
        0 <= i < pre.pending.len() && pre.pending[i] == id.0 && (forall|j: int|
            0 <= j < i ==> pre.pending[j] != id.0) && mid.pending == pre.pending.remove(i);

    let mut ctx = WindowContext::new();
    behavior.on_create(&mut ctx);
    if ctx.shutdown_requested && !world.bus.can_post(EventKind::ShutdownEventLoop) {
        proof {
            lemma_pending_removed_wf(pre, mid, pi);
        }
        return Err(RuntimeError::EventOverflow);
    }

    let bundle = match WindowBundle::new(id, &mut world.target, 0) {
        Some(b) => b,
        None => {
            proof {
                assert(false);
            }
            unreached()
        },
    };
    let entity = world.next_entity;
    world.next_entity = world.next_entity + 1;
    let mut window_entity = WindowEntity { entity, bundle, surface: None, surface_generation: 0 };
    match &ctx.title_change {
        Some(title) => {
            window_entity.bundle.os_window.set_title(title.as_str());
        },
        None => {},
    }
    proof {
        assert(!pre.has_entity(entity)) by {
            if pre.has_entity(entity) {
                let i = choose|i: int|
                    0 <= i < pre.entities.len() && (#[trigger] pre.entities[i]).entity == entity;
                assert(pre.entities[i].entity < pre.next_entity);
            }
        }
        assert(!world.callbacks@.contains(entity)) by {
            if world.callbacks@.contains(entity) {
                let i = choose|i: int|
                    0 <= i < world.callbacks@.len() && world.callbacks@[i] == entity;
                assert(pre.callback_keys[i] == pre.entities.map_values(
                    |e: WindowEntityModel| e.entity,
                )[i]);
                assert(pre.entities[i].entity == entity);
                assert(pre.has_entity(entity));
            }
        }
    }
    world.entities.push(window_entity);
    world.fresh_windows.push(entity);
    world.callbacks.insert(entity, WindowCallbacks(behavior));
    let ghost tc: Option<Seq<char>> = match ctx.title_change {
        Some(ref t) => Some(t@),
        None => None,
    };
    if ctx.shutdown_requested {
        world.bus.post(RuntimeEvent::ShutdownEventLoop);
    }
    proof {
        let post = world@;
        let m = create_applied(pre, id.0, pi, tc, ctx.shutdown_requested);
        assert(post.entities =~= m.entities);
        assert(post.callback_keys =~= m.callback_keys);
        assert(post.fresh =~= m.fresh);
        assert(post == m);
        assert(create_witnessed(pre, post, id.0, pi, tc, ctx.shutdown_requested));
        lemma_create_applied_wf(pre, id.0, pi, tc, ctx.shutdown_requested);
    }
    Ok(entity)
}

/// The `create_applied` step preserves the store's invariant whenever
/// the created identifier is not yet live.
pub proof fn lemma_create_applied_wf(
    w: WorldModel,
    id: u32,
    pending_index: int,
    title_change: Option<Seq<char>>,
    shutdown: bool,
)
    requires
        w.wf(),
        !w.has_window_id(id),
        0 <= pending_index < w.pending.len(),
        w.pending[pending_index] == id,
        w.next_entity < u64::MAX,
        w.target.next_raw_id < u64::MAX,
        shutdown ==> bus_can_post(w.bus, EventKind::ShutdownEventLoop),
    ensures
        create_applied(w, id, pending_index, title_change, shutdown).wf(),
{
    let m = create_applied(w, id, pending_index, title_change, shutdown);
    let fresh_entity = created_window_model(w, id, title_change);
    assert(m.entities == w.entities.push(fresh_entity));
    assert(m.callback_keys =~= m.entities.map_values(|e: WindowEntityModel| e.entity));
    assert forall|i: int|
        0 <= i < m.entities.len() implies (#[trigger] m.entities[i]) == (if i < w.entities.len() {
        w.entities[i]
    } else {
        fresh_entity
    }) by {}
    assert forall|i: int, j: int|
        0 <= i < m.entities.len() && 0 <= j < m.entities.len() && i != j implies (
    #[trigger] m.entities[i]).id != (#[trigger] m.entities[j]).id by {
        if i == w.entities.len() && j < w.entities.len() {
            assert(w.entities[j].id != id);
        } else if j == w.entities.len() && i < w.entities.len() {
            assert(w.entities[i].id != id);
        }
    }
    assert forall|i: int, j: int|
        0 <= i < m.entities.len() && 0 <= j < m.entities.len() && i != j implies (
    #[trigger] m.entities[i]).entity != (#[trigger] m.entities[j]).entity by {}
    assert forall|i: int, j: int|
        0 <= i < m.entities.len() && 0 <= j < m.entities.len() && i != j implies (
    #[trigger] m.entities[i]).raw_id != (#[trigger] m.entities[j]).raw_id by {}
    assert forall|i: int|
        0 <= i < m.pending.len() implies (#[trigger] m.pending[i]) < m.next_window_id by {
        if i < pending_index {
            assert(m.pending[i] == w.pending[i]);
        } else {
            assert(m.pending[i] == w.pending[i + 1]);
        }
    }
    if shutdown {
        lemma_bus_post_wf_parts(w, m);
        lemma_bus_post_effect(w.bus, RuntimeEvent::ShutdownEventLoop, EventKind::ShutdownEventLoop);
        lemma_bus_post_wf(w.bus, RuntimeEvent::ShutdownEventLoop);
    }
    assert(bus_wf(m.bus));
    assert(forall|i: int|
        0 <= i < m.entities.len() ==> (#[trigger] m.entities[i]).entity < m.next_entity);
    assert(forall|i: int|
        0 <= i < m.entities.len() ==> (#[trigger] m.entities[i]).id < m.next_window_id);
    assert(forall|i: int|
        0 <= i < m.entities.len() ==> (#[trigger] m.entities[i]).raw_id < m.target.next_raw_id);
    assert(forall|i: int|
        0 <= i < m.entities.len() ==> match (#[trigger] m.entities[i]).surface {
            Some(s) => s.wf(),
            None => true,
        });
    assert(cursor_wf(m.bus, EventKind::CloseRequested, m.cursors.close_requested));
    assert(cursor_wf(m.bus, EventKind::Destroy, m.cursors.destroy));
    assert(cursor_wf(m.bus, EventKind::Resize, m.cursors.resize));
    assert(cursor_wf(m.bus, EventKind::Repaint, m.cursors.repaint));
}

/// What the behavior of one carried-out `Create` decided: where it
/// pended, and what its `on_create` hook asked of the runtime.
pub struct CreateWitness {
    pub pending_index: int,
    pub title_change: Option<Seq<char>>,
    pub shutdown: bool,
}

/// The store once the `Create` queue has been drained.
pub open spec fn create_queue_drained(w: WorldModel) -> WorldModel {
    WorldModel { bus: crate::events::bus_drain_kind(w.bus, EventKind::Create), ..w }
}

/// Every `Create` was carried out in posting order, each by exactly its
/// `create_applied` step under its witness — in particular, each
/// identifier was not live and had a behavior pending when its turn
/// came — moving `pre` to `post`.
pub open spec fn creates_witnessed(
    pre: WorldModel,
    events: Seq<RuntimeEvent>,
    witnesses: Seq<CreateWitness>,
    post: WorldModel,
) -> bool
    decreases events.len(),
{
    if events.len() != witnesses.len() {
        false
    } else if events.len() == 0 {
        post == pre
    } else {
        match events[0] {
            RuntimeEvent::Create { window_id } => {
                let wit = witnesses[0];
                &&& !pre.has_window_id(window_id.0)
                &&& 0 <= wit.pending_index < pre.pending.len()
                &&& pre.pending[wit.pending_index] == window_id.0
                &&& creates_witnessed(
                    create_applied(
                        pre,
                        window_id.0,
                        wit.pending_index,
                        wit.title_change,
                        wit.shutdown,
                    ),
                    events.drop_first(),
                    witnesses.drop_first(),
                    post,
                )
            },
            _ => false,
        }
    }
}

/// Creating one more window extends the witnessed run by its step.
pub proof fn lemma_creates_witnessed_snoc(
    pre: WorldModel,
    events: Seq<RuntimeEvent>,
    witnesses: Seq<CreateWitness>,
    mid: WorldModel,
    id: WindowId,
    wit: CreateWitness,
    post: WorldModel,
)
    requires
        creates_witnessed(pre, events, witnesses, mid),
        !mid.has_window_id(id.0),
        0 <= wit.pending_index < mid.pending.len(),
        mid.pending[wit.pending_index] == id.0,
        post == create_applied(mid, id.0, wit.pending_index, wit.title_change, wit.shutdown),
    ensures
        creates_witnessed(
            pre,
            events.push(RuntimeEvent::Create { window_id: id }),
            witnesses.push(wit),
            post,
        ),
    decreases events.len(),
{
    let e = RuntimeEvent::Create { window_id: id };
    if events.len() == 0 {
        assert(events.push(e)[0] == e);
        assert(events.push(e).drop_first() =~= Seq::<RuntimeEvent>::empty());
        assert(witnesses.push(wit).drop_first() =~= Seq::<CreateWitness>::empty());
        assert(mid == pre);
        assert(creates_witnessed(
            create_applied(pre, id.0, wit.pending_index, wit.title_change, wit.shutdown),
            Seq::<RuntimeEvent>::empty(),
            Seq::<CreateWitness>::empty(),
            post,
        ));
    } else {
        assert(events.push(e)[0] == events[0]);
        assert(events.push(e).drop_first() =~= events.drop_first().push(e));
        assert(witnesses.push(wit).drop_first() =~= witnesses.drop_first().push(wit));
        match events[0] {
            RuntimeEvent::Create { window_id: id0 } => {
                let w0 = witnesses[0];
                let step = create_applied(
                    pre,
                    id0.0,
                    w0.pending_index,
                    w0.title_change,
                    w0.shutdown,
                );
                lemma_creates_witnessed_snoc(
                    step,
                    events.drop_first(),
                    witnesses.drop_first(),
                    mid,
                    id,
                    wit,
                    post,
                );
                assert(creates_witnessed(
                    step,
                    events.drop_first().push(e),
                    witnesses.drop_first().push(wit),
                    post,
                ));
            },
            _ => {
                assert(false);
            },
        }
    }
}

/// The conditions under which every buffered `Create` is certain to be
/// carried out: the asked-for identifiers are pairwise distinct, none
/// is live, each has a behavior pending, and the identifier generators
/// and queues have room for them all.
pub open spec fn creates_guaranteed(w: WorldModel) -> bool {
    let events = create_events(w);
    &&& forall|a: int, b: int|
        0 <= a < events.len() && 0 <= b < events.len() && a != b ==> match (
        #[trigger] events[a], #[trigger] events[b]) {
            (RuntimeEvent::Create { window_id: x }, RuntimeEvent::Create { window_id: y }) => x.0
                != y.0,
            _ => true,
        }
    &&& forall|j: int|
        0 <= j < events.len() ==> match #[trigger] events[j] {
            RuntimeEvent::Create { window_id } => !w.has_window_id(window_id.0)
                && w.pending.contains(window_id.0),
            _ => true,
        }
    &&& w.next_entity + events.len() <= u64::MAX
    &&& w.target.next_raw_id + events.len() <= u64::MAX
    &&& crate::events::bus_headroom(w.bus, events.len())
}

/// Exactly the conditions under which one creation step stops with a
/// fault, mirroring `handle_create_event`.
pub open spec fn create_event_blocked(w: WorldModel, e: RuntimeEvent, err: RuntimeError) -> bool {
    match e {
        RuntimeEvent::Create { window_id } => match err {
            RuntimeError::DuplicateWindowId(i) => i == window_id.0 && w.has_window_id(i),
            RuntimeError::MissingWindowBehavior(i) => i == window_id.0 && !w.has_window_id(i)
                && !w.pending.contains(i),
            RuntimeError::WindowAllocationFailed(i) => i == window_id.0 && !w.has_window_id(i)
                && w.pending.contains(i) && (w.target.next_raw_id == u64::MAX || w.next_entity
                == u64::MAX),
            RuntimeError::EventOverflow => !bus_can_post(w.bus, EventKind::ShutdownEventLoop),
            _ => false,
        },
        _ => false,
    }
}

/// Creates every window asked for by the buffered `Create` events, in
/// posting order, consuming them.  Windows are only ever added here:
/// what was live before stays live, untouched, in its place.  On
/// success the store is exactly the witnessed run of `create_applied`
/// steps over the drained events; the first event that cannot be
/// carried out — a duplicate identifier above all — stops the system
/// with its fault, pinned to the state the run had reached.
pub fn create_window_system<W: Window>(world: &mut World<W>) -> (r: Result<(), RuntimeError>)
    requires
        old(world)@.wf(),
    ensures
        final(world)@.wf(),
        final(world)@.control_flow == old(world)@.control_flow,
        old(world)@.entities.is_prefix_of(final(world)@.entities),
        r.is_ok() && bus_has(final(world)@.bus, EventKind::Create) ==> bus_queue(
            final(world)@.bus,
            EventKind::Create,
        ).buffered().len() == 0,
        r.is_ok() ==> forall|i: int|
            0 <= i < create_events(old(world)@).len()
                ==> match #[trigger] create_events(old(world)@)[i] {
                RuntimeEvent::Create { window_id } => final(world)@.has_window_id(window_id.0),
                _ => true,
            },
        create_events(old(world)@).len() == 0 ==> r.is_ok() && final(world)@ == old(world)@,
        r.is_ok() ==> exists|wits: Seq<CreateWitness>|
            #[trigger] creates_witnessed(
                create_queue_drained(old(world)@),
                create_events(old(world)@),
                wits,
                final(world)@,
            ),
        match r {
            Ok(_) => true,
            Err(err) => exists|k: int, wits: Seq<CreateWitness>, mid: WorldModel|
                0 <= k < create_events(old(world)@).len() && #[trigger] creates_witnessed(
                    create_queue_drained(old(world)@),
                    create_events(old(world)@).take(k),
                    wits,
                    mid,
                ) && create_event_blocked(mid, create_events(old(world)@)[k], err),
        },
        creates_guaranteed(old(world)@) ==> r.is_ok(),
{
    let ghost guaranteed = creates_guaranteed(old(world)@);
    if !world.bus.kind_has_events(EventKind::Create) {
        proof {
            assert(old(world)@.entities.is_prefix_of(world@.entities));
            assert(create_events(old(world)@).len() == 0);
            if bus_has(old(world)@.bus, EventKind::Create) {
                let q = bus_queue(old(world)@.bus, EventKind::Create);
                assert(q.back =~= Seq::<RuntimeEvent>::empty());
                assert(q.front =~= Seq::<RuntimeEvent>::empty());
                assert(q.drained() == q);
                assert(crate::events::bus_drain_kind(old(world)@.bus, EventKind::Create)
                    =~= old(world)@.bus);
            }
            assert(create_queue_drained(old(world)@) == old(world)@);
            assert(creates_witnessed(
                create_queue_drained(old(world)@),
                create_events(old(world)@),
                Seq::<CreateWitness>::empty(),
                world@,
            ));
        }
        return Ok(());
    }
    let events = world.bus.drain_kind(EventKind::Create);
    proof {
        lemma_bus_replace_effect(old(world)@.bus, EventKind::Create, EventKind::Create);
        lemma_bus_replace_effect(old(world)@.bus, EventKind::Create, EventKind::CloseRequested);
        lemma_bus_replace_effect(old(world)@.bus, EventKind::Create, EventKind::Destroy);
        lemma_bus_replace_effect(old(world)@.bus, EventKind::Create, EventKind::Resize);
        lemma_bus_replace_effect(old(world)@.bus, EventKind::Create, EventKind::Repaint);
        assert(cursor_wf(world@.bus, EventKind::CloseRequested, world@.cursors.close_requested));
        assert(cursor_wf(world@.bus, EventKind::Destroy, world@.cursors.destroy));
        assert(cursor_wf(world@.bus, EventKind::Resize, world@.cursors.resize));
        assert(cursor_wf(world@.bus, EventKind::Repaint, world@.cursors.repaint));
        assert(bus_wf(world@.bus));
        assert(world@.entities == old(world)@.entities);
        assert(world@.callback_keys == old(world)@.callback_keys);
        assert(world@.callback_keys == world@.entities.map_values(
            |e: WindowEntityModel| e.entity,
        ));
        assert(world@.pending =~= old(world)@.pending);
        assert(forall|i: int|
            0 <= i < world@.pending.len() ==> (#[trigger] world@.pending[i])
                < world@.next_window_id);
        assert(world@.wf());
        assert(events@ == create_events(old(world)@));
        assert forall|j: int| 0 <= j < events@.len() implies kind_of(#[trigger] events@[j])
            == EventKind::Create by {
            assert(events@[j] == bus_queue(old(world)@.bus, EventKind::Create).buffered()[j]);
        }
        assert(world@.entities =~= old(world)@.entities);
        assert(old(world)@.entities.is_prefix_of(world@.entities));
        assert(world@ == create_queue_drained(old(world)@));
        assert(creates_witnessed(
            create_queue_drained(old(world)@),
            Seq::<RuntimeEvent>::empty(),
            Seq::<CreateWitness>::empty(),
            world@,
        ));
        assert(events@.take(0) =~= Seq::<RuntimeEvent>::empty());
    }
    let ghost base = create_queue_drained(old(world)@);
    let ghost mut wits: Seq<CreateWitness> = Seq::empty();
    let n = events.len();
    let mut i: usize = 0;
    while i < n
        invariant
            i <= n,
            n == events@.len(),
            events@ == create_events(old(world)@),
            forall|j: int|
                0 <= j < events@.len() ==> kind_of(#[trigger] events@[j]) == EventKind::Create,
            world@.wf(),
            world@.control_flow == old(world)@.control_flow,
            bus_has(world@.bus, EventKind::Create) ==> bus_queue(
                world@.bus,
                EventKind::Create,
            ).buffered().len() == 0,
            old(world)@.entities.is_prefix_of(world@.entities),
            old(world)@.wf(),
            base == create_queue_drained(old(world)@),
            guaranteed == creates_guaranteed(old(world)@),
            guaranteed ==> forall|m: int|
                i <= m < events@.len() ==> match #[trigger] events@[m] {
                    RuntimeEvent::Create { window_id } => !world@.has_window_id(window_id.0)
                        && world@.pending.contains(window_id.0),
                    _ => true,
                },
            guaranteed ==> world@.next_entity <= old(world)@.next_entity + i,
            guaranteed ==> world@.target.next_raw_id <= old(world)@.target.next_raw_id + i,
            guaranteed ==> crate::events::bus_headroom(world@.bus, (events@.len() - i) as nat),
            wits.len() == i,
            creates_witnessed(base, events@.take(i as int), wits, world@),
            forall|j: int|
                0 <= j < i ==> match #[trigger] events@[j] {
                    RuntimeEvent::Create { window_id } => world@.has_window_id(window_id.0),
                    _ => true,
                },
        decreases n - i,
    {
        let ghost before = world@;
        match events[i] {
            RuntimeEvent::Create { window_id } => {
                match handle_create_event(world, window_id) {
                    Ok(_) => {
                        proof {
                            let (pi, tc, shut) = choose|pi: int, tc: Option<Seq<char>>, shut: bool|
                                #[trigger] create_witnessed(
                                    before,
                                    world@,
                                    window_id.0,
                                    pi,
                                    tc,
                                    shut,
                                );
                            assert(world@.entities == before.entities.push(
                                created_window_model(before, window_id.0, tc),
                            ));
                            assert(world@.entities[before.entities.len() as int].id
                                == window_id.0);
                            assert(world@.has_window_id(window_id.0));
                            assert forall|k: u32| before.has_window_id(k) implies
                                world@.has_window_id(k) by {
                                let j = choose|j: int|
                                    0 <= j < before.entities.len() && (
                                    #[trigger] before.entities[j]).id == k;
                                assert(world@.entities[j].id == k);
                            }
                            assert(world@.entities.take(old(world)@.entities.len() as int)
                                =~= old(world)@.entities);
                            if shut {
                                lemma_bus_post_effect(
                                    before.bus,
                                    RuntimeEvent::ShutdownEventLoop,
                                    EventKind::Create,
                                );
                            }
                            let wit = CreateWitness {
                                pending_index: pi,
                                title_change: tc,
                                shutdown: shut,
                            };
                            assert(events@.take(i + 1) =~= events@.take(i as int).push(
                                events@[i as int],
                            ));
                            lemma_creates_witnessed_snoc(
                                base,
                                events@.take(i as int),
                                wits,
                                before,
                                window_id,
                                wit,
                                world@,
                            );
                            wits = wits.push(wit);
                            if guaranteed {
                                assert forall|m: int|
                                    i + 1 <= m < events@.len() implies match #[trigger] events@[m] {
                                    RuntimeEvent::Create { window_id: idm } => !world@.has_window_id(
                                        idm.0,
                                    ) && world@.pending.contains(idm.0),
                                    _ => true,
                                } by {
                                    match events@[m] {
                                        RuntimeEvent::Create { window_id: idm } => {
                                            assert(idm.0 != window_id.0);
                                            assert(!world@.has_window_id(idm.0)) by {
                                                if world@.has_window_id(idm.0) {
                                                    let x = choose|x: int|
                                                        0 <= x < world@.entities.len() && (
                                                        #[trigger] world@.entities[x]).id == idm.0;
                                                    if x < before.entities.len() {
                                                        assert(before.entities[x].id == idm.0);
                                                        assert(before.has_window_id(idm.0));
                                                    } else {
                                                        assert(world@.entities[x].id
                                                            == window_id.0);
                                                    }
                                                }
                                            }
                                            assert(world@.pending.contains(idm.0)) by {
                                                let jx = choose|jx: int|
                                                    0 <= jx < before.pending.len() && (
                                                    #[trigger] before.pending[jx]) == idm.0;
                                                assert(before.pending[pi] == window_id.0);
                                                assert(jx != pi);
                                                if jx < pi {
                                                    assert(world@.pending[jx] == idm.0);
                                                } else {
                                                    assert(world@.pending[jx - 1] == idm.0);
                                                }
                                            }
                                        },
                                        _ => {},
                                    }
                                }
                                if shut {
                                    crate::events::lemma_bus_post_headroom(
                                        before.bus,
                                        RuntimeEvent::ShutdownEventLoop,
                                        (events@.len() - i) as nat,
                                    );
                                } else {
                                    crate::events::lemma_headroom_monotone(
                                        world@.bus,
                                        (events@.len() - i) as nat,
                                        (events@.len() - (i + 1)) as nat,
                                    );
                                }
                            }
                        }
                    },
                    Err(e) => {
                        proof {
                            if guaranteed {
                                assert(!before.has_window_id(window_id.0));
                                assert(before.pending.contains(window_id.0));
                                assert(before.next_entity < u64::MAX);
                                assert(before.target.next_raw_id < u64::MAX);
                                crate::events::lemma_headroom_can_post(
                                    before.bus,
                                    EventKind::ShutdownEventLoop,
                                    (events@.len() - i) as nat,
                                );
                                assert(false);
                            }
                            assert(world@.entities == before.entities);
                            assert(world@.entities.take(old(world)@.entities.len() as int)
                                =~= old(world)@.entities);
                            assert((i as int) < create_events(old(world)@).len());
                            assert(creates_witnessed(
                                create_queue_drained(old(world)@),
                                create_events(old(world)@).take(i as int),
                                wits,
                                before,
                            ));
                            assert(create_event_blocked(
                                before,
                                create_events(old(world)@)[i as int],
                                e,
                            ));
                        }
                        return Err(e);
                    },
                }
            },
            _ => {
                proof {
                    assert(kind_of(events@[i as int]) == EventKind::Create);
                }
            },
        }
        i = i + 1;
    }
    proof {
        assert(events@.take(n as int) =~= events@);
    }
    Ok(())
}

/// The `Create` events buffered on the store's bus, oldest first.
pub open spec fn create_events(w: WorldModel) -> Seq<RuntimeEvent> {
    if bus_has(w.bus, EventKind::Create) {
        bus_queue(w.bus, EventKind::Create).buffered()
    } else {
        Seq::empty()
    }
}

/// Posting any event onto a well-formed store with room leaves it well
/// formed: the queues the reader cursors watch at most grow.
pub proof fn lemma_world_post_wf(w: WorldModel, e: RuntimeEvent)
    requires
        w.wf(),
        bus_can_post(w.bus, kind_of(e)),
    ensures
        (WorldModel { bus: bus_post(w.bus, e), ..w }).wf(),
{
    let m = WorldModel { bus: bus_post(w.bus, e), ..w };
    lemma_bus_post_wf(w.bus, e);
    lemma_bus_post_effect(w.bus, e, EventKind::CloseRequested);
    lemma_bus_post_effect(w.bus, e, EventKind::Destroy);
    lemma_bus_post_effect(w.bus, e, EventKind::Resize);
    lemma_bus_post_effect(w.bus, e, EventKind::Repaint);
    assert(cursor_wf(m.bus, EventKind::CloseRequested, m.cursors.close_requested));
    assert(cursor_wf(m.bus, EventKind::Destroy, m.cursors.destroy));
    assert(cursor_wf(m.bus, EventKind::Resize, m.cursors.resize));
    assert(cursor_wf(m.bus, EventKind::Repaint, m.cursors.repaint));
}

/// Replacing one live window's components in place — its identifiers
/// untouched — leaves the store well formed, as long as any surface it
/// now carries is itself well formed.
pub proof fn lemma_world_entity_updated_wf(w: WorldModel, i: int, e: WindowEntityModel)
    requires
        w.wf(),
        0 <= i < w.entities.len(),
        e.entity == w.entities[i].entity,
        e.id == w.entities[i].id,
        e.raw_id == w.entities[i].raw_id,
        match e.surface {
            Some(s) => s.wf(),
            None => true,
        },
    ensures
        (WorldModel { entities: w.entities.update(i, e), ..w }).wf(),
{
    let m = WorldModel { entities: w.entities.update(i, e), ..w };
    assert(m.callback_keys =~= m.entities.map_values(|x: WindowEntityModel| x.entity));
}

/// The store after one window's surface is replaced: the window carries
/// a brand-new surface sized to its current draw bounds, its surface
/// generation has advanced — no surface object survives a replacement —
/// and exactly one `Repaint` for its entity is queued.
pub open spec fn surface_replaced(w: WorldModel, i: int) -> WorldModel {
    let e = w.entities[i];
    let refreshed = WindowEntityModel {
        surface: Some(
            fresh_surface_model(e.os_window.width as i32 as int, e.os_window.height as i32 as int),
        ),
        surface_generation: (e.surface_generation + 1) as u64,
        ..e
    };
    WorldModel {
        entities: w.entities.update(i, refreshed),
        bus: bus_post(w.bus, RuntimeEvent::Repaint { entity: e.entity }),
        ..w
    }
}

/// Gives one window the surface its current draw bounds ask for.
///
/// A zero-area bound is a benign no-op — the previous surface is
/// retained untouched, since the rasterizer must never see a zero-sized
/// allocation.  Positive bounds replace the surface with a fresh one and
/// queue exactly one `Repaint` for the entity.  An entity without a
/// window is a fatal fault.
pub fn refresh_surface_for<W: Window>(world: &mut World<W>, entity: u64) -> (r: Result<
    (),
    RuntimeError,
>)
    requires
        old(world)@.wf(),
    ensures
        final(world)@.wf(),
        match r {
            Ok(()) => old(world)@.has_entity(entity) && {
                let i = old(world)@.entity_index(entity);
                let e = old(world)@.entities[i];
                if e.os_window.width == 0 || e.os_window.height == 0 {
                    final(world)@ == old(world)@
                } else {
                    final(world)@ == surface_replaced(old(world)@, i)
                }
            },
            Err(e) => final(world)@ == old(world)@ && match e {
                RuntimeError::MissingWindowEntity(en) => en == entity
                    && !old(world)@.has_entity(entity),
                RuntimeError::SurfaceAllocationFailed(en) => en == entity
                    && old(world)@.has_entity(entity) && {
                    let i = old(world)@.entity_index(entity);
                    let e = old(world)@.entities[i];
                    &&& e.os_window.width != 0
                    &&& e.os_window.height != 0
                    &&& (!valid_surface_dims(
                        e.os_window.width as i32 as int,
                        e.os_window.height as i32 as int,
                    ) || e.surface_generation == u64::MAX)
                },
                RuntimeError::EventOverflow => !bus_can_post(old(world)@.bus, EventKind::Repaint),
                _ => false,
            },
        },
{
    let i = match world.find_entity(entity) {
        Some(i) => i,
        None => {
            return Err(RuntimeError::MissingWindowEntity(entity));
        },
    };
    proof {
        lemma_entity_index_unique(world@, i as int);
    }
    let (width, height) = world.entities[i].bundle.os_window.get_draw_bounds();
    // A zero-area resize keeps the old surface: the rasterizer crashes on
    // zero-sized surfaces, so the guard lives here, not in the driver.
    if width == 0 || height == 0 {
        return Ok(());
    }
    if world.entities[i].surface_generation == u64::MAX {
        return Err(RuntimeError::SurfaceAllocationFailed(entity));
    }
    if !world.bus.can_post(EventKind::Repaint) {
        return Err(RuntimeError::EventOverflow);
    }
    let surface = match Surface::new_cpu(&world.entities[i].bundle.os_window) {
        Ok(s) => s,
        Err(_) => {
            return Err(RuntimeError::SurfaceAllocationFailed(entity));
        },
    };
    let ghost pre = world@;
    let we = &mut world.entities[i];
    let ghost old_we = we@;
    we.surface = Some(surface);
    we.surface_generation = we.surface_generation + 1;
    let repaint_target = we.entity;
    proof {
        assert(pre.entities[i as int] == old_we);
    }
    world.bus.post(RuntimeEvent::Repaint { entity: repaint_target });
    proof {
        let m = surface_replaced(pre, i as int);
        assert(world@.entities =~= m.entities);
        assert(world@ == m);
        lemma_world_entity_updated_wf(pre, i as int, m.entities[i as int]);
        let mid = WorldModel { entities: pre.entities.update(i as int, m.entities[i as int]), ..pre };
        lemma_world_post_wf(mid, RuntimeEvent::Repaint { entity: repaint_target });
        assert(world@ == (WorldModel {
            bus: bus_post(mid.bus, RuntimeEvent::Repaint { entity: repaint_target }),
            ..mid
        }));
    }
    Ok(())
}

/// On a well-formed store an entity identifier names at most one live
/// window, so any position holding it is its position.
pub proof fn lemma_entity_index_unique(w: WorldModel, i: int)
    requires
        w.wf(),
        0 <= i < w.entities.len(),
    ensures
        w.entity_index(w.entities[i].entity) == i,
{
    let entity = w.entities[i].entity;
    assert(w.has_entity(entity));
    let j = w.entity_index(entity);
    assert(0 <= j < w.entities.len() && w.entities[j].entity == entity);
}

/// The store once the surface system has read its queue and taken the
/// newly-created marks.
pub open spec fn resize_reader_caught_up(w: WorldModel) -> WorldModel {
    WorldModel {
        cursors: ReaderCursors {
            resize: caught_up_cursor(w, EventKind::Resize, w.cursors.resize),
            ..w.cursors
        },
        fresh: Seq::empty(),
        ..w
    }
}

/// One surface upkeep step: positive draw bounds replace the entity's
/// surface and queue one `Repaint`; zero-area bounds, or an entity that
/// is gone, leave everything alone.
pub open spec fn surface_step(w: WorldModel, entity: u64) -> WorldModel {
    if !w.has_entity(entity) {
        w
    } else {
        let i = w.entity_index(entity);
        let e = w.entities[i];
        if e.os_window.width == 0 || e.os_window.height == 0 {
            w
        } else {
            surface_replaced(w, i)
        }
    }
}

/// The surface upkeep step as a foldable function.
pub open spec fn surface_step_fn() -> spec_fn(WorldModel, u64) -> WorldModel {
    |w: WorldModel, entity: u64| surface_step(w, entity)
}

/// The entities the surface system works through this run: first every
/// window an unread `Resize` names, then every newly created window.
pub open spec fn surface_targets(w: WorldModel) -> Seq<u64> {
    event_entities(pending_resize_events(w)) + w.fresh
}

/// Exactly the conditions under which one surface upkeep step stops
/// with a fault, mirroring `refresh_surface_for`.
pub open spec fn surface_step_blocked(w: WorldModel, entity: u64, err: RuntimeError) -> bool {
    match err {
        RuntimeError::MissingWindowEntity(en) => en == entity && !w.has_entity(entity),
        RuntimeError::SurfaceAllocationFailed(en) => en == entity && w.has_entity(entity) && {
            let e = w.entities[w.entity_index(entity)];
            &&& e.os_window.width != 0
            &&& e.os_window.height != 0
            &&& (!valid_surface_dims(
                e.os_window.width as i32 as int,
                e.os_window.height as i32 as int,
            ) || e.surface_generation == u64::MAX)
        },
        RuntimeError::EventOverflow => !bus_can_post(w.bus, EventKind::Repaint),
        _ => false,
    }
}

/// Replaces the surface of every window a `Resize` points at and gives
/// every newly created window its first surface, emitting one `Repaint`
/// per replaced surface; zero-area windows keep what they have.  Resize
/// events are read without consuming them; the newly-created marks are
/// consumed.  On success the store is exactly the fold of the per-window
/// step over the targets, in order; a fault is exactly a step's fault at
/// the state the fold had reached.
pub fn create_surface_for_window_system<W: Window>(world: &mut World<W>) -> (r: Result<
    (),
    RuntimeError,
>)
    requires
        old(world)@.wf(),
    ensures
        final(world)@.wf(),
        final(world)@.control_flow == old(world)@.control_flow,
        r.is_ok() ==> final(world)@.fresh == Seq::<u64>::empty(),
        r.is_ok() ==> pending_resize_events(final(world)@).len() == 0,
        r.is_ok() ==> final(world)@ == fold_steps(
            resize_reader_caught_up(old(world)@),
            surface_targets(old(world)@),
            surface_step_fn(),
        ),
        match r {
            Ok(_) => true,
            Err(err) => exists|k: int|
                0 <= k < surface_targets(old(world)@).len() && #[trigger] surface_step_blocked(
                    fold_steps(
                        resize_reader_caught_up(old(world)@),
                        surface_targets(old(world)@).take(k),
                        surface_step_fn(),
                    ),
                    surface_targets(old(world)@)[k],
                    err,
                ),
        },
{
    let (events, new_cursor) = world.bus.read_kind_from(EventKind::Resize, world.cursors.resize);
    world.cursors.resize = new_cursor;
    let mut fresh: Vec<u64> = Vec::new();
    core::mem::swap(&mut world.fresh_windows, &mut fresh);
    let ghost base = resize_reader_caught_up(old(world)@);
    let ghost targets = surface_targets(old(world)@);
    proof {
        assert(world@.entities =~= old(world)@.entities);
        assert(world@.pending =~= old(world)@.pending);
        assert(world@.wf());
        if bus_has(world@.bus, EventKind::Resize) {
            lemma_read_all_means_nothing_unread(bus_queue(world@.bus, EventKind::Resize));
        }
        assert(pending_resize_events(world@).len() == 0);
        assert(world@ == base);
        assert(events@ == pending_resize_events(old(world)@));
        assert(fresh@ == old(world)@.fresh);
        assert forall|j: int| 0 <= j < events@.len() implies kind_of(#[trigger] events@[j])
            == EventKind::Resize by {
            let q = bus_queue(old(world)@.bus, EventKind::Resize);
            let c = old(world)@.cursors.resize as nat;
            if c <= q.first_position() {
                assert(events@[j] == q.buffered()[j]);
            } else {
                assert(events@[j] == q.buffered()[j + c - q.first_position()]);
            }
        }
        assert(targets =~= event_entities(events@) + fresh@);
    }
    let n = events.len();
    let mut i: usize = 0;
    while i < n
        invariant
            i <= n,
            n == events@.len(),
            events@ == pending_resize_events(old(world)@),
            fresh@ == old(world)@.fresh,
            targets == surface_targets(old(world)@),
            targets == event_entities(events@) + fresh@,
            forall|j: int|
                0 <= j < events@.len() ==> kind_of(#[trigger] events@[j]) == EventKind::Resize,
            old(world)@.wf(),
            world@.wf(),
            base == resize_reader_caught_up(old(world)@),
            world@ == fold_steps(base, targets.take(i as int), surface_step_fn()),
            base.control_flow == old(world)@.control_flow,
            world@.control_flow == old(world)@.control_flow,
            world@.fresh == Seq::<u64>::empty(),
            pending_resize_events(world@).len() == 0,
        decreases n - i,
    {
        match events[i] {
            RuntimeEvent::Resize { window_id: _, entity } => {
                let ghost step_pre = world@;
                match refresh_surface_for(world, entity) {
                    Ok(()) => {
                        proof {
                            lemma_surface_step_keeps_resize_reader(step_pre, world@, entity);
                            assert(world@ == surface_step(step_pre, entity));
                            assert(targets[i as int] == entity);
                            assert(targets.take(i + 1) =~= targets.take(i as int).push(entity));
                            lemma_fold_steps_snoc(
                                base,
                                targets.take(i as int),
                                surface_step_fn(),
                                entity,
                            );
                        }
                    },
                    Err(e) => {
                        proof {
                            assert(targets[i as int] == entity);
                            assert((i as int) < surface_targets(old(world)@).len());
                            assert(surface_step_blocked(
                                fold_steps(
                                    resize_reader_caught_up(old(world)@),
                                    surface_targets(old(world)@).take(i as int),
                                    surface_step_fn(),
                                ),
                                surface_targets(old(world)@)[i as int],
                                e,
                            ));
                        }
                        return Err(e);
                    },
                }
            },
            _ => {
                proof {
                    assert(kind_of(events@[i as int]) == EventKind::Resize);
                }
            },
        }
        i = i + 1;
    }
    let m = fresh.len();
    let mut j: usize = 0;
    while j < m
        invariant
            j <= m,
            m == fresh@.len(),
            n == events@.len(),
            events@ == pending_resize_events(old(world)@),
            fresh@ == old(world)@.fresh,
            targets == surface_targets(old(world)@),
            targets == event_entities(events@) + fresh@,
            old(world)@.wf(),
            world@.wf(),
            base == resize_reader_caught_up(old(world)@),
            world@ == fold_steps(base, targets.take(n + j), surface_step_fn()),
            base.control_flow == old(world)@.control_flow,
            world@.control_flow == old(world)@.control_flow,
            world@.fresh == Seq::<u64>::empty(),
            pending_resize_events(world@).len() == 0,
        decreases m - j,
    {
        let entity = fresh[j];
        let ghost step_pre = world@;
        match refresh_surface_for(world, entity) {
            Ok(()) => {
                proof {
                    lemma_surface_step_keeps_resize_reader(step_pre, world@, entity);
                    assert(world@ == surface_step(step_pre, entity));
                    assert(targets[n + j] == entity);
                    assert(targets.take(n + j + 1) =~= targets.take(n + j).push(entity));
                    lemma_fold_steps_snoc(base, targets.take(n + j), surface_step_fn(), entity);
                }
            },
            Err(e) => {
                proof {
                    assert(targets[n + j] == entity);
                    assert(((n + j) as int) < surface_targets(old(world)@).len());
                    assert(surface_step_blocked(
                        fold_steps(
                            resize_reader_caught_up(old(world)@),
                            surface_targets(old(world)@).take(n + j),
                            surface_step_fn(),
                        ),
                        surface_targets(old(world)@)[n + j],
                        e,
                    ));
                }
                return Err(e);
            },
        }
        j = j + 1;
    }
    proof {
        assert(targets.take((n + m) as int) =~= targets);
    }
    Ok(())
}
/// The store after one window's surface is shown: its OS window holds
/// the surface's pixels as its presented frame.
pub open spec fn frame_presented(w: WorldModel, i: int) -> WorldModel {
    let e = w.entities[i];
    WorldModel {
        entities: w.entities.update(
            i,
            WindowEntityModel {
                os_window: OsWindowModel { presented: e.surface, ..e.os_window },
                ..e
            },
        ),
        ..w
    }
}

/// Presents one entity's surface onto its OS window.  An entity that is
/// gone, or has no surface yet, is quietly skipped — a repaint may
/// outlive its window; a presentation failure is fatal.
pub fn handle_repaint_event<W: Window>(world: &mut World<W>, entity: u64) -> (r: Result<
    (),
    RuntimeError,
>)
    requires
        old(world)@.wf(),
    ensures
        final(world)@.wf(),
        match r {
            Ok(()) => {
                if !old(world)@.has_entity(entity) {
                    final(world)@ == old(world)@
                } else {
                    let i = old(world)@.entity_index(entity);
                    if old(world)@.entities[i].surface.is_none() {
                        final(world)@ == old(world)@
                    } else {
                        final(world)@ == frame_presented(old(world)@, i)
                    }
                }
            },
            Err(e) => final(world)@ == old(world)@ && match e {
                RuntimeError::PresentationFailed(en) => en == entity && old(world)@.has_entity(
                    entity,
                ) && old(world)@.entities[old(world)@.entity_index(entity)].surface.is_some(),
                _ => false,
            },
        },
{
    let i = match world.find_entity(entity) {
        Some(i) => i,
        None => {
            return Ok(());
        },
    };
    proof {
        lemma_entity_index_unique(world@, i as int);
    }
    let ghost pre = world@;
    let we = &mut world.entities[i];
    let ghost old_we = we@;
    let outcome = match &mut we.surface {
        Some(surface) => Some(surface.present_surface(&mut we.bundle.os_window)),
        None => None,
    };
    match outcome {
        None => {
            proof {
                assert(world@.entities =~= pre.entities);
                assert(world@ == pre);
            }
            Ok(())
        },
        Some(Ok(())) => {
            proof {
                assert(pre.entities[i as int] == old_we);
                let m = frame_presented(pre, i as int);
                assert(world@.entities[i as int].os_window == m.entities[i as int].os_window);
                assert(world@.entities =~= m.entities);
                assert(world@ == m);
                lemma_world_entity_updated_wf(pre, i as int, m.entities[i as int]);
            }
            Ok(())
        },
        Some(Err(_)) => {
            proof {
                assert(world@.entities =~= pre.entities);
                assert(world@ == pre);
            }
            Err(RuntimeError::PresentationFailed(entity))
        },
    }
}

/// Presents the surface of every window a buffered `Repaint` names,
/// reading the events without consuming them.
/// The store once the presentation system has read its queue.
pub open spec fn repaint_reader_caught_up(w: WorldModel) -> WorldModel {
    WorldModel {
        cursors: ReaderCursors {
            repaint: caught_up_cursor(w, EventKind::Repaint, w.cursors.repaint),
            ..w.cursors
        },
        ..w
    }
}

/// One presentation step: the entity's surface becomes its window's
/// presented frame; an entity that is gone, or has no surface, is left
/// alone.
pub open spec fn repaint_step(w: WorldModel, entity: u64) -> WorldModel {
    if !w.has_entity(entity) {
        w
    } else {
        let i = w.entity_index(entity);
        if w.entities[i].surface.is_none() {
            w
        } else {
            frame_presented(w, i)
        }
    }
}

/// The presentation step as a foldable function.
pub open spec fn repaint_step_fn() -> spec_fn(WorldModel, u64) -> WorldModel {
    |w: WorldModel, entity: u64| repaint_step(w, entity)
}

/// Whether two runs of live windows agree on entity identity and on
/// which surfaces they carry; presentation changes neither.
pub open spec fn same_entities_and_surfaces(
    pre: Seq<WindowEntityModel>,
    post: Seq<WindowEntityModel>,
) -> bool {
    &&& pre.len() == post.len()
    &&& forall|j: int|
        0 <= j < pre.len() ==> (#[trigger] post[j]).entity == pre[j].entity && post[j].surface
            == pre[j].surface
}

pub fn repaint_and_present_windows<W: Window>(world: &mut World<W>) -> (r: Result<
    (),
    RuntimeError,
>)
    requires
        old(world)@.wf(),
    ensures
        final(world)@.wf(),
        final(world)@.control_flow == old(world)@.control_flow,
        r.is_ok() ==> pending_repaint_events(final(world)@).len() == 0,
        r.is_ok() ==> final(world)@ == fold_steps(
            repaint_reader_caught_up(old(world)@),
            event_entities(pending_repaint_events(old(world)@)),
            repaint_step_fn(),
        ),
        match r {
            Ok(_) => true,
            Err(err) => match err {
                RuntimeError::PresentationFailed(en) => event_entities(
                    pending_repaint_events(old(world)@),
                ).contains(en) && old(world)@.has_entity(en)
                    && old(world)@.entities[old(world)@.entity_index(en)].surface.is_some(),
                _ => false,
            },
        },
{
    let (events, new_cursor) = world.bus.read_kind_from(EventKind::Repaint, world.cursors.repaint);
    world.cursors.repaint = new_cursor;
    let ghost base = repaint_reader_caught_up(old(world)@);
    let ghost targets = event_entities(pending_repaint_events(old(world)@));
    proof {
        assert(world@.entities =~= old(world)@.entities);
        assert(world@.pending =~= old(world)@.pending);
        assert(world@.wf());
        if bus_has(world@.bus, EventKind::Repaint) {
            lemma_read_all_means_nothing_unread(bus_queue(world@.bus, EventKind::Repaint));
        }
        assert(pending_repaint_events(world@).len() == 0);
        assert(world@ == base);
        assert(events@ == pending_repaint_events(old(world)@));
        assert forall|j: int| 0 <= j < events@.len() implies kind_of(#[trigger] events@[j])
            == EventKind::Repaint by {
            assert(events@[j] == bus_queue(old(world)@.bus, EventKind::Repaint).visible_from(
                old(world)@.cursors.repaint as nat,
            )[j]);
            let q = bus_queue(old(world)@.bus, EventKind::Repaint);
            let c = old(world)@.cursors.repaint as nat;
            if c <= q.first_position() {
                assert(events@[j] == q.buffered()[j]);
            } else {
                assert(events@[j] == q.buffered()[j + c - q.first_position()]);
            }
        }
        assert(targets.len() == events@.len());
    }
    let n = events.len();
    let mut i: usize = 0;
    while i < n
        invariant
            i <= n,
            n == events@.len(),
            events@ == pending_repaint_events(old(world)@),
            targets == event_entities(events@),
            forall|j: int|
                0 <= j < events@.len() ==> kind_of(#[trigger] events@[j]) == EventKind::Repaint,
            old(world)@.wf(),
            world@.wf(),
            world@ == fold_steps(base, targets.take(i as int), repaint_step_fn()),
            world@.control_flow == old(world)@.control_flow,
            base.control_flow == old(world)@.control_flow,
            pending_repaint_events(world@).len() == 0,
            same_entities_and_surfaces(old(world)@.entities, world@.entities),
        decreases n - i,
    {
        match events[i] {
            RuntimeEvent::Repaint { entity } => {
                let ghost step_pre = world@;
                match handle_repaint_event(world, entity) {
                    Ok(()) => {
                        proof {
                            assert(world@.bus == step_pre.bus);
                            assert(world@.cursors == step_pre.cursors);
                            assert(pending_repaint_events(world@) =~= pending_repaint_events(
                                step_pre,
                            ));
                            assert(world@ == repaint_step(step_pre, entity));
                            assert(targets[i as int] == entity);
                            assert(targets.take(i + 1) =~= targets.take(i as int).push(entity));
                            lemma_fold_steps_snoc(
                                base,
                                targets.take(i as int),
                                repaint_step_fn(),
                                entity,
                            );
                            if step_pre.has_entity(entity) && step_pre.entities[step_pre.entity_index(entity)].surface.is_some() {
                                let di = step_pre.entity_index(entity);
                                assert(same_entities_and_surfaces(step_pre.entities, world@.entities));
                            }
                        }
                    },
                    Err(e) => {
                        proof {
                            assert(targets[i as int] == entity);
                            assert(targets.contains(entity));
                            assert(step_pre.has_entity(entity));
                            let mi = step_pre.entity_index(entity);
                            assert(step_pre.entities[mi].entity == entity);
                            assert(old(world)@.entities[mi].entity == entity);
                            assert(old(world)@.has_entity(entity));
                            lemma_entity_index_unique(old(world)@, mi);
                            assert(old(world)@.entity_index(entity) == mi);
                            assert(old(world)@.entities[mi].surface == step_pre.entities[mi].surface);
                        }
                        return Err(e);
                    },
                }
            },
            _ => {
                proof {
                    assert(kind_of(events@[i as int]) == EventKind::Repaint);
                }
            },
        }
        i = i + 1;
    }
    proof {
        assert(targets.take(n as int) =~= targets);
    }
    Ok(())
}

/// The events of one kind a reader at `cursor` has not seen yet.
pub open spec fn unread_events(w: WorldModel, kind: EventKind, cursor: u64) -> Seq<RuntimeEvent> {
    if bus_has(w.bus, kind) {
        bus_queue(w.bus, kind).visible_from(cursor as nat)
    } else {
        Seq::empty()
    }
}

/// The `CloseRequested` events the close system has not processed yet.
pub open spec fn pending_close_events(w: WorldModel) -> Seq<RuntimeEvent> {
    unread_events(w, EventKind::CloseRequested, w.cursors.close_requested)
}

/// The `Destroy` events the teardown system has not processed yet.
pub open spec fn pending_destroy_events(w: WorldModel) -> Seq<RuntimeEvent> {
    unread_events(w, EventKind::Destroy, w.cursors.destroy)
}

/// The `Resize` events the surface system has not processed yet.
pub open spec fn pending_resize_events(w: WorldModel) -> Seq<RuntimeEvent> {
    unread_events(w, EventKind::Resize, w.cursors.resize)
}

/// The `Repaint` events the presentation system has not processed yet.
pub open spec fn pending_repaint_events(w: WorldModel) -> Seq<RuntimeEvent> {
    unread_events(w, EventKind::Repaint, w.cursors.repaint)
}

/// Whether one of the events asks to tear this entity down.
pub open spec fn names_destroyed(events: Seq<RuntimeEvent>, x: u64) -> bool {
    exists|i: int| 0 <= i < events.len() && events[i] == (RuntimeEvent::Destroy { entity: x })
}

/// The store after a close request is answered: a window allowed to
/// close has exactly one `Destroy` for its entity queued; one kept open
/// is left entirely alone.
pub open spec fn close_verdict_applied(w: WorldModel, entity: u64, may_close: bool) -> WorldModel {
    if may_close {
        WorldModel { bus: bus_post(w.bus, RuntimeEvent::Destroy { entity }), ..w }
    } else {
        w
    }
}

/// Carries out a window behavior's answer to a close request.  `true`
/// queues exactly one `Destroy` for the entity; `false` queues nothing —
/// no `Destroy` is ever emitted for a refused close, and the window
/// entity stays exactly as it is.
pub fn handle_close_verdict<W: Window>(world: &mut World<W>, entity: u64, may_close: bool) -> (r:
    Result<(), RuntimeError>)
    requires
        old(world)@.wf(),
    ensures
        final(world)@.wf(),
        match r {
            Ok(()) => final(world)@ == close_verdict_applied(old(world)@, entity, may_close),
            Err(e) => final(world)@ == old(world)@ && match e {
                RuntimeError::EventOverflow => may_close && !bus_can_post(
                    old(world)@.bus,
                    EventKind::Destroy,
                ),
                _ => false,
            },
        },
{
    if !may_close {
        return Ok(());
    }
    if !world.bus.can_post(EventKind::Destroy) {
        return Err(RuntimeError::EventOverflow);
    }
    let ghost pre = world@;
    world.bus.post(RuntimeEvent::Destroy { entity });
    proof {
        lemma_world_post_wf(pre, RuntimeEvent::Destroy { entity });
        assert(world@ == (WorldModel {
            bus: bus_post(pre.bus, RuntimeEvent::Destroy { entity }),
            ..pre
        }));
    }
    Ok(())
}

/// The title a hook context asks for, as a character run.
pub open spec fn requested_title(ctx: WindowContext) -> Option<Seq<char>> {
    match ctx.title_change {
        Some(t) => Some(t@),
        None => None,
    }
}

/// The store after one window is retitled in place.
pub open spec fn window_retitled(w: WorldModel, i: int, title: Seq<char>) -> WorldModel {
    let e = w.entities[i];
    WorldModel {
        entities: w.entities.update(
            i,
            WindowEntityModel {
                os_window: OsWindowModel { title, ..e.os_window },
                ..e
            },
        ),
        ..w
    }
}

/// The title half of a hook's requests: a title change lands on the
/// entity's window if it still lives.
pub open spec fn close_title_applied(
    w: WorldModel,
    entity: u64,
    title_change: Option<Seq<char>>,
) -> WorldModel {
    match title_change {
        Some(t) => if w.has_entity(entity) {
            window_retitled(w, w.entity_index(entity), t)
        } else {
            w
        },
        None => w,
    }
}

/// What one behavior hook's requests do once applied: its title change
/// lands on its window, its shutdown request is posted.
pub open spec fn close_hook_applied(
    w: WorldModel,
    entity: u64,
    title_change: Option<Seq<char>>,
    shutdown: bool,
) -> WorldModel {
    let w1 = close_title_applied(w, entity, title_change);
    if shutdown {
        WorldModel { bus: bus_post(w1.bus, RuntimeEvent::ShutdownEventLoop), ..w1 }
    } else {
        w1
    }
}

/// What one behavior answered to a close request: its hook's requests
/// and its verdict.
pub struct CloseWitness {
    pub title_change: Option<Seq<char>>,
    pub shutdown: bool,
    pub may_close: bool,
}

/// The store once the close system has read its queue; it does not
/// touch its cursor when nothing is buffered.
pub open spec fn close_reader_caught_up(w: WorldModel) -> WorldModel {
    if bus_has(w.bus, EventKind::CloseRequested) && bus_queue(
        w.bus,
        EventKind::CloseRequested,
    ).buffered().len() > 0 {
        WorldModel {
            cursors: ReaderCursors {
                close_requested: bus_queue(w.bus, EventKind::CloseRequested).total as u64,
                ..w.cursors
            },
            ..w
        }
    } else {
        w
    }
}

/// The requested windows paired with what their behaviors answered.
pub open spec fn paired_answers(reqs: Seq<u64>, wits: Seq<CloseWitness>) -> Seq<(u64, CloseWitness)> {
    Seq::new(reqs.len(), |i: int| (reqs[i], wits[i]))
}

/// One hook application as a foldable function over such a pair.
pub open spec fn close_hook_step_fn() -> spec_fn(WorldModel, (u64, CloseWitness)) -> WorldModel {
    |w: WorldModel, p: (u64, CloseWitness)| close_hook_applied(w, p.0, p.1.title_change, p.1.shutdown)
}

/// One teardown order as a foldable function.
pub open spec fn destroy_emit_step_fn() -> spec_fn(WorldModel, u64) -> WorldModel {
    |w: WorldModel, entity: u64| close_verdict_applied(w, entity, true)
}

/// The windows whose behaviors granted their close, in request order.
pub open spec fn granted_closes(reqs: Seq<u64>, wits: Seq<CloseWitness>) -> Seq<u64>
    decreases reqs.len(),
{
    if reqs.len() == 0 || wits.len() == 0 {
        Seq::empty()
    } else {
        let rest = granted_closes(reqs.drop_first(), wits.drop_first());
        if wits[0].may_close {
            seq![reqs[0]] + rest
        } else {
            rest
        }
    }
}

/// One more answered request extends the granted run by its window,
/// exactly when the behavior granted the close.
pub proof fn lemma_granted_closes_snoc(reqs: Seq<u64>, wits: Seq<CloseWitness>, e: u64, wit: CloseWitness)
    requires
        reqs.len() == wits.len(),
    ensures
        granted_closes(reqs.push(e), wits.push(wit)) == (if wit.may_close {
            granted_closes(reqs, wits).push(e)
        } else {
            granted_closes(reqs, wits)
        }),
    decreases reqs.len(),
{
    if reqs.len() == 0 {
        assert(reqs.push(e)[0] == e);
        assert(reqs.push(e).drop_first() =~= Seq::<u64>::empty());
        assert(wits.push(wit).drop_first() =~= Seq::<CloseWitness>::empty());
        assert(granted_closes(Seq::<u64>::empty(), Seq::<CloseWitness>::empty())
            =~= Seq::<u64>::empty());
        assert(granted_closes(reqs, wits) =~= Seq::<u64>::empty());
        if wit.may_close {
            assert(granted_closes(reqs.push(e), wits.push(wit)) =~= seq![e] + Seq::<u64>::empty());
            assert(granted_closes(reqs.push(e), wits.push(wit)) =~= granted_closes(
                reqs,
                wits,
            ).push(e));
        } else {
            assert(granted_closes(reqs.push(e), wits.push(wit)) =~= granted_closes(reqs, wits));
        }
    } else {
        assert(reqs.push(e)[0] == reqs[0]);
        assert(reqs.push(e).drop_first() =~= reqs.drop_first().push(e));
        assert(wits.push(wit).drop_first() =~= wits.drop_first().push(wit));
        lemma_granted_closes_snoc(reqs.drop_first(), wits.drop_first(), e, wit);
        let tail = granted_closes(reqs.drop_first(), wits.drop_first());
        let tail_pushed = granted_closes(reqs.drop_first().push(e), wits.drop_first().push(wit));
        assert(granted_closes(reqs.push(e), wits.push(wit)) == (if wits[0].may_close {
            seq![reqs[0]] + tail_pushed
        } else {
            tail_pushed
        }));
        assert(granted_closes(reqs, wits) == (if wits[0].may_close {
            seq![reqs[0]] + tail
        } else {
            tail
        }));
        if wits[0].may_close {
            if wit.may_close {
                assert((seq![reqs[0]] + tail).push(e) =~= seq![reqs[0]] + tail.push(e));
                assert(granted_closes(reqs.push(e), wits.push(wit)) =~= granted_closes(
                    reqs,
                    wits,
                ).push(e));
            } else {
                assert(granted_closes(reqs.push(e), wits.push(wit)) =~= granted_closes(reqs, wits));
            }
        } else {
            if wit.may_close {
                assert(granted_closes(reqs.push(e), wits.push(wit)) =~= granted_closes(
                    reqs,
                    wits,
                ).push(e));
            }
        }
    }
}

/// The full witnessed run of the close system: every behavior's hook
/// requests applied in request order, then exactly one `Destroy` queued
/// per granted close, in order, and none for a refused one.
pub open spec fn close_run_witnessed(
    pre: WorldModel,
    wits: Seq<CloseWitness>,
    post: WorldModel,
) -> bool {
    let reqs = event_entities(pending_close_events(pre));
    &&& wits.len() == reqs.len()
    &&& post == fold_steps(
        fold_steps(close_reader_caught_up(pre), paired_answers(reqs, wits), close_hook_step_fn()),
        granted_closes(reqs, wits),
        destroy_emit_step_fn(),
    )
}

/// Whether two stores hold the same live windows, identical in
/// everything but their titles: close requests may retitle windows but
/// never add, remove or otherwise change them.
pub open spec fn same_windows_up_to_titles(pre: Seq<WindowEntityModel>, post: Seq<
    WindowEntityModel,
>) -> bool {
    &&& pre.len() == post.len()
    &&& forall|i: int|
        0 <= i < pre.len() ==> (#[trigger] post[i]) == (WindowEntityModel {
            os_window: OsWindowModel { title: post[i].os_window.title, ..pre[i].os_window },
            ..pre[i]
        })
}

/// Applies the requests a behavior hook made through its context to the
/// entity the hook ran for: a title change lands on the entity's OS
/// window, a shutdown request is posted.
fn apply_window_commands<W: Window>(world: &mut World<W>, entity: u64, ctx: &WindowContext) -> (r:
    Result<(), RuntimeError>)
    requires
        old(world)@.wf(),
    ensures
        final(world)@.wf(),
        same_windows_up_to_titles(old(world)@.entities, final(world)@.entities),
        final(world)@.callback_keys == old(world)@.callback_keys,
        final(world)@.pending == old(world)@.pending,
        final(world)@.control_flow == old(world)@.control_flow,
        final(world)@.next_window_id == old(world)@.next_window_id,
        final(world)@.next_entity == old(world)@.next_entity,
        final(world)@.fresh == old(world)@.fresh,
        final(world)@.cursors == old(world)@.cursors,
        final(world)@.target == old(world)@.target,
        match r {
            Ok(()) => final(world)@ == close_hook_applied(
                old(world)@,
                entity,
                requested_title(*ctx),
                ctx.shutdown_requested,
            ),
            Err(e) => final(world)@ == close_title_applied(
                old(world)@,
                entity,
                requested_title(*ctx),
            ) && match e {
                RuntimeError::EventOverflow => ctx.shutdown_requested && !bus_can_post(
                    old(world)@.bus,
                    EventKind::ShutdownEventLoop,
                ),
                _ => false,
            },
        },
{
    let ghost pre = world@;
    match &ctx.title_change {
        Some(title) => {
            match world.find_entity(entity) {
                Some(i) => {
                    proof {
                        lemma_entity_index_unique(pre, i as int);
                    }
                    let we = &mut world.entities[i];
                    let ghost old_we = we@;
                    we.bundle.os_window.set_title(title.as_str());
                    proof {
                        assert(pre.entities[i as int] == old_we);
                        let refreshed = WindowEntityModel {
                            os_window: OsWindowModel { title: title@, ..old_we.os_window },
                            ..old_we
                        };
                        assert(world@.entities =~= pre.entities.update(i as int, refreshed));
                        lemma_world_entity_updated_wf(pre, i as int, refreshed);
                        assert(world@ == (WorldModel {
                            entities: pre.entities.update(i as int, refreshed),
                            ..pre
                        }));
                    }
                },
                None => {},
            }
        },
        None => {},
    }
    let ghost mid = world@;
    proof {
        assert(same_windows_up_to_titles(pre.entities, mid.entities));
        assert(mid == close_title_applied(pre, entity, requested_title(*ctx)));
    }
    if ctx.shutdown_requested {
        if !world.bus.can_post(EventKind::ShutdownEventLoop) {
            return Err(RuntimeError::EventOverflow);
        }
        world.bus.post(RuntimeEvent::ShutdownEventLoop);
        proof {
            lemma_world_post_wf(mid, RuntimeEvent::ShutdownEventLoop);
            assert(world@ == (WorldModel {
                bus: bus_post(mid.bus, RuntimeEvent::ShutdownEventLoop),
                ..mid
            }));
        }
    }
    Ok(())
}

/// Asks each window a buffered `CloseRequested` names whether it may
/// close, and queues a `Destroy` for exactly the windows whose behavior
/// agreed: on success the store is the witnessed run of every hook's
/// requests followed by one `Destroy` per granted close, in order, and
/// none for a refused one.  No window entity is created or destroyed
/// here, whatever the behaviors answer: a refused close leaves the
/// window standing.
pub fn windows_close_requested_system<W: Window>(world: &mut World<W>) -> (r: Result<
    (),
    RuntimeError,
>)
    requires
        old(world)@.wf(),
    ensures
        final(world)@.wf(),
        final(world)@.control_flow == old(world)@.control_flow,
        same_windows_up_to_titles(old(world)@.entities, final(world)@.entities),
        final(world)@.callback_keys == old(world)@.callback_keys,
        r.is_ok() ==> pending_close_events(final(world)@).len() == 0,
        r.is_ok() ==> exists|wits: Seq<CloseWitness>|
            #[trigger] close_run_witnessed(old(world)@, wits, final(world)@),
        match r {
            Ok(_) => true,
            Err(err) => match err {
                RuntimeError::MissingCallbacks(en) => event_entities(
                    pending_close_events(old(world)@),
                ).contains(en) && !old(world)@.callback_keys.contains(en),
                RuntimeError::EventOverflow => !crate::events::bus_headroom(
                    old(world)@.bus,
                    2 * event_entities(pending_close_events(old(world)@)).len(),
                ),
                _ => false,
            },
        },
        (forall|j: int|
            0 <= j < event_entities(pending_close_events(old(world)@)).len()
                ==> old(world)@.callback_keys.contains(
                #[trigger] event_entities(pending_close_events(old(world)@))[j],
            )) && crate::events::bus_headroom(
            old(world)@.bus,
            2 * event_entities(pending_close_events(old(world)@)).len(),
        ) ==> r.is_ok(),
{
    let ghost reqs = event_entities(pending_close_events(old(world)@));
    let ghost base = close_reader_caught_up(old(world)@);
    if !world.bus.kind_has_events(EventKind::CloseRequested) {
        proof {
            assert(same_windows_up_to_titles(world@.entities, world@.entities));
            lemma_no_buffered_means_nothing_unread(
                world@,
                EventKind::CloseRequested,
                world@.cursors.close_requested,
            );
            assert(reqs =~= Seq::<u64>::empty());
            assert(paired_answers(reqs, Seq::<CloseWitness>::empty())
                =~= Seq::<(u64, CloseWitness)>::empty());
            assert(granted_closes(reqs, Seq::<CloseWitness>::empty()) =~= Seq::<u64>::empty());
            assert(close_run_witnessed(old(world)@, Seq::<CloseWitness>::empty(), world@));
        }
        return Ok(());
    }
    let (events, new_cursor) = world.bus.read_kind_from(
        EventKind::CloseRequested,
        world.cursors.close_requested,
    );
    world.cursors.close_requested = new_cursor;
    proof {
        assert(world@.entities =~= old(world)@.entities);
        assert(world@.pending =~= old(world)@.pending);
        assert(world@.wf());
        assert(same_windows_up_to_titles(old(world)@.entities, world@.entities));
        lemma_read_all_means_nothing_unread(bus_queue(world@.bus, EventKind::CloseRequested));
        assert(pending_close_events(world@).len() == 0);
        assert(world@ == base);
        assert(events@ == pending_close_events(old(world)@));
        assert forall|j: int| 0 <= j < events@.len() implies kind_of(#[trigger] events@[j])
            == EventKind::CloseRequested by {
            let q = bus_queue(old(world)@.bus, EventKind::CloseRequested);
            let c = old(world)@.cursors.close_requested as nat;
            if c <= q.first_position() {
                assert(events@[j] == q.buffered()[j]);
            } else {
                assert(events@[j] == q.buffered()[j + c - q.first_position()]);
            }
        }
    }
    let mut requested = entity_batch_new();
    let n = events.len();
    let mut i: usize = 0;
    while i < n
        invariant
            i <= n,
            n == events@.len(),
            events@ == pending_close_events(old(world)@),
            reqs == event_entities(events@),
            forall|j: int|
                0 <= j < events@.len() ==> kind_of(#[trigger] events@[j])
                    == EventKind::CloseRequested,
            entity_batch_items(requested) == reqs.take(i as int),
            old(world)@.wf(),
            world@.wf(),
            base == close_reader_caught_up(old(world)@),
            world@ == base,
            pending_close_events(world@).len() == 0,
        decreases n - i,
    {
        match events[i] {
            RuntimeEvent::CloseRequested { entity } => {
                proof {
                    assert(reqs[i as int] == entity);
                    assert(reqs.take(i + 1) =~= reqs.take(i as int).push(entity));
                }
                entity_batch_push(&mut requested, entity);
            },
            _ => {
                proof {
                    assert(kind_of(events@[i as int]) == EventKind::CloseRequested);
                }
            },
        }
        i = i + 1;
    }
    proof {
        assert(reqs.take(n as int) =~= reqs);
    }
    let mut windows_to_close = entity_batch_new();
    let total = entity_batch_len(&requested);
    let ghost mut wits: Seq<CloseWitness> = Seq::empty();
    let mut k: usize = 0;
    while k < total
        invariant
            k <= total,
            total == entity_batch_items(requested).len(),
            entity_batch_items(requested) == reqs,
            total == reqs.len(),
            events@ == pending_close_events(old(world)@),
            reqs == event_entities(events@),
            old(world)@.wf(),
            world@.wf(),
            base == close_reader_caught_up(old(world)@),
            wits.len() == k,
            world@ == fold_steps(
                base,
                paired_answers(reqs.take(k as int), wits),
                close_hook_step_fn(),
            ),
            entity_batch_items(windows_to_close) == granted_closes(reqs.take(k as int), wits),
            entity_batch_items(windows_to_close).len() <= k,
            crate::events::bus_headroom(old(world)@.bus, 2 * reqs.len())
                ==> crate::events::bus_headroom(world@.bus, (2 * reqs.len() - k) as nat),
            pending_close_events(world@).len() == 0,
            world@.control_flow == old(world)@.control_flow,
            same_windows_up_to_titles(old(world)@.entities, world@.entities),
            world@.callback_keys == old(world)@.callback_keys,
        decreases total - k,
    {
        let entity = entity_batch_get(&requested, k);
        if !world.callbacks.contains(entity) {
            proof {
                assert(reqs[k as int] == entity);
                assert(reqs.contains(entity));
                assert(!old(world)@.callback_keys.contains(entity));
            }
            return Err(RuntimeError::MissingCallbacks(entity));
        }
        let ghost step_pre = world@;
        let mut ctx = WindowContext::new();
        let callbacks = world.callbacks.get_mut(entity);
        let may_close = callbacks.0.close_requested(&mut ctx);
        proof {
            assert(world@ == step_pre);
        }
        let ghost before_apply = world@;
        match apply_window_commands(world, entity, &ctx) {
            Ok(()) => {
                proof {
                    if ctx.shutdown_requested {
                        lemma_bus_post_effect(
                            close_title_applied(
                                before_apply,
                                entity,
                                requested_title(ctx),
                            ).bus,
                            RuntimeEvent::ShutdownEventLoop,
                            EventKind::CloseRequested,
                        );
                    }
                    assert(pending_close_events(world@) =~= pending_close_events(before_apply));
                    let wit = CloseWitness {
                        title_change: requested_title(ctx),
                        shutdown: ctx.shutdown_requested,
                        may_close,
                    };
                    assert(world@ == close_hook_applied(
                        before_apply,
                        entity,
                        wit.title_change,
                        wit.shutdown,
                    ));
                    assert(reqs[k as int] == entity);
                    assert(reqs.take(k + 1) =~= reqs.take(k as int).push(entity));
                    assert(paired_answers(reqs.take(k + 1), wits.push(wit)) =~= paired_answers(
                        reqs.take(k as int),
                        wits,
                    ).push((entity, wit)));
                    lemma_fold_steps_snoc(
                        base,
                        paired_answers(reqs.take(k as int), wits),
                        close_hook_step_fn(),
                        (entity, wit),
                    );
                    lemma_granted_closes_snoc(reqs.take(k as int), wits, entity, wit);
                    if crate::events::bus_headroom(old(world)@.bus, 2 * reqs.len()) {
                        if ctx.shutdown_requested {
                            crate::events::lemma_bus_post_headroom(
                                before_apply.bus,
                                RuntimeEvent::ShutdownEventLoop,
                                (2 * reqs.len() - k) as nat,
                            );
                        }
                        crate::events::lemma_headroom_monotone(
                            world@.bus,
                            if ctx.shutdown_requested {
                                (2 * reqs.len() - k - 1) as nat
                            } else {
                                (2 * reqs.len() - k) as nat
                            },
                            (2 * reqs.len() - (k + 1)) as nat,
                        );
                    }
                    wits = wits.push(wit);
                }
            },
            Err(e) => {
                proof {
                    assert(ctx.shutdown_requested && !bus_can_post(
                        before_apply.bus,
                        EventKind::ShutdownEventLoop,
                    ));
                    if crate::events::bus_headroom(old(world)@.bus, 2 * reqs.len()) {
                        crate::events::lemma_headroom_can_post(
                            before_apply.bus,
                            EventKind::ShutdownEventLoop,
                            (2 * reqs.len() - k) as nat,
                        );
                        assert(false);
                    }
                    let after = close_title_applied(before_apply, entity, requested_title(ctx));
                    assert(world@ == after);
                    assert forall|ii: int|
                        0 <= ii < old(world)@.entities.len() implies (
                    #[trigger] world@.entities[ii]) == (WindowEntityModel {
                        os_window: OsWindowModel {
                            title: world@.entities[ii].os_window.title,
                            ..old(world)@.entities[ii].os_window
                        },
                        ..old(world)@.entities[ii]
                    }) by {
                        match requested_title(ctx) {
                            Some(t) => {
                                if before_apply.has_entity(entity) {
                                    let ei = before_apply.entity_index(entity);
                                    if ii != ei {
                                        assert(world@.entities[ii] == before_apply.entities[ii]);
                                    }
                                } else {
                                    assert(world@.entities[ii] == before_apply.entities[ii]);
                                }
                            },
                            None => {
                                assert(world@.entities[ii] == before_apply.entities[ii]);
                            },
                        }
                    }
                    assert(same_windows_up_to_titles(old(world)@.entities, world@.entities));
                }
                return Err(e);
            },
        }
        if may_close {
            entity_batch_push(&mut windows_to_close, entity);
        }
        k = k + 1;
    }
    proof {
        assert(reqs.take(total as int) =~= reqs);
    }
    let ghost after_hooks = world@;
    let ghost granted = granted_closes(reqs, wits);
    let to_close = entity_batch_len(&windows_to_close);
    let mut c: usize = 0;
    while c < to_close
        invariant
            c <= to_close,
            to_close == entity_batch_items(windows_to_close).len(),
            entity_batch_items(windows_to_close) == granted,
            granted == granted_closes(reqs, wits),
            to_close <= reqs.len(),
            reqs == event_entities(pending_close_events(old(world)@)),
            old(world)@.wf(),
            world@.wf(),
            base == close_reader_caught_up(old(world)@),
            wits.len() == reqs.len(),
            after_hooks == fold_steps(base, paired_answers(reqs, wits), close_hook_step_fn()),
            world@ == fold_steps(after_hooks, granted.take(c as int), destroy_emit_step_fn()),
            crate::events::bus_headroom(old(world)@.bus, 2 * reqs.len())
                ==> crate::events::bus_headroom(world@.bus, (reqs.len() - c) as nat),
            pending_close_events(world@).len() == 0,
            world@.control_flow == old(world)@.control_flow,
            same_windows_up_to_titles(old(world)@.entities, world@.entities),
            world@.callback_keys == old(world)@.callback_keys,
        decreases to_close - c,
    {
        let entity = entity_batch_get(&windows_to_close, c);
        let ghost before_emit = world@;
        match handle_close_verdict(world, entity, true) {
            Ok(()) => {
                proof {
                    lemma_bus_post_effect(
                        before_emit.bus,
                        RuntimeEvent::Destroy { entity },
                        EventKind::CloseRequested,
                    );
                    assert(pending_close_events(world@) =~= pending_close_events(before_emit));
                    assert(granted.take(c + 1) =~= granted.take(c as int).push(entity));
                    lemma_fold_steps_snoc(
                        after_hooks,
                        granted.take(c as int),
                        destroy_emit_step_fn(),
                        entity,
                    );
                    if crate::events::bus_headroom(old(world)@.bus, 2 * reqs.len()) {
                        crate::events::lemma_bus_post_headroom(
                            before_emit.bus,
                            RuntimeEvent::Destroy { entity },
                            (reqs.len() - c) as nat,
                        );
                    }
                }
            },
            Err(e) => {
                proof {
                    assert(!bus_can_post(before_emit.bus, EventKind::Destroy));
                    if crate::events::bus_headroom(old(world)@.bus, 2 * reqs.len()) {
                        crate::events::lemma_headroom_can_post(
                            before_emit.bus,
                            EventKind::Destroy,
                            (reqs.len() - c) as nat,
                        );
                        assert(false);
                    }
                }
                return Err(e);
            },
        }
        c = c + 1;
    }
    proof {
        assert(granted.take(to_close as int) =~= granted);
        assert(close_run_witnessed(old(world)@, wits, world@));
    }
    Ok(())
}

/// The store after one window is torn down: the entity and all its
/// components are gone, its behavior is unregistered, the shutdown
/// request of the behavior's `on_destroyed`, if it made one, is posted —
/// and if this was the last live window, the control-flow state becomes
/// an exit request with status code zero.
pub open spec fn window_despawned(w: WorldModel, i: int, shutdown: bool) -> WorldModel {
    let survivors = w.entities.remove(i);
    WorldModel {
        entities: survivors,
        callback_keys: w.callback_keys.remove(i),
        bus: if shutdown {
            bus_post(w.bus, RuntimeEvent::ShutdownEventLoop)
        } else {
            w.bus
        },
        control_flow: if survivors.len() == 0 {
            ControlFlow::ExitWithCode(0)
        } else {
            w.control_flow
        },
        ..w
    }
}

/// The witness that one `Destroy` was carried out faithfully for what
/// the behavior's `on_destroyed` asked.
pub open spec fn destroy_witnessed(
    pre: WorldModel,
    post: WorldModel,
    entity: u64,
    shutdown: bool,
) -> bool {
    post == window_despawned(pre, pre.entity_index(entity), shutdown)
}

/// Tears one window down: its behavior's `on_destroyed` runs first, then
/// the entity and everything it owns is despawned.  A `Destroy` may only
/// name a live window; anything else is a fatal fault that changes
/// nothing.
pub fn handle_destroy_event<W: Window>(world: &mut World<W>, entity: u64) -> (r: Result<
    (),
    RuntimeError,
>)
    requires
        old(world)@.wf(),
    ensures
        final(world)@.wf(),
        match r {
            Ok(()) => old(world)@.has_entity(entity) && exists|shut: bool|
                #[trigger] destroy_witnessed(old(world)@, final(world)@, entity, shut),
            Err(e) => final(world)@ == old(world)@ && match e {
                RuntimeError::MissingCallbacks(en) => en == entity && !old(world)@.has_entity(
                    entity,
                ),
                RuntimeError::EventOverflow => !bus_can_post(
                    old(world)@.bus,
                    EventKind::ShutdownEventLoop,
                ),
                _ => false,
            },
        },
{
    let ghost pre = world@;
    if !world.callbacks.contains(entity) {
        proof {
            assert(!pre.has_entity(entity)) by {
                if pre.has_entity(entity) {
                    let i = pre.entity_index(entity);
                    assert(pre.callback_keys[i] == pre.entities.map_values(
                        |e: WindowEntityModel| e.entity,
                    )[i]);
                    assert(pre.callback_keys.contains(entity));
                }
            }
        }
        return Err(RuntimeError::MissingCallbacks(entity));
    }
    let i = match world.find_entity(entity) {
        Some(i) => i,
        None => {
            proof {
                let j = choose|j: int|
                    0 <= j < pre.callback_keys.len() && pre.callback_keys[j] == entity;
                assert(pre.callback_keys[j] == pre.entities.map_values(
                    |e: WindowEntityModel| e.entity,
                )[j]);
                assert(pre.entities[j].entity == entity);
                assert(false);
            }
            unreached()
        },
    };
    proof {
        lemma_entity_index_unique(pre, i as int);
    }
    let mut ctx = WindowContext::new();
    let callbacks = world.callbacks.get_mut(entity);
    callbacks.0.on_destroyed(&mut ctx);
    proof {
        assert(world@ == pre);
    }
    if ctx.shutdown_requested && !world.bus.can_post(EventKind::ShutdownEventLoop) {
        return Err(RuntimeError::EventOverflow);
    }
    world.entities.remove(i);
    world.callbacks.remove(entity);
    proof {
        let keys = pre.callback_keys;
        assert(keys[i as int] == pre.entities.map_values(|e: WindowEntityModel| e.entity)[i as int]);
        assert(keys[i as int] == entity);
        let j = choose|j: int|
            0 <= j < keys.len() && keys[j] == entity && world.callbacks@ == keys.remove(j);
        assert(keys[j] == pre.entities.map_values(|e: WindowEntityModel| e.entity)[j]);
        assert(pre.entities[j].entity == entity);
        assert(j == i);
        assert(world@.entities =~= pre.entities.remove(i as int));
    }
    if ctx.shutdown_requested {
        world.bus.post(RuntimeEvent::ShutdownEventLoop);
    }
    if world.entities.len() == 0 {
        world.control_flow = ControlFlow::ExitWithCode(0);
    }
    proof {
        let m = window_despawned(pre, i as int, ctx.shutdown_requested);
        assert(world@.entities =~= m.entities);
        assert(world@.pending =~= m.pending);
        assert(world@ == m);
        lemma_window_despawned_wf(pre, i as int, ctx.shutdown_requested);
        assert(destroy_witnessed(pre, world@, entity, ctx.shutdown_requested));
    }
    Ok(())
}

/// Despawning a live window preserves the store's invariant.
pub proof fn lemma_window_despawned_wf(w: WorldModel, i: int, shutdown: bool)
    requires
        w.wf(),
        0 <= i < w.entities.len(),
        shutdown ==> bus_can_post(w.bus, EventKind::ShutdownEventLoop),
    ensures
        window_despawned(w, i, shutdown).wf(),
{
    let m = window_despawned(w, i, shutdown);
    assert(m.callback_keys =~= m.entities.map_values(|e: WindowEntityModel| e.entity)) by {
        let f = |e: WindowEntityModel| e.entity;
        assert(w.callback_keys == w.entities.map_values(f));
        assert(m.entities.map_values(f).len() == m.entities.len());
        assert forall|k: int| 0 <= k < m.entities.len() implies m.callback_keys[k]
            == m.entities.map_values(f)[k] by {
            if k < i {
                assert(m.entities[k] == w.entities[k]);
                assert(m.callback_keys[k] == w.callback_keys[k]);
            } else {
                assert(m.entities[k] == w.entities[k + 1]);
                assert(m.callback_keys[k] == w.callback_keys[k + 1]);
            }
        }
    }
    assert forall|k: int|
        0 <= k < m.entities.len() implies (#[trigger] m.entities[k]) == (if k < i {
        w.entities[k]
    } else {
        w.entities[k + 1]
    }) by {}
    if shutdown {
        lemma_bus_post_wf(w.bus, RuntimeEvent::ShutdownEventLoop);
        lemma_bus_post_effect(w.bus, RuntimeEvent::ShutdownEventLoop, EventKind::CloseRequested);
        lemma_bus_post_effect(w.bus, RuntimeEvent::ShutdownEventLoop, EventKind::Destroy);
        lemma_bus_post_effect(w.bus, RuntimeEvent::ShutdownEventLoop, EventKind::Resize);
        lemma_bus_post_effect(w.bus, RuntimeEvent::ShutdownEventLoop, EventKind::Repaint);
    }
}

/// Tears down every window a buffered `Destroy` names, reading the
/// events without consuming them.  Windows are only ever removed here:
/// every window still live afterwards was live before.
/// The store once the teardown system has read its queue; it does not
/// touch its cursor when nothing is buffered.
pub open spec fn destroy_reader_caught_up(w: WorldModel) -> WorldModel {
    if bus_has(w.bus, EventKind::Destroy) && bus_queue(w.bus, EventKind::Destroy).buffered().len()
        > 0 {
        WorldModel {
            cursors: ReaderCursors {
                destroy: bus_queue(w.bus, EventKind::Destroy).total as u64,
                ..w.cursors
            },
            ..w
        }
    } else {
        w
    }
}

/// Every named window was torn down in order, each by exactly its
/// `window_despawned` step under the shutdown request its behavior made,
/// moving `pre` to `post`.
pub open spec fn destroys_witnessed(
    pre: WorldModel,
    entities: Seq<u64>,
    shuts: Seq<bool>,
    post: WorldModel,
) -> bool
    decreases entities.len(),
{
    if entities.len() != shuts.len() {
        false
    } else if entities.len() == 0 {
        post == pre
    } else {
        &&& pre.has_entity(entities[0])
        &&& destroys_witnessed(
            window_despawned(pre, pre.entity_index(entities[0]), shuts[0]),
            entities.drop_first(),
            shuts.drop_first(),
            post,
        )
    }
}

/// Tearing down one more window extends the witnessed run by its step.
pub proof fn lemma_destroys_witnessed_snoc(
    pre: WorldModel,
    entities: Seq<u64>,
    shuts: Seq<bool>,
    mid: WorldModel,
    entity: u64,
    shut: bool,
    post: WorldModel,
)
    requires
        destroys_witnessed(pre, entities, shuts, mid),
        mid.has_entity(entity),
        post == window_despawned(mid, mid.entity_index(entity), shut),
    ensures
        destroys_witnessed(pre, entities.push(entity), shuts.push(shut), post),
    decreases entities.len(),
{
    if entities.len() == 0 {
        assert(entities.push(entity)[0] == entity);
        assert(entities.push(entity).drop_first() =~= Seq::<u64>::empty());
        assert(shuts.push(shut).drop_first() =~= Seq::<bool>::empty());
        assert(mid == pre);
        assert(destroys_witnessed(
            window_despawned(pre, pre.entity_index(entity), shut),
            Seq::<u64>::empty(),
            Seq::<bool>::empty(),
            post,
        ));
    } else {
        assert(entities.push(entity)[0] == entities[0]);
        assert(entities.push(entity).drop_first() =~= entities.drop_first().push(entity));
        assert(shuts.push(shut).drop_first() =~= shuts.drop_first().push(shut));
        assert(pre.has_entity(entities[0]));
        lemma_destroys_witnessed_snoc(
            window_despawned(pre, pre.entity_index(entities[0]), shuts[0]),
            entities.drop_first(),
            shuts.drop_first(),
            mid,
            entity,
            shut,
            post,
        );
        assert(destroys_witnessed(
            window_despawned(pre, pre.entity_index(entities[0]), shuts[0]),
            entities.drop_first().push(entity),
            shuts.drop_first().push(shut),
            post,
        ));
    }
}

/// Exactly the conditions under which one teardown step stops with a
/// fault, mirroring `handle_destroy_event`.
pub open spec fn destroy_step_blocked(w: WorldModel, entity: u64, err: RuntimeError) -> bool {
    match err {
        RuntimeError::MissingCallbacks(en) => en == entity && !w.has_entity(entity),
        RuntimeError::EventOverflow => !bus_can_post(w.bus, EventKind::ShutdownEventLoop),
        _ => false,
    }
}

/// Tears down every window a buffered `Destroy` names, in posting
/// order, reading the events without consuming them.  On success the
/// store is exactly the witnessed run of `window_despawned` steps — so
/// every named window is gone, windows are only ever removed here, and
/// a window no visible `Destroy` names survives untouched.  A fault is
/// exactly a step's fault at the state the run had reached.
pub fn destroy_window_system<W: Window>(world: &mut World<W>) -> (r: Result<(), RuntimeError>)
    requires
        old(world)@.wf(),
    ensures
        final(world)@.wf(),
        final(world)@.control_flow == old(world)@.control_flow || final(world)@.control_flow
            == ControlFlow::ExitWithCode(0),
        forall|x: u64| #[trigger] final(world)@.has_entity(x) ==> old(world)@.has_entity(x),
        forall|x: u64|
            old(world)@.has_entity(x) && !names_destroyed(
                pending_destroy_events(old(world)@),
                x,
            ) ==> #[trigger] final(world)@.has_entity(x),
        r.is_ok() ==> pending_destroy_events(final(world)@).len() == 0,
        r.is_ok() ==> exists|shuts: Seq<bool>|
            #[trigger] destroys_witnessed(
                destroy_reader_caught_up(old(world)@),
                event_entities(pending_destroy_events(old(world)@)),
                shuts,
                final(world)@,
            ),
        r.is_ok() ==> forall|x: u64|
            event_entities(pending_destroy_events(old(world)@)).contains(x)
                ==> !#[trigger] final(world)@.has_entity(x),
        match r {
            Ok(_) => true,
            Err(err) => exists|k: int, shuts: Seq<bool>, mid: WorldModel|
                0 <= k < event_entities(pending_destroy_events(old(world)@)).len()
                    && #[trigger] destroys_witnessed(
                    destroy_reader_caught_up(old(world)@),
                    event_entities(pending_destroy_events(old(world)@)).take(k),
                    shuts,
                    mid,
                ) && destroy_step_blocked(
                    mid,
                    event_entities(pending_destroy_events(old(world)@))[k],
                    err,
                ),
        },
        ({
            let reqs = event_entities(pending_destroy_events(old(world)@));
            &&& (forall|a: int, b: int|
                0 <= a < reqs.len() && 0 <= b < reqs.len() && a != b ==> #[trigger] reqs[a]
                    != #[trigger] reqs[b])
            &&& (forall|j: int| 0 <= j < reqs.len() ==> old(world)@.has_entity(#[trigger] reqs[j]))
            &&& crate::events::bus_headroom(old(world)@.bus, reqs.len())
        }) ==> r.is_ok(),
{
    let ghost guaranteed = ({
        let reqs = event_entities(pending_destroy_events(old(world)@));
        &&& (forall|a: int, b: int|
            0 <= a < reqs.len() && 0 <= b < reqs.len() && a != b ==> #[trigger] reqs[a]
                != #[trigger] reqs[b])
        &&& (forall|j: int| 0 <= j < reqs.len() ==> old(world)@.has_entity(#[trigger] reqs[j]))
        &&& crate::events::bus_headroom(old(world)@.bus, reqs.len())
    });
    if !world.bus.kind_has_events(EventKind::Destroy) {
        proof {
            lemma_no_buffered_means_nothing_unread(
                world@,
                EventKind::Destroy,
                world@.cursors.destroy,
            );
            assert(event_entities(pending_destroy_events(old(world)@)) =~= Seq::<u64>::empty());
            assert(destroys_witnessed(
                destroy_reader_caught_up(old(world)@),
                event_entities(pending_destroy_events(old(world)@)),
                Seq::<bool>::empty(),
                world@,
            ));
        }
        return Ok(());
    }
    let (events, new_cursor) = world.bus.read_kind_from(EventKind::Destroy, world.cursors.destroy);
    world.cursors.destroy = new_cursor;
    let ghost base = destroy_reader_caught_up(old(world)@);
    let ghost targets = event_entities(pending_destroy_events(old(world)@));
    proof {
        assert(world@.entities =~= old(world)@.entities);
        assert(world@.pending =~= old(world)@.pending);
        assert(world@.wf());
        assert(events@ == pending_destroy_events(old(world)@));
        lemma_read_all_means_nothing_unread(bus_queue(world@.bus, EventKind::Destroy));
        assert(pending_destroy_events(world@).len() == 0);
        assert(world@ == base);
        assert forall|j: int| 0 <= j < events@.len() implies kind_of(#[trigger] events@[j])
            == EventKind::Destroy by {
            let q = bus_queue(old(world)@.bus, EventKind::Destroy);
            let c = old(world)@.cursors.destroy as nat;
            if c <= q.first_position() {
                assert(events@[j] == q.buffered()[j]);
            } else {
                assert(events@[j] == q.buffered()[j + c - q.first_position()]);
            }
        }
    }
    let mut doomed = entity_batch_new();
    let n = events.len();
    let mut i: usize = 0;
    while i < n
        invariant
            i <= n,
            n == events@.len(),
            events@ == pending_destroy_events(old(world)@),
            targets == event_entities(events@),
            forall|j: int|
                0 <= j < events@.len() ==> kind_of(#[trigger] events@[j]) == EventKind::Destroy,
            entity_batch_items(doomed) == targets.take(i as int),
            old(world)@.wf(),
            world@.wf(),
            base == destroy_reader_caught_up(old(world)@),
            world@ == base,
            pending_destroy_events(world@).len() == 0,
        decreases n - i,
    {
        match events[i] {
            RuntimeEvent::Destroy { entity } => {
                proof {
                    assert(targets[i as int] == entity);
                    assert(targets.take(i + 1) =~= targets.take(i as int).push(entity));
                }
                entity_batch_push(&mut doomed, entity);
            },
            _ => {
                proof {
                    assert(kind_of(events@[i as int]) == EventKind::Destroy);
                }
            },
        }
        i = i + 1;
    }
    proof {
        assert(targets.take(n as int) =~= targets);
    }
    let total = entity_batch_len(&doomed);
    let mut k: usize = 0;
    let ghost mut shuts: Seq<bool> = Seq::empty();
    while k < total
        invariant
            k <= total,
            total == entity_batch_items(doomed).len(),
            entity_batch_items(doomed) == targets,
            events@ == pending_destroy_events(old(world)@),
            targets == event_entities(events@),
            old(world)@.wf(),
            world@.wf(),
            base == destroy_reader_caught_up(old(world)@),
            guaranteed == ({
                let reqs = event_entities(pending_destroy_events(old(world)@));
                &&& (forall|a: int, b: int|
                    0 <= a < reqs.len() && 0 <= b < reqs.len() && a != b ==> #[trigger] reqs[a]
                        != #[trigger] reqs[b])
                &&& (forall|j: int|
                    0 <= j < reqs.len() ==> old(world)@.has_entity(#[trigger] reqs[j]))
                &&& crate::events::bus_headroom(old(world)@.bus, reqs.len())
            }),
            guaranteed ==> forall|m: int|
                k <= m < targets.len() ==> #[trigger] world@.has_entity(targets[m]),
            guaranteed ==> crate::events::bus_headroom(
                world@.bus,
                (targets.len() - k) as nat,
            ),
            shuts.len() == k,
            destroys_witnessed(base, targets.take(k as int), shuts, world@),
            forall|m: int| 0 <= m < k ==> !#[trigger] world@.has_entity(targets[m]),
            pending_destroy_events(world@).len() == 0,
            world@.control_flow == old(world)@.control_flow || world@.control_flow
                == ControlFlow::ExitWithCode(0),
            base.control_flow == old(world)@.control_flow,
            forall|x: u64| #[trigger] world@.has_entity(x) ==> old(world)@.has_entity(x),
            forall|x: u64|
                old(world)@.has_entity(x) && !names_destroyed(events@, x)
                    ==> #[trigger] world@.has_entity(x),
        decreases total - k,
    {
        let entity = entity_batch_get(&doomed, k);
        let ghost step_pre = world@;
        match handle_destroy_event(world, entity) {
            Ok(()) => {
                proof {
                    let shut = choose|shut: bool|
                        destroy_witnessed(step_pre, world@, entity, shut);
                    let di = step_pre.entity_index(entity);
                    assert(0 <= di < step_pre.entities.len() && step_pre.entities[di].entity
                        == entity);
                    assert(targets[k as int] == entity);
                    assert(targets.take(k + 1) =~= targets.take(k as int).push(entity));
                    lemma_destroys_witnessed_snoc(
                        base,
                        targets.take(k as int),
                        shuts,
                        step_pre,
                        entity,
                        shut,
                        world@,
                    );
                    shuts = shuts.push(shut);
                    assert forall|x: u64| #[trigger] world@.has_entity(x) implies
                        step_pre.has_entity(x) by {
                        let j = choose|j: int|
                            0 <= j < world@.entities.len() && (#[trigger] world@.entities[j]).entity
                                == x;
                        if j < di {
                            assert(step_pre.entities[j].entity == x);
                        } else {
                            assert(step_pre.entities[j + 1].entity == x);
                        }
                    }
                    assert(!world@.has_entity(entity)) by {
                        if world@.has_entity(entity) {
                            let j = choose|j: int|
                                0 <= j < world@.entities.len() && (
                                #[trigger] world@.entities[j]).entity == entity;
                            if j < di {
                                assert(step_pre.entities[j].entity == entity);
                            } else {
                                assert(step_pre.entities[j + 1].entity == entity);
                            }
                        }
                    }
                    assert forall|x: u64|
                        old(world)@.has_entity(x) && !names_destroyed(events@, x) implies
                        #[trigger] world@.has_entity(x) by {
                        assert(step_pre.has_entity(x));
                        let j = choose|j: int|
                            0 <= j < step_pre.entities.len() && (
                            #[trigger] step_pre.entities[j]).entity == x;
                        assert(names_destroyed(events@, entity)) by {
                            let ei = choose|ei: int|
                                0 <= ei < events@.len() && event_entity(#[trigger] events@[ei])
                                    == entity && ei == k as int;
                            assert(events@[k as int] matches RuntimeEvent::Destroy { .. });
                            assert(events@[k as int] == (RuntimeEvent::Destroy { entity }));
                        }
                        assert(x != entity);
                        assert(j != di);
                        if j < di {
                            assert(world@.entities[j].entity == x);
                        } else {
                            assert(world@.entities[j - 1].entity == x);
                        }
                    }
                    if shut {
                        lemma_bus_post_effect(
                            step_pre.bus,
                            RuntimeEvent::ShutdownEventLoop,
                            EventKind::Destroy,
                        );
                    }
                    assert(pending_destroy_events(world@) =~= pending_destroy_events(step_pre));
                    if guaranteed {
                        assert forall|m: int|
                            k + 1 <= m < targets.len() implies #[trigger] world@.has_entity(
                            targets[m],
                        ) by {
                            assert(step_pre.has_entity(targets[m]));
                            let j = choose|j: int|
                                0 <= j < step_pre.entities.len() && (
                                #[trigger] step_pre.entities[j]).entity == targets[m];
                            assert(targets[m] != entity);
                            assert(j != di);
                            if j < di {
                                assert(world@.entities[j].entity == targets[m]);
                            } else {
                                assert(world@.entities[j - 1].entity == targets[m]);
                            }
                        }
                        if shut {
                            crate::events::lemma_bus_post_headroom(
                                step_pre.bus,
                                RuntimeEvent::ShutdownEventLoop,
                                (targets.len() - k) as nat,
                            );
                        } else {
                            crate::events::lemma_headroom_monotone(
                                world@.bus,
                                (targets.len() - k) as nat,
                                (targets.len() - (k + 1)) as nat,
                            );
                        }
                    }
                }
            },
            Err(e) => {
                proof {
                    if guaranteed {
                        assert(step_pre.has_entity(targets[k as int]));
                        crate::events::lemma_headroom_can_post(
                            step_pre.bus,
                            EventKind::ShutdownEventLoop,
                            (targets.len() - k) as nat,
                        );
                        assert(false);
                    }
                    assert(targets[k as int] == entity);
                    assert(destroy_step_blocked(step_pre, entity, e));
                    assert((k as int) < event_entities(pending_destroy_events(old(world)@)).len());
                    assert(destroys_witnessed(
                        destroy_reader_caught_up(old(world)@),
                        event_entities(pending_destroy_events(old(world)@)).take(k as int),
                        shuts,
                        step_pre,
                    ));
                    assert(destroy_step_blocked(
                        step_pre,
                        event_entities(pending_destroy_events(old(world)@))[k as int],
                        e,
                    ));
                }
                return Err(e);
            },
        }
        k = k + 1;
    }
    proof {
        assert(targets.take(total as int) =~= targets);
        assert forall|x: u64| targets.contains(x) implies !#[trigger] world@.has_entity(x) by {
            let m = choose|m: int| 0 <= m < targets.len() && targets[m] == x;
            assert(!world@.has_entity(targets[m]));
        }
    }
    Ok(())
}

/// Answering a close request is all-or-nothing for teardown: a close
/// the behavior granted puts exactly one `Destroy` for the window's
/// entity where the teardown system will read it, and a close the
/// behavior refused changes nothing at all — no `Destroy` is ever
/// emitted for it.
pub proof fn lemma_close_verdict_reaches_teardown(w: WorldModel, entity: u64)
    requires
        w.wf(),
        bus_can_post(w.bus, EventKind::Destroy),
    ensures
        pending_destroy_events(close_verdict_applied(w, entity, true))
            == pending_destroy_events(w).push(RuntimeEvent::Destroy { entity }),
        close_verdict_applied(w, entity, false) == w,
{
    let e = RuntimeEvent::Destroy { entity };
    let m = close_verdict_applied(w, entity, true);
    lemma_bus_post_effect(w.bus, e, EventKind::Destroy);
    if bus_has(w.bus, EventKind::Destroy) {
        crate::events::lemma_post_extends_visibility(
            bus_queue(w.bus, EventKind::Destroy),
            e,
            w.cursors.destroy as nat,
        );
    } else {
        let fresh_queue = QueueModel::empty(EventKind::Destroy).post(e);
        assert(w.cursors.destroy == 0);
        assert(fresh_queue.buffered() =~= Seq::<RuntimeEvent>::empty().push(e));
        assert(fresh_queue.visible_from(0) =~= Seq::<RuntimeEvent>::empty().push(e));
        assert(pending_destroy_events(w) =~= Seq::<RuntimeEvent>::empty());
        assert(pending_destroy_events(m) =~= pending_destroy_events(w).push(e));
    }
}

/// Destroying the last live window moves the control-flow state to an
/// exit request with status code zero, whatever else the window's
/// behavior asked for on the way out.
pub proof fn lemma_last_window_destroyed_requests_exit(w: WorldModel, i: int, shutdown: bool)
    requires
        0 <= i < w.entities.len(),
        w.entities.len() == 1,
    ensures
        window_despawned(w, i, shutdown).control_flow == ControlFlow::ExitWithCode(0),
{
    assert(w.entities.remove(i).len() == 0);
}

/// One surface refresh leaves the resize reader with nothing new: it
/// posts at most a `Repaint`, which travels another queue.
proof fn lemma_surface_step_keeps_resize_reader(pre: WorldModel, post: WorldModel, entity: u64)
    requires
        pre.wf(),
        pending_resize_events(pre).len() == 0,
        post == pre || (pre.has_entity(entity) && post == surface_replaced(
            pre,
            pre.entity_index(entity),
        )),
    ensures
        pending_resize_events(post).len() == 0,
{
    if post != pre {
        let i = pre.entity_index(entity);
        lemma_bus_post_effect(
            pre.bus,
            RuntimeEvent::Repaint { entity: pre.entities[i].entity },
            EventKind::Resize,
        );
        assert(pending_resize_events(post) =~= pending_resize_events(pre));
    }
}

/// Folds one step per item over the store, first item first.
pub open spec fn fold_steps<A>(
    w: WorldModel,
    items: Seq<A>,
    step: spec_fn(WorldModel, A) -> WorldModel,
) -> WorldModel
    decreases items.len(),
{
    if items.len() == 0 {
        w
    } else {
        fold_steps(step(w, items[0]), items.drop_first(), step)
    }
}

/// Folding one more item is one more step on the fold so far.
pub proof fn lemma_fold_steps_snoc<A>(
    w: WorldModel,
    items: Seq<A>,
    step: spec_fn(WorldModel, A) -> WorldModel,
    x: A,
)
    ensures
        fold_steps(w, items.push(x), step) == step(fold_steps(w, items, step), x),
    decreases items.len(),
{
    if items.len() == 0 {
        assert(items.push(x)[0] == x);
        assert(items.push(x).drop_first() =~= Seq::<A>::empty());
        assert(fold_steps(step(w, x), Seq::<A>::empty(), step) == step(w, x));
        assert(fold_steps(w, items.push(x), step) == step(w, x));
        assert(fold_steps(w, items, step) == w);
    } else {
        assert(items.push(x)[0] == items[0]);
        assert(items.push(x).drop_first() =~= items.drop_first().push(x));
        lemma_fold_steps_snoc(step(w, items[0]), items.drop_first(), step, x);
        assert(fold_steps(w, items.push(x), step) == fold_steps(
            step(w, items[0]),
            items.drop_first().push(x),
            step,
        ));
        assert(fold_steps(w, items, step) == fold_steps(step(w, items[0]), items.drop_first(), step));
    }
}

/// The entity a lifecycle event points at.  Only lifecycle events carry
/// one; the other kinds never travel the queues this is read from.
pub open spec fn event_entity(e: RuntimeEvent) -> u64 {
    match e {
        RuntimeEvent::Resize { window_id: _, entity } => entity,
        RuntimeEvent::Repaint { entity } => entity,
        RuntimeEvent::Destroy { entity } => entity,
        RuntimeEvent::CloseRequested { entity } => entity,
        _ => 0,
    }
}

/// The entities a run of lifecycle events points at, in order.
pub open spec fn event_entities(events: Seq<RuntimeEvent>) -> Seq<u64> {
    events.map_values(|e: RuntimeEvent| event_entity(e))
}

/// The store once a reader has caught up with its queue: the position
/// after everything the queue ever accepted, untouched where the queue
/// does not exist.
pub open spec fn caught_up_cursor(w: WorldModel, kind: EventKind, cursor: u64) -> u64 {
    if bus_has(w.bus, kind) {
        bus_queue(w.bus, kind).total as u64
    } else {
        cursor
    }
}

/// A reader standing at the end of a queue has nothing left to read.
pub proof fn lemma_read_all_means_nothing_unread(q: QueueModel)
    requires
        q.wf(),
    ensures
        q.visible_from(q.total).len() == 0,
{
    assert(q.buffered().skip(q.buffered().len() as int).len() == 0);
}

/// A queue with nothing buffered has nothing unread, wherever its
/// readers stand; so does a kind without a queue.
pub proof fn lemma_no_buffered_means_nothing_unread(w: WorldModel, kind: EventKind, cursor: u64)
    requires
        !bus_has(w.bus, kind) || bus_queue(w.bus, kind).buffered().len() == 0,
    ensures
        unread_events(w, kind, cursor).len() == 0,
{
    if bus_has(w.bus, kind) {
        let q = bus_queue(w.bus, kind);
        if q.first_position() < cursor <= q.total {
            assert(q.buffered().skip(cursor - q.first_position()).len() == 0);
        }
    }
}

/// The store after the exit check for one shutdown queue: an exit with
/// status code zero is requested exactly when the queue buffers an
/// event.
pub open spec fn exit_on_events(w: WorldModel, kind: EventKind) -> WorldModel {
    if bus_has(w.bus, kind) && bus_queue(w.bus, kind).buffered().len() > 0 {
        WorldModel { control_flow: ControlFlow::ExitWithCode(0), ..w }
    } else {
        w
    }
}

/// Turns a posted application `Shutdown` event into an exit request with
/// status code zero.
pub fn shutdown_system<W: Window>(world: &mut World<W>)
    requires
        old(world)@.wf(),
    ensures
        final(world)@.wf(),
        final(world)@ == exit_on_events(old(world)@, EventKind::Shutdown),
{
    if world.bus.kind_has_events(EventKind::Shutdown) {
        world.control_flow = ControlFlow::ExitWithCode(0);
        proof {
            assert(world@.entities =~= old(world)@.entities);
            assert(world@.pending =~= old(world)@.pending);
            assert(world@ == exit_on_events(old(world)@, EventKind::Shutdown));
        }
    }
}

/// Turns a posted `ShutdownEventLoop` event into an exit request with
/// status code zero.
pub fn shutdown_eventloop_system<W: Window>(world: &mut World<W>)
    requires
        old(world)@.wf(),
    ensures
        final(world)@.wf(),
        final(world)@ == exit_on_events(old(world)@, EventKind::ShutdownEventLoop),
{
    if world.bus.kind_has_events(EventKind::ShutdownEventLoop) {
        world.control_flow = ControlFlow::ExitWithCode(0);
        proof {
            assert(world@.entities =~= old(world)@.entities);
            assert(world@.pending =~= old(world)@.pending);
            assert(world@ == exit_on_events(old(world)@, EventKind::ShutdownEventLoop));
        }
    }
}

/// Runs the maintenance update of one event queue: what its back buffer
/// held expires, the front buffer takes its place.
pub fn event_update_system<W: Window>(world: &mut World<W>, kind: EventKind)
    requires
        old(world)@.wf(),
    ensures
        final(world)@.wf(),
        final(world)@ == (WorldModel {
            bus: crate::events::bus_update_kind(old(world)@.bus, kind),
            ..old(world)@
        }),
{
    world.bus.update_kind(kind);
    proof {
        lemma_bus_replace_effect(old(world)@.bus, kind, EventKind::CloseRequested);
        lemma_bus_replace_effect(old(world)@.bus, kind, EventKind::Destroy);
        lemma_bus_replace_effect(old(world)@.bus, kind, EventKind::Resize);
        lemma_bus_replace_effect(old(world)@.bus, kind, EventKind::Repaint);
        assert(world@.entities =~= old(world)@.entities);
        assert(world@.pending =~= old(world)@.pending);
        assert(world@.wf());
    }
}

/// Taking a pending behavior out, alone, preserves the store's
/// invariant.
proof fn lemma_pending_removed_wf(w: WorldModel, m: WorldModel, pending_index: int)
    requires
        w.wf(),
        0 <= pending_index < w.pending.len(),
        m == (WorldModel { pending: w.pending.remove(pending_index), ..w }),
    ensures
        m.wf(),
{
    assert forall|i: int|
        0 <= i < m.pending.len() implies (#[trigger] m.pending[i]) < m.next_window_id by {
        if i < pending_index {
            assert(m.pending[i] == w.pending[i]);
        } else {
            assert(m.pending[i] == w.pending[i + 1]);
        }
    }
}

/// Posting a `ShutdownEventLoop` keeps every reader cursor sound: the
/// queues the cursors watch are untouched.
proof fn lemma_bus_post_wf_parts(w: WorldModel, m: WorldModel)
    requires
        bus_wf(w.bus),
        cursor_wf(w.bus, EventKind::CloseRequested, w.cursors.close_requested),
        cursor_wf(w.bus, EventKind::Destroy, w.cursors.destroy),
        cursor_wf(w.bus, EventKind::Resize, w.cursors.resize),
        cursor_wf(w.bus, EventKind::Repaint, w.cursors.repaint),
        m.bus == bus_post(w.bus, RuntimeEvent::ShutdownEventLoop),
        m.cursors == w.cursors,
    ensures
        cursor_wf(m.bus, EventKind::CloseRequested, m.cursors.close_requested),
        cursor_wf(m.bus, EventKind::Destroy, m.cursors.destroy),
        cursor_wf(m.bus, EventKind::Resize, m.cursors.resize),
        cursor_wf(m.bus, EventKind::Repaint, m.cursors.repaint),
{
    lemma_bus_post_effect(w.bus, RuntimeEvent::ShutdownEventLoop, EventKind::CloseRequested);
    lemma_bus_post_effect(w.bus, RuntimeEvent::ShutdownEventLoop, EventKind::Destroy);
    lemma_bus_post_effect(w.bus, RuntimeEvent::ShutdownEventLoop, EventKind::Resize);
    lemma_bus_post_effect(w.bus, RuntimeEvent::ShutdownEventLoop, EventKind::Repaint);
}

} // verus!
