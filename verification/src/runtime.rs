//! Running the pipeline, and the translator that bridges the native
//! event pump into the event bus.
//!
//! The translator is the single adapter between the operating system's
//! event stream and the runtime: it resolves each native window handle
//! to the stable window identifier, posts the corresponding typed event,
//! and runs one scheduler tick per native idle round, handing the
//! resulting control-flow request back to the pump.

use vstd::prelude::*;

use crate::events::{bus_can_post, bus_post, bus_update_kind, EventKind, RuntimeEvent};
use crate::lifecycle::{
    close_run_witnessed, create_events, create_queue_drained, create_window_system,
    create_surface_for_window_system, creates_witnessed, destroy_reader_caught_up,
    destroy_window_system, destroys_witnessed, event_entities, event_update_system, exit_on_events,
    fold_steps, lemma_world_post_wf, pending_destroy_events, pending_repaint_events,
    repaint_and_present_windows, repaint_reader_caught_up, repaint_step_fn,
    resize_reader_caught_up, shutdown_eventloop_system, shutdown_system, surface_step_fn,
    surface_targets, windows_close_requested_system, CloseWitness, CreateWitness,
};
use crate::schedule::{Schedule, StageModel, SystemId, Unit};
use crate::window::{OsWindowModel, Window, WindowId};
use crate::world::{ControlFlow, RuntimeError, WindowEntityModel, World, WorldModel};

verus! {

/// Whether one unit's run moved the store exactly as its system's own
/// contract admits, for some run of behavior answers.
pub open spec fn unit_step_admitted(pre: WorldModel, unit: Unit, post: WorldModel) -> bool {
    match unit.system {
        SystemId::EventUpdate(kind) => post == (WorldModel {
            bus: bus_update_kind(pre.bus, kind),
            ..pre
        }),
        SystemId::CreateWindows => exists|wits: Seq<CreateWitness>|
            #[trigger] creates_witnessed(create_queue_drained(pre), create_events(pre), wits, post),
        SystemId::WindowsCloseRequested => exists|wits: Seq<CloseWitness>|
            #[trigger] close_run_witnessed(pre, wits, post),
        SystemId::DestroyWindows => exists|shuts: Seq<bool>|
            #[trigger] destroys_witnessed(
                destroy_reader_caught_up(pre),
                event_entities(pending_destroy_events(pre)),
                shuts,
                post,
            ),
        SystemId::CreateSurfaceForWindows => post == fold_steps(
            resize_reader_caught_up(pre),
            surface_targets(pre),
            surface_step_fn(),
        ),
        SystemId::RepaintAndPresentWindows => post == fold_steps(
            repaint_reader_caught_up(pre),
            event_entities(pending_repaint_events(pre)),
            repaint_step_fn(),
        ),
        SystemId::Shutdown => post == exit_on_events(pre, EventKind::Shutdown),
        SystemId::ShutdownEventLoop => post == exit_on_events(pre, EventKind::ShutdownEventLoop),
    }
}

/// Whether one unit's run stops with this fault, by its system's own
/// contract: exactly the conditions the system pins its errors to.
pub open spec fn unit_step_blocked(pre: WorldModel, unit: Unit, err: RuntimeError) -> bool {
    match unit.system {
        SystemId::EventUpdate(_) => false,
        SystemId::CreateWindows => exists|k: int, wits: Seq<CreateWitness>, mid: WorldModel|
            0 <= k < create_events(pre).len() && #[trigger] creates_witnessed(
                create_queue_drained(pre),
                create_events(pre).take(k),
                wits,
                mid,
            ) && crate::lifecycle::create_event_blocked(mid, create_events(pre)[k], err),
        SystemId::WindowsCloseRequested => match err {
            RuntimeError::MissingCallbacks(en) => event_entities(
                crate::lifecycle::pending_close_events(pre),
            ).contains(en) && !pre.callback_keys.contains(en),
            RuntimeError::EventOverflow => !crate::events::bus_headroom(
                pre.bus,
                2 * event_entities(crate::lifecycle::pending_close_events(pre)).len(),
            ),
            _ => false,
        },
        SystemId::DestroyWindows => exists|k: int, shuts: Seq<bool>, mid: WorldModel|
            0 <= k < event_entities(pending_destroy_events(pre)).len()
                && #[trigger] destroys_witnessed(
                destroy_reader_caught_up(pre),
                event_entities(pending_destroy_events(pre)).take(k),
                shuts,
                mid,
            ) && crate::lifecycle::destroy_step_blocked(
                mid,
                event_entities(pending_destroy_events(pre))[k],
                err,
            ),
        SystemId::CreateSurfaceForWindows => exists|k: int|
            0 <= k < surface_targets(pre).len() && #[trigger] crate::lifecycle::surface_step_blocked(
                fold_steps(resize_reader_caught_up(pre), surface_targets(pre).take(k), surface_step_fn()),
                surface_targets(pre)[k],
                err,
            ),
        SystemId::RepaintAndPresentWindows => match err {
            RuntimeError::PresentationFailed(en) => event_entities(
                pending_repaint_events(pre),
            ).contains(en) && pre.has_entity(en)
                && pre.entities[pre.entity_index(en)].surface.is_some(),
            _ => false,
        },
        SystemId::Shutdown => false,
        SystemId::ShutdownEventLoop => false,
    }
}

/// A fault of the tick, located: an admitted run reached the unit at
/// position `ui` of the stage at position `si` in the state `mid`.
pub open spec fn tick_prefix_admitted(
    pre: WorldModel,
    stages: Seq<StageModel>,
    si: int,
    ui: int,
    mid: WorldModel,
) -> bool {
    &&& 0 <= si < stages.len()
    &&& 0 <= ui < stages[si].units.len()
    &&& exists|entry: WorldModel|
        #[trigger] stages_admitted(pre, stages.take(si), entry) && units_admitted(
            entry,
            stages[si].units.take(ui),
            mid,
        )
}

/// A run of units, each admitted by its system's contract, chains `pre`
/// to `post` in registration order.
pub open spec fn units_admitted(pre: WorldModel, units: Seq<Unit>, post: WorldModel) -> bool
    decreases units.len(),
{
    if units.len() == 0 {
        post == pre
    } else {
        exists|mid: WorldModel|
            #[trigger] unit_step_admitted(pre, units[0], mid) && units_admitted(
                mid,
                units.drop_first(),
                post,
            )
    }
}

/// Running one more unit extends an admitted run.
pub proof fn lemma_units_admitted_snoc(
    pre: WorldModel,
    units: Seq<Unit>,
    mid: WorldModel,
    unit: Unit,
    post: WorldModel,
)
    requires
        units_admitted(pre, units, mid),
        unit_step_admitted(mid, unit, post),
    ensures
        units_admitted(pre, units.push(unit), post),
    decreases units.len(),
{
    if units.len() == 0 {
        assert(units.push(unit)[0] == unit);
        assert(units.push(unit).drop_first() =~= Seq::<Unit>::empty());
        assert(mid == pre);
        assert(units_admitted(post, Seq::<Unit>::empty(), post));
        assert(unit_step_admitted(pre, unit, post) && units_admitted(
            post,
            units.push(unit).drop_first(),
            post,
        ));
    } else {
        assert(units.push(unit)[0] == units[0]);
        assert(units.push(unit).drop_first() =~= units.drop_first().push(unit));
        let m0 = choose|m0: WorldModel|
            #[trigger] unit_step_admitted(pre, units[0], m0) && units_admitted(
                m0,
                units.drop_first(),
                mid,
            );
        lemma_units_admitted_snoc(m0, units.drop_first(), mid, unit, post);
        assert(unit_step_admitted(pre, units[0], m0) && units_admitted(
            m0,
            units.push(unit).drop_first(),
            post,
        ));
    }
}

/// A run of stages, each an admitted run of its units, chains `pre` to
/// `post` in pipeline order.
pub open spec fn stages_admitted(pre: WorldModel, stages: Seq<StageModel>, post: WorldModel) -> bool
    decreases stages.len(),
{
    if stages.len() == 0 {
        post == pre
    } else {
        exists|mid: WorldModel|
            #[trigger] units_admitted(pre, stages[0].units, mid) && stages_admitted(
                mid,
                stages.drop_first(),
                post,
            )
    }
}

/// Running one more stage extends an admitted run.
pub proof fn lemma_stages_admitted_snoc(
    pre: WorldModel,
    stages: Seq<StageModel>,
    mid: WorldModel,
    stage: StageModel,
    post: WorldModel,
)
    requires
        stages_admitted(pre, stages, mid),
        units_admitted(mid, stage.units, post),
    ensures
        stages_admitted(pre, stages.push(stage), post),
    decreases stages.len(),
{
    if stages.len() == 0 {
        assert(stages.push(stage)[0] == stage);
        assert(stages.push(stage).drop_first() =~= Seq::<StageModel>::empty());
        assert(mid == pre);
        assert(stages_admitted(post, Seq::<StageModel>::empty(), post));
        assert(units_admitted(pre, stage.units, post) && stages_admitted(
            post,
            stages.push(stage).drop_first(),
            post,
        ));
    } else {
        assert(stages.push(stage)[0] == stages[0]);
        assert(stages.push(stage).drop_first() =~= stages.drop_first().push(stage));
        let m0 = choose|m0: WorldModel|
            #[trigger] units_admitted(pre, stages[0].units, m0) && stages_admitted(
                m0,
                stages.drop_first(),
                mid,
            );
        lemma_stages_admitted_snoc(m0, stages.drop_first(), mid, stage, post);
        assert(units_admitted(pre, stages[0].units, m0) && stages_admitted(
            m0,
            stages.push(stage).drop_first(),
            post,
        ));
    }
}

/// Runs every stage of the schedule in pipeline order, and within each
/// stage every unit in registration order, over the store.  On success
/// the store moved by exactly one admitted run of every registered
/// unit's contracted step; the control-flow state either stands or has
/// become an exit request with status code zero — nothing else ever
/// touches it during a tick.
pub fn run_once<W: Window>(schedule: &Schedule, world: &mut World<W>) -> (r: Result<
    (),
    RuntimeError,
>)
    requires
        old(world)@.wf(),
        crate::schedule::schedule_wf(schedule@),
    ensures
        final(world)@.wf(),
        final(world)@.control_flow == old(world)@.control_flow || final(world)@.control_flow
            == ControlFlow::ExitWithCode(0),
        r.is_ok() ==> stages_admitted(old(world)@, schedule@, final(world)@),
        match r {
            Ok(_) => true,
            Err(err) => exists|si: int, ui: int, mid: WorldModel|
                #[trigger] tick_prefix_admitted(old(world)@, schedule@, si, ui, mid)
                    && unit_step_blocked(mid, schedule@[si].units[ui], err),
        },
{
    let stage_count = schedule.stage_count();
    let mut si: usize = 0;
    while si < stage_count
        invariant
            si <= stage_count,
            stage_count == schedule@.len(),
            crate::schedule::schedule_wf(schedule@),
            old(world)@.wf(),
            world@.wf(),
            stages_admitted(old(world)@, schedule@.take(si as int), world@),
            world@.control_flow == old(world)@.control_flow || world@.control_flow
                == ControlFlow::ExitWithCode(0),
        decreases stage_count - si,
    {
        let unit_count = schedule.unit_count_at(si);
        let ghost stage_entry = world@;
        let mut ui: usize = 0;
        proof {
            assert(schedule@[si as int].units.take(0) =~= Seq::<Unit>::empty());
        }
        while ui < unit_count
            invariant
                ui <= unit_count,
                si < stage_count,
                stage_count == schedule@.len(),
                unit_count == schedule@[si as int].units.len(),
                crate::schedule::schedule_wf(schedule@),
                old(world)@.wf(),
                world@.wf(),
                stages_admitted(old(world)@, schedule@.take(si as int), stage_entry),
                units_admitted(stage_entry, schedule@[si as int].units.take(ui as int), world@),
                world@.control_flow == old(world)@.control_flow || world@.control_flow
                    == ControlFlow::ExitWithCode(0),
            decreases unit_count - ui,
        {
            let unit = schedule.unit_at(si, ui);
            let ghost before_unit = world@;
            match unit.system {
                SystemId::EventUpdate(kind) => {
                    event_update_system(world, kind);
                },
                SystemId::CreateWindows => {
                    match create_window_system(world) {
                        Ok(()) => {},
                        Err(e) => {
                            proof {
                                assert(unit_step_blocked(before_unit, unit, e));
                                assert(stages_admitted(
                                    old(world)@,
                                    schedule@.take(si as int),
                                    stage_entry,
                                ) && units_admitted(
                                    stage_entry,
                                    schedule@[si as int].units.take(ui as int),
                                    before_unit,
                                ));
                                assert(tick_prefix_admitted(
                                    old(world)@,
                                    schedule@,
                                    si as int,
                                    ui as int,
                                    before_unit,
                                ));
                            }
                            return Err(e);
                        },
                    }
                },
                SystemId::WindowsCloseRequested => {
                    match windows_close_requested_system(world) {
                        Ok(()) => {},
                        Err(e) => {
                            proof {
                                assert(unit_step_blocked(before_unit, unit, e));
                                assert(stages_admitted(
                                    old(world)@,
                                    schedule@.take(si as int),
                                    stage_entry,
                                ) && units_admitted(
                                    stage_entry,
                                    schedule@[si as int].units.take(ui as int),
                                    before_unit,
                                ));
                                assert(tick_prefix_admitted(
                                    old(world)@,
                                    schedule@,
                                    si as int,
                                    ui as int,
                                    before_unit,
                                ));
                            }
                            return Err(e);
                        },
                    }
                },
                SystemId::DestroyWindows => {
                    match destroy_window_system(world) {
                        Ok(()) => {},
                        Err(e) => {
                            proof {
                                assert(unit_step_blocked(before_unit, unit, e));
                                assert(stages_admitted(
                                    old(world)@,
                                    schedule@.take(si as int),
                                    stage_entry,
                                ) && units_admitted(
                                    stage_entry,
                                    schedule@[si as int].units.take(ui as int),
                                    before_unit,
                                ));
                                assert(tick_prefix_admitted(
                                    old(world)@,
                                    schedule@,
                                    si as int,
                                    ui as int,
                                    before_unit,
                                ));
                            }
                            return Err(e);
                        },
                    }
                },
                SystemId::CreateSurfaceForWindows => {
                    match create_surface_for_window_system(world) {
                        Ok(()) => {},
                        Err(e) => {
                            proof {
                                assert(unit_step_blocked(before_unit, unit, e));
                                assert(stages_admitted(
                                    old(world)@,
                                    schedule@.take(si as int),
                                    stage_entry,
                                ) && units_admitted(
                                    stage_entry,
                                    schedule@[si as int].units.take(ui as int),
                                    before_unit,
                                ));
                                assert(tick_prefix_admitted(
                                    old(world)@,
                                    schedule@,
                                    si as int,
                                    ui as int,
                                    before_unit,
                                ));
                            }
                            return Err(e);
                        },
                    }
                },
                SystemId::RepaintAndPresentWindows => {
                    match repaint_and_present_windows(world) {
                        Ok(()) => {},
                        Err(e) => {
                            proof {
                                assert(unit_step_blocked(before_unit, unit, e));
                                assert(stages_admitted(
                                    old(world)@,
                                    schedule@.take(si as int),
                                    stage_entry,
                                ) && units_admitted(
                                    stage_entry,
                                    schedule@[si as int].units.take(ui as int),
                                    before_unit,
                                ));
                                assert(tick_prefix_admitted(
                                    old(world)@,
                                    schedule@,
                                    si as int,
                                    ui as int,
                                    before_unit,
                                ));
                            }
                            return Err(e);
                        },
                    }
                },
                SystemId::Shutdown => {
                    shutdown_system(world);
                },
                SystemId::ShutdownEventLoop => {
                    shutdown_eventloop_system(world);
                },
            }
            proof {
                assert(unit_step_admitted(before_unit, unit, world@));
                assert(schedule@[si as int].units.take(ui + 1) =~= schedule@[si as int].units.take(
                    ui as int,
                ).push(unit));
                lemma_units_admitted_snoc(
                    stage_entry,
                    schedule@[si as int].units.take(ui as int),
                    before_unit,
                    unit,
                    world@,
                );
            }
            ui = ui + 1;
        }
        proof {
            assert(schedule@[si as int].units.take(unit_count as int)
                =~= schedule@[si as int].units);
            assert(schedule@.take(si + 1) =~= schedule@.take(si as int).push(
                schedule@[si as int],
            ));
            lemma_stages_admitted_snoc(
                old(world)@,
                schedule@.take(si as int),
                stage_entry,
                schedule@[si as int],
                world@,
            );
        }
        si = si + 1;
    }
    proof {
        assert(schedule@.take(stage_count as int) =~= schedule@);
    }
    Ok(())
}

/// A native window notification, already reduced to the canonical
/// enumeration the event pump is assumed to deliver.
#[derive(Debug, Copy, Clone, PartialEq, Eq, Structural)]
pub enum NativeWindowEvent {
    /// The user asked the window to close.
    CloseRequested,
    /// The OS destroyed the window.
    Destroyed,
    /// The OS resized the window to these drawable bounds.
    Resized { width: u32, height: u32 },
}

/// One event of the native pump, as the translator sees it.
#[derive(Debug, Copy, Clone, PartialEq, Eq, Structural)]
pub enum NativeEvent {
    /// The loop has started; shared state may now be injected.
    Init,
    /// A notification for the window the OS knows by `raw_id`.
    Window { raw_id: u64, event: NativeWindowEvent },
    /// The OS asks for the window to be redrawn.
    RedrawRequested { raw_id: u64 },
    /// All native events of this round are delivered; the scheduler may
    /// tick.
    MainEventsCleared,
    /// The native loop is tearing down.
    LoopDestroyed,
}

/// The stable window identifier of the live window the OS knows by this
/// native identifier.  A native event for an unknown window is an
/// invariant violation.
pub fn find_window_id_from_raw_id<W: Window>(world: &World<W>, raw_id: u64) -> (r: Result<
    WindowId,
    RuntimeError,
>)
    requires
        world@.wf(),
    ensures
        match r {
            Ok(id) => world@.has_raw_id(raw_id) && exists|i: int|
                0 <= i < world@.entities.len() && (#[trigger] world@.entities[i]).raw_id == raw_id
                    && world@.entities[i].id == id.0,
            Err(e) => e == RuntimeError::UnknownNativeWindow(raw_id) && !world@.has_raw_id(raw_id),
        },
{
    match world.find_raw_id(raw_id) {
        Some(i) => {
            let id = world.entities[i].bundle.id;
            proof {
                assert(world@.entities[i as int].raw_id == raw_id && world@.entities[i as int].id
                    == id.0);
            }
            Ok(id)
        },
        None => Err(RuntimeError::UnknownNativeWindow(raw_id)),
    }
}

/// The store after a close request arrives for the window the OS knows
/// by this identifier: one `CloseRequested` for its entity is queued.
pub open spec fn close_request_translated(w: WorldModel, raw_id: u64) -> WorldModel {
    let entity = w.entities[w.raw_id_index(raw_id)].entity;
    WorldModel { bus: bus_post(w.bus, RuntimeEvent::CloseRequested { entity }), ..w }
}

/// The store after the OS resized that window: its OS window model holds
/// the new bounds and one `Resize` for its entity is queued.
pub open spec fn resize_translated(w: WorldModel, raw_id: u64, width: u32, height: u32) -> WorldModel {
    let i = w.raw_id_index(raw_id);
    let e = w.entities[i];
    let moved = WindowEntityModel {
        os_window: OsWindowModel { width, height, ..e.os_window },
        ..e
    };
    WorldModel {
        entities: w.entities.update(i, moved),
        bus: bus_post(
            w.bus,
            RuntimeEvent::Resize { window_id: WindowId(e.id), entity: e.entity },
        ),
        ..w
    }
}

/// What translating one native window notification does: a close
/// request queues a `CloseRequested` for the window's entity, a resize
/// records the bounds and queues a `Resize`, a native destroy
/// notification changes nothing; a notification other than a destroy
/// for an unknown native window never succeeds.
pub open spec fn window_event_applied(
    pre: WorldModel,
    raw_id: u64,
    event: NativeWindowEvent,
    post: WorldModel,
) -> bool {
    if !pre.has_raw_id(raw_id) {
        post == pre && event == NativeWindowEvent::Destroyed
    } else {
        match event {
            NativeWindowEvent::CloseRequested => post == close_request_translated(pre, raw_id),
            NativeWindowEvent::Destroyed => post == pre,
            NativeWindowEvent::Resized { width, height } => post == resize_translated(
                pre,
                raw_id,
                width,
                height,
            ),
        }
    }
}

/// Exactly the conditions under which translating one native window
/// notification stops with a fault.
pub open spec fn window_event_blocked(
    pre: WorldModel,
    raw_id: u64,
    event: NativeWindowEvent,
    err: RuntimeError,
) -> bool {
    match err {
        RuntimeError::UnknownNativeWindow(id) => id == raw_id && !pre.has_raw_id(raw_id) && event
            != NativeWindowEvent::Destroyed,
        RuntimeError::EventOverflow => !bus_can_post(
            pre.bus,
            match event {
                NativeWindowEvent::CloseRequested => EventKind::CloseRequested,
                NativeWindowEvent::Destroyed => EventKind::CloseRequested,
                NativeWindowEvent::Resized { .. } => EventKind::Resize,
            },
        ),
        _ => false,
    }
}

/// Translates one native window notification into the runtime's typed
/// event for the window's entity.  A close request queues a
/// `CloseRequested`; a resize records the new bounds on the window and
/// queues a `Resize`; a native destroy notification is not consumed —
/// teardown is driven by the runtime's own `Destroy` events.  A
/// notification for an unknown native window is an invariant violation.
pub fn dispatch_window_events<W: Window>(
    world: &mut World<W>,
    event: NativeWindowEvent,
    raw_id: u64,
) -> (r: Result<(), RuntimeError>)
    requires
        old(world)@.wf(),
    ensures
        final(world)@.wf(),
        match r {
            Ok(()) => window_event_applied(old(world)@, raw_id, event, final(world)@),
            Err(e) => final(world)@ == old(world)@ && window_event_blocked(
                old(world)@,
                raw_id,
                event,
                e,
            ),
        },
{
    match event {
        NativeWindowEvent::CloseRequested => {
            let i = match world.find_raw_id(raw_id) {
                Some(i) => i,
                None => {
                    return Err(RuntimeError::UnknownNativeWindow(raw_id));
                },
            };
            proof {
                lemma_raw_id_index_unique(world@, i as int);
            }
            if !world.bus.can_post(EventKind::CloseRequested) {
                return Err(RuntimeError::EventOverflow);
            }
            let entity = world.entities[i].entity;
            let ghost pre = world@;
            world.bus.post(RuntimeEvent::CloseRequested { entity });
            proof {
                lemma_world_post_wf(pre, RuntimeEvent::CloseRequested { entity });
                assert(world@ == close_request_translated(pre, raw_id));
            }
            Ok(())
        },
        NativeWindowEvent::Destroyed => Ok(()),
        NativeWindowEvent::Resized { width, height } => {
            let i = match world.find_raw_id(raw_id) {
                Some(i) => i,
                None => {
                    return Err(RuntimeError::UnknownNativeWindow(raw_id));
                },
            };
            proof {
                lemma_raw_id_index_unique(world@, i as int);
            }
            if !world.bus.can_post(EventKind::Resize) {
                return Err(RuntimeError::EventOverflow);
            }
            let ghost pre = world@;
            let we = &mut world.entities[i];
            let ghost old_we = we@;
            we.bundle.os_window.set_draw_bounds(width, height);
            let entity = we.entity;
            let window_id = we.bundle.id;
            proof {
                assert(pre.entities[i as int] == old_we);
            }
            world.bus.post(RuntimeEvent::Resize { window_id, entity });
            proof {
                let m = resize_translated(pre, raw_id, width, height);
                assert(world@.entities =~= m.entities);
                assert(world@ == m);
                crate::lifecycle::lemma_world_entity_updated_wf(
                    pre,
                    i as int,
                    m.entities[i as int],
                );
                let mid = WorldModel {
                    entities: pre.entities.update(i as int, m.entities[i as int]),
                    ..pre
                };
                lemma_world_post_wf(mid, RuntimeEvent::Resize { window_id, entity });
                assert(world@ == (WorldModel {
                    bus: bus_post(mid.bus, RuntimeEvent::Resize { window_id, entity }),
                    ..mid
                }));
            }
            Ok(())
        },
    }
}

/// On a well-formed store a native identifier names at most one live
/// window.
pub proof fn lemma_raw_id_index_unique(w: WorldModel, i: int)
    requires
        w.wf(),
        0 <= i < w.entities.len(),
    ensures
        w.raw_id_index(w.entities[i].raw_id) == i,
{
    let raw_id = w.entities[i].raw_id;
    assert(w.has_raw_id(raw_id));
    let j = w.raw_id_index(raw_id);
    assert(0 <= j < w.entities.len() && w.entities[j].raw_id == raw_id);
}

} // verus!
