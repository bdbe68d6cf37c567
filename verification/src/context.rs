//! The application-facing context: the store, the schedule, and the
//! application's own data, wired together; plus the plugins that
//! register the runtime's stages, queues and systems.

use vstd::prelude::*;

use crate::events::{
    bus_can_post, bus_has, bus_post, bus_register, event_kind, kind_of, EventKind, RuntimeEvent,
};
use crate::events::lemma_bus_register_effect;
use crate::lifecycle::lemma_world_post_wf;
use crate::runtime::{dispatch_window_events, run_once, NativeEvent};
use crate::schedule::{
    schedule_has_stage, schedule_wf, schedule_with_unit, CoreStages, Schedule, StageModel,
    SystemId, Unit, UnitLabel,
};
use crate::window::{EventLoopTarget, Window, WindowId};
use crate::world::{cursor_wf, ControlFlow, RuntimeError, World, WorldModel};

verus! {

/// Registering a kind's queue, alone, preserves the store's invariant.
pub proof fn lemma_world_register_wf(w: WorldModel, kind: EventKind)
    requires
        w.wf(),
    ensures
        (WorldModel { bus: bus_register(w.bus, kind), ..w }).wf(),
{
    let m = WorldModel { bus: bus_register(w.bus, kind), ..w };
    lemma_bus_register_effect(w.bus, kind, EventKind::CloseRequested);
    lemma_bus_register_effect(w.bus, kind, EventKind::Destroy);
    lemma_bus_register_effect(w.bus, kind, EventKind::Resize);
    lemma_bus_register_effect(w.bus, kind, EventKind::Repaint);
    assert(cursor_wf(m.bus, EventKind::CloseRequested, m.cursors.close_requested));
    assert(cursor_wf(m.bus, EventKind::Destroy, m.cursors.destroy));
    assert(cursor_wf(m.bus, EventKind::Resize, m.cursors.resize));
    assert(cursor_wf(m.bus, EventKind::Repaint, m.cursors.repaint));
}

/// A one-time setup routine that registers resources, queues and systems
/// into the runtime — a module's initializer, invoked through
/// [`EcsContext::add_plugin`].
pub trait EcsPlugin {
    /// Registers this plugin's state and systems.  Building keeps the
    /// store and the schedule well formed and never removes a stage.
    fn build<W: Window>(world: &mut World<W>, schedule: &mut Schedule)
        requires
            old(world)@.wf(),
            schedule_wf(old(schedule)@),
        ensures
            final(world)@.wf(),
            schedule_wf(final(schedule)@),
            forall|l: CoreStages|
                schedule_has_stage(old(schedule)@, l) ==> schedule_has_stage(final(schedule)@, l),
    ;
}

/// Whether the stage can take the unit: it exists, has room, and
/// already carries any label the unit asks to run after.
pub open spec fn can_add_unit(s: Seq<StageModel>, stage: CoreStages, unit: Unit) -> bool {
    &&& schedule_has_stage(s, stage)
    &&& crate::schedule::schedule_stage_units(s, stage).len() < usize::MAX
    &&& match unit.after {
        Some(l) => exists|j: int|
            0 <= j < crate::schedule::schedule_stage_units(s, stage).len() && (
            #[trigger] crate::schedule::schedule_stage_units(s, stage)[j]).label == Some(l),
        None => true,
    }
}

/// The schedule with the unit appended to the stage when everything it
/// needs is in place, and untouched otherwise.
pub open spec fn try_add_unit(s: Seq<StageModel>, stage: CoreStages, unit: Unit) -> Seq<
    StageModel,
> {
    if can_add_unit(s, stage, unit) {
        schedule_with_unit(s, stage, unit)
    } else {
        s
    }
}

/// Appends the unit to the stage when everything it needs is in place:
/// the stage exists, has room, and already carries any label the unit
/// asks to run after.  Reports whether the unit was added — exactly
/// when those conditions held.
pub fn add_system_to_stage(schedule: &mut Schedule, stage: CoreStages, unit: Unit) -> (added:
    bool)
    requires
        schedule_wf(old(schedule)@),
    ensures
        schedule_wf(final(schedule)@),
        forall|l: CoreStages|
            schedule_has_stage(final(schedule)@, l) == schedule_has_stage(old(schedule)@, l),
        added == can_add_unit(old(schedule)@, stage, unit),
        final(schedule)@ == try_add_unit(old(schedule)@, stage, unit),
    {
    if !schedule.has_stage(stage) {
        return false;
    }
    if schedule.stage_unit_count(stage) == usize::MAX {
        return false;
    }
    match unit.after {
        Some(l) => {
            if !schedule.stage_has_label(stage, l) {
                return false;
            }
        },
        None => {},
    }
    schedule.add_unit_to_stage(stage, unit);
    proof {
        let post = schedule@;
        let pre = old(schedule)@;
        let i = crate::schedule::schedule_stage_index(pre, stage);
        assert(0 <= i < pre.len() && pre[i].label == stage);
        assert forall|l: CoreStages|
            schedule_has_stage(post, l) == schedule_has_stage(pre, l) by {
            assert(post.len() == pre.len());
            assert forall|k: int|
                0 <= k < post.len() implies (#[trigger] post[k]).label == pre[k].label by {
                if k != i {
                    assert(post[k] == pre[k]);
                }
            }
            if schedule_has_stage(pre, l) {
                let k = choose|k: int| 0 <= k < pre.len() && (#[trigger] pre[k]).label == l;
                assert(post[k].label == l);
            }
            if schedule_has_stage(post, l) {
                let k = choose|k: int| 0 <= k < post.len() && (#[trigger] post[k]).label == l;
                assert(pre[k].label == l);
            }
        }
    }
    true
}

/// A unit with neither a label nor an ordering dependency.
pub fn plain_unit(system: SystemId) -> (u: Unit)
    ensures
        u == (Unit { system, label: None, after: None }),
{
    Unit { system, label: None, after: None }
}

/// The application-level shutdown event: posting it asks the runtime to
/// exit with status code zero at the end of the tick.
pub struct Shutdown;

impl Shutdown {
    /// The bus event that carries a posted `Shutdown`.
    pub fn event(&self) -> (e: RuntimeEvent)
        ensures
            e == RuntimeEvent::Shutdown,
    {
        RuntimeEvent::Shutdown
    }
}

/// Registers the application plumbing: the `Shutdown` queue with its
/// maintenance, the system that turns a posted `Shutdown` into an exit
/// request, and the control-flow state at its resting value.
pub struct ApplicationPlugin;

/// What building the application plugin does to the store.
pub open spec fn application_plugin_world(w: WorldModel) -> WorldModel {
    WorldModel {
        bus: bus_register(w.bus, EventKind::Shutdown),
        control_flow: ControlFlow::Wait,
        ..w
    }
}

/// What building the application plugin does to the schedule.
pub open spec fn application_plugin_schedule(s: Seq<StageModel>) -> Seq<StageModel> {
    try_add_unit(
        try_add_unit(
            s,
            CoreStages::EventUpdate,
            Unit { system: SystemId::EventUpdate(EventKind::Shutdown), label: None, after: None },
        ),
        CoreStages::PreUpdate,
        Unit { system: SystemId::Shutdown, label: None, after: None },
    )
}

/// Builds the application plugin: its exact effect on store and
/// schedule.
pub fn build_application_plugin<W: Window>(world: &mut World<W>, schedule: &mut Schedule)
    requires
        old(world)@.wf(),
        schedule_wf(old(schedule)@),
    ensures
        final(world)@.wf(),
        schedule_wf(final(schedule)@),
        forall|l: CoreStages|
            schedule_has_stage(old(schedule)@, l) == schedule_has_stage(final(schedule)@, l),
        final(world)@ == application_plugin_world(old(world)@),
        final(schedule)@ == application_plugin_schedule(old(schedule)@),
{
    world.bus.register(EventKind::Shutdown);
    proof {
        lemma_world_register_wf(old(world)@, EventKind::Shutdown);
        assert(world@.entities =~= old(world)@.entities);
        assert(world@.pending =~= old(world)@.pending);
        assert(world@ == (WorldModel {
            bus: bus_register(old(world)@.bus, EventKind::Shutdown),
            ..old(world)@
        }));
    }
    let ghost mid = world@;
    world.control_flow = ControlFlow::Wait;
    proof {
        assert(world@.entities =~= mid.entities);
        assert(world@.pending =~= mid.pending);
        assert(world@ == (WorldModel { control_flow: ControlFlow::Wait, ..mid }));
    }
    add_system_to_stage(
        schedule,
        CoreStages::EventUpdate,
        plain_unit(SystemId::EventUpdate(EventKind::Shutdown)),
    );
    add_system_to_stage(schedule, CoreStages::PreUpdate, plain_unit(SystemId::Shutdown));
}

impl EcsPlugin for ApplicationPlugin {
    fn build<W: Window>(world: &mut World<W>, schedule: &mut Schedule) {
        build_application_plugin(world, schedule);
    }
}

/// Registers the window lifecycle: every lifecycle event queue with its
/// maintenance, window creation and close handling in the pre-update
/// stage — close handling ordered after creation by an explicit label —
/// teardown after the update, surface upkeep in the update, presentation
/// in the present stage, and the event-loop shutdown check last.
pub struct WindowingPlugin;

/// What building the windowing plugin does to the store: every
/// lifecycle event queue registered, in order.
pub open spec fn windowing_plugin_world(w: WorldModel) -> WorldModel {
    WorldModel {
        bus: bus_register(
            bus_register(
                bus_register(
                    bus_register(
                        bus_register(
                            bus_register(w.bus, EventKind::Create),
                            EventKind::Resize,
                        ),
                        EventKind::Repaint,
                    ),
                    EventKind::Destroy,
                ),
                EventKind::CloseRequested,
            ),
            EventKind::ShutdownEventLoop,
        ),
        ..w
    }
}

/// What building the windowing plugin does to the schedule: each of its
/// units offered to its stage, in registration order.
pub open spec fn windowing_plugin_schedule(s: Seq<StageModel>) -> Seq<StageModel> {
    try_add_unit(
try_add_unit(
try_add_unit(
try_add_unit(
try_add_unit(
try_add_unit(
try_add_unit(
try_add_unit(
try_add_unit(
try_add_unit(
try_add_unit(
try_add_unit(
s,
CoreStages::EventUpdate,
(Unit { system: SystemId::EventUpdate(EventKind::Create), label: None, after: None }),
),
CoreStages::EventUpdate,
(Unit { system: SystemId::EventUpdate(EventKind::Resize), label: None, after: None }),
),
CoreStages::EventUpdate,
(Unit { system: SystemId::EventUpdate(EventKind::Repaint), label: None, after: None }),
),
CoreStages::EventUpdate,
(Unit { system: SystemId::EventUpdate(EventKind::Destroy), label: None, after: None }),
),
CoreStages::EventUpdate,
(Unit { system: SystemId::EventUpdate(EventKind::CloseRequested), label: None, after: None }),
),
CoreStages::EventUpdate,
(Unit { system: SystemId::EventUpdate(EventKind::ShutdownEventLoop), label: None, after: None }),
),
CoreStages::PreUpdate,
(Unit { system: SystemId::CreateWindows, label: Some(UnitLabel::WindowLifecycle), after: None }),
),
CoreStages::PreUpdate,
(Unit { system: SystemId::WindowsCloseRequested, label: None, after: Some(UnitLabel::WindowLifecycle) }),
),
CoreStages::PostUpdate,
(Unit { system: SystemId::DestroyWindows, label: None, after: None }),
),
CoreStages::Update,
(Unit { system: SystemId::CreateSurfaceForWindows, label: None, after: None }),
),
CoreStages::Present,
(Unit { system: SystemId::RepaintAndPresentWindows, label: None, after: None }),
),
CoreStages::Last,
(Unit { system: SystemId::ShutdownEventLoop, label: None, after: None }),
)
}

/// Builds the windowing plugin: its exact effect on store and schedule.
pub fn build_windowing_plugin<W: Window>(world: &mut World<W>, schedule: &mut Schedule)
    requires
        old(world)@.wf(),
        schedule_wf(old(schedule)@),
    ensures
        final(world)@.wf(),
        schedule_wf(final(schedule)@),
        forall|l: CoreStages|
            schedule_has_stage(old(schedule)@, l) == schedule_has_stage(final(schedule)@, l),
        final(world)@ == windowing_plugin_world(old(world)@),
        final(schedule)@ == windowing_plugin_schedule(old(schedule)@),
{
    register_queue(world, EventKind::Create);
    register_queue(world, EventKind::Resize);
    register_queue(world, EventKind::Repaint);
    register_queue(world, EventKind::Destroy);
    register_queue(world, EventKind::CloseRequested);
    register_queue(world, EventKind::ShutdownEventLoop);
    proof {
        assert(world@ == windowing_plugin_world(old(world)@));
    }
    let ghost s0 = schedule@;
    add_system_to_stage(
        schedule,
        CoreStages::EventUpdate,
        plain_unit(SystemId::EventUpdate(EventKind::Create)),
    );
    add_system_to_stage(
        schedule,
        CoreStages::EventUpdate,
        plain_unit(SystemId::EventUpdate(EventKind::Resize)),
    );
    add_system_to_stage(
        schedule,
        CoreStages::EventUpdate,
        plain_unit(SystemId::EventUpdate(EventKind::Repaint)),
    );
    add_system_to_stage(
        schedule,
        CoreStages::EventUpdate,
        plain_unit(SystemId::EventUpdate(EventKind::Destroy)),
    );
    add_system_to_stage(
        schedule,
        CoreStages::EventUpdate,
        plain_unit(SystemId::EventUpdate(EventKind::CloseRequested)),
    );
    add_system_to_stage(
        schedule,
        CoreStages::EventUpdate,
        plain_unit(SystemId::EventUpdate(EventKind::ShutdownEventLoop)),
    );
    add_system_to_stage(
        schedule,
        CoreStages::PreUpdate,
        Unit {
            system: SystemId::CreateWindows,
            label: Some(UnitLabel::WindowLifecycle),
            after: None,
        },
    );
    add_system_to_stage(
        schedule,
        CoreStages::PreUpdate,
        Unit {
            system: SystemId::WindowsCloseRequested,
            label: None,
            after: Some(UnitLabel::WindowLifecycle),
        },
    );
    add_system_to_stage(schedule, CoreStages::PostUpdate, plain_unit(SystemId::DestroyWindows));
    add_system_to_stage(
        schedule,
        CoreStages::Update,
        plain_unit(SystemId::CreateSurfaceForWindows),
    );
    add_system_to_stage(
        schedule,
        CoreStages::Present,
        plain_unit(SystemId::RepaintAndPresentWindows),
    );
    add_system_to_stage(schedule, CoreStages::Last, plain_unit(SystemId::ShutdownEventLoop));
}

impl EcsPlugin for WindowingPlugin {
    fn build<W: Window>(world: &mut World<W>, schedule: &mut Schedule) {
        build_windowing_plugin(world, schedule);
    }
}

/// Ensures the kind's queue exists on the store's bus.
fn register_queue<W: Window>(world: &mut World<W>, kind: EventKind)
    requires
        old(world)@.wf(),
    ensures
        final(world)@.wf(),
        final(world)@ == (WorldModel {
            bus: bus_register(old(world)@.bus, kind),
            ..old(world)@
        }),
{
    world.bus.register(kind);
    proof {
        lemma_world_register_wf(old(world)@, kind);
        assert(world@.entities =~= old(world)@.entities);
        assert(world@.pending =~= old(world)@.pending);
    }
}

/// Registers the rendering module.  Its systems ride along with the
/// windowing lifecycle for now, so building it sets nothing up yet.
pub struct RenderingPlugin;

impl EcsPlugin for RenderingPlugin {
    fn build<W: Window>(_world: &mut World<W>, _schedule: &mut Schedule) {
    }
}

/// An application hosted by the runtime: told once when the loop is up,
/// and once as it tears down.
pub trait Application<W: Window>: Sized {
    /// The application's own state, carried through the context.
    type Data;

    /// Called exactly once before the first tick.
    fn initalize(ctx: &mut EcsContext<Self::Data, W>) {
    }

    /// Called exactly once during native loop teardown.
    fn shutdown(ctx: &mut EcsContext<Self::Data, W>) {
    }
}

/// The core pipeline: the eight stages of a tick in the order they run,
/// before any unit is registered.
pub open spec fn core_pipeline() -> Seq<StageModel> {
    seq![
        StageModel { label: CoreStages::EventUpdate, units: Seq::empty() },
        StageModel { label: CoreStages::PreUpdate, units: Seq::empty() },
        StageModel { label: CoreStages::Update, units: Seq::empty() },
        StageModel { label: CoreStages::PostUpdate, units: Seq::empty() },
        StageModel { label: CoreStages::Layout, units: Seq::empty() },
        StageModel { label: CoreStages::Render, units: Seq::empty() },
        StageModel { label: CoreStages::Present, units: Seq::empty() },
        StageModel { label: CoreStages::Last, units: Seq::empty() },
    ]
}

/// The runtime's working state: the application's data, the entity
/// store, and the staged schedule, with the core pipeline in place.
pub struct EcsContext<D, W> {
    pub data: D,
    pub world: World<W>,
    pub schedule: Schedule,
}

impl<D, W: Window> EcsContext<D, W> {
    /// The context's governing invariant: the store and the schedule are
    /// well formed, and the pre-update stage — where lazily registered
    /// event maintenance lands — exists.
    pub open spec fn wf(&self) -> bool {
        &&& self.world@.wf()
        &&& schedule_wf(self.schedule@)
        &&& schedule_has_stage(self.schedule@, CoreStages::PreUpdate)
    }

    /// A fresh context over the given event loop target: an empty store
    /// and the eight core stages in pipeline order, each still empty.
    pub fn new(data: D, target: EventLoopTarget) -> (ctx: EcsContext<D, W>)
        ensures
            ctx.wf(),
            ctx.data == data,
            ctx.world@ == crate::world::initial_world_model(target),
            ctx.schedule@ == core_pipeline(),
    {
        let world = World::new(target);
        let mut schedule = Schedule::new();
        schedule.push_stage(CoreStages::EventUpdate);
        proof {
            assert(schedule@ =~= core_pipeline().take(1));
            crate::schedule::lemma_schedule_index_unique(schedule@, 0);
        }
        schedule.push_stage_after(CoreStages::EventUpdate, CoreStages::PreUpdate);
        proof {
            assert(schedule@ =~= core_pipeline().take(2));
            crate::schedule::lemma_schedule_index_unique(schedule@, 1);
        }
        schedule.push_stage_after(CoreStages::PreUpdate, CoreStages::Update);
        proof {
            assert(schedule@ =~= core_pipeline().take(3));
            crate::schedule::lemma_schedule_index_unique(schedule@, 2);
        }
        schedule.push_stage_after(CoreStages::Update, CoreStages::PostUpdate);
        proof {
            assert(schedule@ =~= core_pipeline().take(4));
            crate::schedule::lemma_schedule_index_unique(schedule@, 3);
        }
        schedule.push_stage_after(CoreStages::PostUpdate, CoreStages::Layout);
        proof {
            assert(schedule@ =~= core_pipeline().take(5));
            crate::schedule::lemma_schedule_index_unique(schedule@, 4);
        }
        schedule.push_stage_after(CoreStages::Layout, CoreStages::Render);
        proof {
            assert(schedule@ =~= core_pipeline().take(6));
            crate::schedule::lemma_schedule_index_unique(schedule@, 5);
        }
        schedule.push_stage_after(CoreStages::Render, CoreStages::Present);
        proof {
            assert(schedule@ =~= core_pipeline().take(7));
            crate::schedule::lemma_schedule_index_unique(schedule@, 6);
        }
        schedule.push_stage_after(CoreStages::Present, CoreStages::Last);
        proof {
            assert(schedule@ =~= core_pipeline());
            assert(schedule@[1].label == CoreStages::PreUpdate);
        }
        EcsContext { data, world, schedule }
    }

    /// Posts an event onto the bus.  The first post of a never-seen kind
    /// registers its queue and hooks the queue's maintenance into the
    /// pre-update stage; the registration happens at most once per kind.
    pub fn post_event(&mut self, event: RuntimeEvent) -> (r: Result<(), RuntimeError>)
        requires
            old(self).wf(),
        ensures
            final(self).wf(),
            match r {
                Ok(()) => final(self).world@ == (WorldModel {
                    bus: bus_post(
                        bus_register(old(self).world@.bus, kind_of(event)),
                        event,
                    ),
                    ..old(self).world@
                }) && final(self).schedule@ == (if bus_has(old(self).world@.bus, kind_of(event)) {
                    old(self).schedule@
                } else {
                    try_add_unit(
                        old(self).schedule@,
                        CoreStages::PreUpdate,
                        (Unit { system: SystemId::EventUpdate(kind_of(event)), label: None, after: None }),
                    )
                }),
                Err(e) => final(self).world@ == old(self).world@
                    && final(self).schedule@ == old(self).schedule@
                    && e == RuntimeError::EventOverflow && !bus_can_post(
                    old(self).world@.bus,
                    kind_of(event),
                ),
            },
    {
        let kind = event_kind(&event);
        if !self.world.bus.can_post(kind) {
            return Err(RuntimeError::EventOverflow);
        }
        let ghost pre = self.world@;
        if !self.world.bus.has_kind(kind) {
            self.world.bus.register(kind);
            proof {
                lemma_world_register_wf(pre, kind);
                assert(self.world@.entities =~= pre.entities);
                assert(self.world@.pending =~= pre.pending);
                assert(self.world@ == (WorldModel { bus: bus_register(pre.bus, kind), ..pre }));
            }
            add_system_to_stage(
                &mut self.schedule,
                CoreStages::PreUpdate,
                plain_unit(SystemId::EventUpdate(kind)),
            );
        } else {
            proof {
                assert(bus_register(pre.bus, kind) == pre.bus);
            }
        }
        let ghost mid = self.world@;
        proof {
            lemma_bus_register_effect(pre.bus, kind, kind);
            assert(bus_can_post(mid.bus, kind));
        }
        self.world.bus.post(event);
        proof {
            lemma_world_post_wf(mid, event);
            assert(self.world@ == (WorldModel { bus: bus_post(mid.bus, event), ..mid }));
        }
        Ok(())
    }

    /// Creates a window driven by the given behavior: a fresh, never
    /// reused window identifier is assigned, the behavior is parked until
    /// the creation system runs, and a `Create` for the identifier is
    /// posted.
    pub fn create_window(&mut self, window: W) -> (r: Result<WindowId, RuntimeError>)
        requires
            old(self).wf(),
        ensures
            final(self).wf(),
            match r {
                Ok(id) => {
                    &&& id.0 == old(self).world@.next_window_id
                    &&& final(self).world@ == (WorldModel {
                        pending: old(self).world@.pending.push(id.0),
                        next_window_id: (old(self).world@.next_window_id + 1) as u32,
                        bus: bus_post(
                            bus_register(old(self).world@.bus, EventKind::Create),
                            RuntimeEvent::Create { window_id: id },
                        ),
                        ..old(self).world@
                    })
                },
                Err(e) => match e {
                    RuntimeError::WindowIdsExhausted => old(self).world@.next_window_id
                        == u32::MAX && final(self).world@ == old(self).world@,
                    RuntimeError::EventOverflow => !bus_can_post(
                        old(self).world@.bus,
                        EventKind::Create,
                    ) && final(self).world@ == old(self).world@,
                    _ => false,
                },
            },
    {
        if self.world.id_generator.next == u32::MAX {
            return Err(RuntimeError::WindowIdsExhausted);
        }
        if !self.world.bus.can_post(EventKind::Create) {
            return Err(RuntimeError::EventOverflow);
        }
        let ghost pre = self.world@;
        let id = WindowId::new(&mut self.world.id_generator);
        self.world.pending_windows.push((id, window));
        proof {
            assert(self.world@.entities =~= pre.entities);
            assert(self.world@.pending =~= pre.pending.push(id.0));
            assert(self.world@ == (WorldModel {
                pending: pre.pending.push(id.0),
                next_window_id: (pre.next_window_id + 1) as u32,
                ..pre
            }));
        }
        let ghost mid = self.world@;
        proof {
            assert forall|i: int|
                0 <= i < mid.pending.len() implies (#[trigger] mid.pending[i])
                < mid.next_window_id by {
                if i < pre.pending.len() {
                    assert(mid.pending[i] == pre.pending[i]);
                }
            }
            assert(mid.wf());
        }
        match self.post_event(RuntimeEvent::Create { window_id: id }) {
            Ok(()) => {
                proof {
                    assert(self.world@ == (WorldModel {
                        bus: bus_post(
                            bus_register(mid.bus, EventKind::Create),
                            RuntimeEvent::Create { window_id: id },
                        ),
                        ..mid
                    }));
                }
                Ok(id)
            },
            Err(_) => {
                proof {
                    assert(false);
                }
                unreached()
            },
        }
    }

    /// Builds the plugin into this context.
    pub fn add_plugin<P: EcsPlugin>(&mut self)
        requires
            old(self).wf(),
        ensures
            final(self).wf(),
            final(self).data == old(self).data,
            forall|l: CoreStages|
                schedule_has_stage(old(self).schedule@, l) ==> schedule_has_stage(
                    final(self).schedule@,
                    l,
                ),
    {
        P::build(&mut self.world, &mut self.schedule);
    }

    /// Runs one scheduler tick over the store: on success the store
    /// moved by exactly one admitted run of every registered unit's
    /// contracted step, stage by stage.
    pub fn tick(&mut self) -> (r: Result<(), RuntimeError>)
        requires
            old(self).wf(),
        ensures
            final(self).wf(),
            final(self).data == old(self).data,
            final(self).schedule@ == old(self).schedule@,
            final(self).world@.control_flow == old(self).world@.control_flow
                || final(self).world@.control_flow == ControlFlow::ExitWithCode(0),
            r.is_ok() ==> crate::runtime::stages_admitted(
                old(self).world@,
                old(self).schedule@,
                final(self).world@,
            ),
            match r {
                Ok(_) => true,
                Err(err) => exists|si: int, ui: int, mid: WorldModel|
                    #[trigger] crate::runtime::tick_prefix_admitted(
                        old(self).world@,
                        old(self).schedule@,
                        si,
                        ui,
                        mid,
                    ) && crate::runtime::unit_step_blocked(
                        mid,
                        old(self).schedule@[si].units[ui],
                        err,
                    ),
            },
    {
        run_once(&self.schedule, &mut self.world)
    }

    /// Handles one event of the native pump: window notifications are
    /// translated onto the bus, a redraw request queues a `Repaint`, and
    /// once the pump reports its round cleared the scheduler ticks and
    /// the control-flow request is handed back.  Everything else leaves
    /// the runtime waiting.
    pub fn handle_native_event(&mut self, event: NativeEvent) -> (r: Result<
        ControlFlow,
        RuntimeError,
    >)
        requires
            old(self).wf(),
        ensures
            final(self).wf(),
            (event matches NativeEvent::Init ==> r == Ok::<ControlFlow, RuntimeError>(
                ControlFlow::Wait,
            ) && final(self).world@ == (WorldModel {
                control_flow: ControlFlow::Wait,
                ..old(self).world@
            }) && final(self).schedule@ == old(self).schedule@),
            (event matches NativeEvent::LoopDestroyed ==> r == Ok::<ControlFlow, RuntimeError>(
                ControlFlow::Wait,
            ) && *final(self) == *old(self)),
            (event matches NativeEvent::Window { raw_id, event: we } ==> match r {
                Ok(cf) => cf == ControlFlow::Wait && crate::runtime::window_event_applied(
                    old(self).world@,
                    raw_id,
                    we,
                    final(self).world@,
                ) && final(self).schedule@ == old(self).schedule@,
                Err(e) => final(self).world@ == old(self).world@
                    && crate::runtime::window_event_blocked(old(self).world@, raw_id, we, e),
            }),
            (event matches NativeEvent::RedrawRequested { raw_id } ==> match r {
                Ok(cf) => cf == ControlFlow::Wait && old(self).world@.has_raw_id(raw_id)
                    && final(self).world@ == (WorldModel {
                    bus: bus_post(
                        old(self).world@.bus,
                        RuntimeEvent::Repaint {
                            entity: old(self).world@.entities[old(self).world@.raw_id_index(
                                raw_id,
                            )].entity,
                        },
                    ),
                    ..old(self).world@
                }) && final(self).schedule@ == old(self).schedule@,
                Err(e) => final(self).world@ == old(self).world@ && match e {
                    RuntimeError::UnknownNativeWindow(id) => id == raw_id
                        && !old(self).world@.has_raw_id(raw_id),
                    RuntimeError::EventOverflow => !bus_can_post(
                        old(self).world@.bus,
                        EventKind::Repaint,
                    ),
                    _ => false,
                },
            }),
            (event matches NativeEvent::MainEventsCleared ==> match r {
                Ok(cf) => cf == final(self).world@.control_flow
                    && (final(self).world@.control_flow == old(self).world@.control_flow
                    || final(self).world@.control_flow == ControlFlow::ExitWithCode(0))
                    && final(self).schedule@ == old(self).schedule@
                    && crate::runtime::stages_admitted(
                    old(self).world@,
                    old(self).schedule@,
                    final(self).world@,
                ),
                Err(err) => exists|si: int, ui: int, mid: WorldModel|
                    #[trigger] crate::runtime::tick_prefix_admitted(
                        old(self).world@,
                        old(self).schedule@,
                        si,
                        ui,
                        mid,
                    ) && crate::runtime::unit_step_blocked(
                        mid,
                        old(self).schedule@[si].units[ui],
                        err,
                    ),
            }),
    {
        match event {
            NativeEvent::Init => {
                // Loop start: the shared control-flow state begins at rest.
                let ghost pre = self.world@;
                self.world.control_flow = ControlFlow::Wait;
                proof {
                    assert(self.world@.entities =~= pre.entities);
                    assert(self.world@.pending =~= pre.pending);
                    assert(self.world@ == (WorldModel { control_flow: ControlFlow::Wait, ..pre }));
                }
                Ok(ControlFlow::Wait)
            },
            NativeEvent::Window { raw_id, event } => {
                match dispatch_window_events(&mut self.world, event, raw_id) {
                    Ok(()) => Ok(ControlFlow::Wait),
                    Err(e) => Err(e),
                }
            },
            NativeEvent::RedrawRequested { raw_id } => {
                let i = match self.world.find_raw_id(raw_id) {
                    Some(i) => i,
                    None => {
                        return Err(RuntimeError::UnknownNativeWindow(raw_id));
                    },
                };
                let entity = self.world.entities[i].entity;
                proof {
                    crate::runtime::lemma_raw_id_index_unique(self.world@, i as int);
                }
                if !self.world.bus.can_post(EventKind::Repaint) {
                    return Err(RuntimeError::EventOverflow);
                }
                let ghost pre = self.world@;
                self.world.bus.post(RuntimeEvent::Repaint { entity });
                proof {
                    lemma_world_post_wf(pre, RuntimeEvent::Repaint { entity });
                    assert(self.world@ == (WorldModel {
                        bus: bus_post(pre.bus, RuntimeEvent::Repaint { entity }),
                        ..pre
                    }));
                }
                Ok(ControlFlow::Wait)
            },
            NativeEvent::MainEventsCleared => {
                match run_once(&self.schedule, &mut self.world) {
                    Ok(()) => Ok(self.world.control_flow),
                    Err(e) => Err(e),
                }
            },
            NativeEvent::LoopDestroyed => Ok(ControlFlow::Wait),
        }
    }
}

} // verus!
