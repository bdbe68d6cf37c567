//! The entity/component store the runtime mutates: live window entities,
//! their behaviors, the event bus, and the shared control-flow state.

use vstd::prelude::*;

use crate::events::{bus_has, bus_queue, bus_wf, EventBus, EventKind, QueueModel};
use crate::renderer::{Surface, SurfaceModel};
use crate::window::{
    EventLoopTarget, OsWindowModel, WindowBundle, WindowCallbacksManager, WindowId,
    WindowIdGenerator,
};

verus! {

/// What the native pump is told to do once a tick ends.
#[derive(Debug, Copy, Clone, PartialEq, Eq, Structural)]
pub enum ControlFlow {
    /// Sleep until the next native event.
    Wait,
    /// Leave the loop.
    Exit,
    /// Leave the loop and exit the process with this status code.
    ExitWithCode(i32),
}

/// A fatal fault of the runtime: an invariant of the lifecycle machine
/// does not hold, or a resource the machine needs cannot be had.  The
/// runtime surfaces these to the caller instead of aborting the process.
#[derive(Debug, Copy, Clone, PartialEq, Eq, Structural)]
pub enum RuntimeError {
    /// A `Create` named a window identifier that is already live.
    DuplicateWindowId(u32),
    /// A `Create` named an identifier no registered behavior waits for.
    MissingWindowBehavior(u32),
    /// The native side cannot open another window.
    WindowAllocationFailed(u32),
    /// A native event named a handle no live window carries.
    UnknownNativeWindow(u64),
    /// A lifecycle event named an entity without a registered behavior.
    MissingCallbacks(u64),
    /// A lifecycle event named an entity that carries no window.
    MissingWindowEntity(u64),
    /// The rasterizer cannot allocate a surface for this entity's window.
    SurfaceAllocationFailed(u64),
    /// Presenting this entity's surface onto its window failed.
    PresentationFailed(u64),
    /// An event queue reached the machine's position limit.
    EventOverflow,
    /// Every window identifier has been issued.
    WindowIdsExhausted,
}

/// The read cursors of the systems that read events without consuming
/// them: how many events of their queue each has already seen.
#[derive(Debug, Copy, Clone, PartialEq, Eq, Structural)]
pub struct ReaderCursors {
    pub close_requested: u64,
    pub destroy: u64,
    pub resize: u64,
    pub repaint: u64,
}

/// The mathematical state of one live window entity.
pub struct WindowEntityModel {
    pub entity: u64,
    pub id: u32,
    pub raw_id: u64,
    pub root: u64,
    pub os_window: OsWindowModel,
    pub surface: Option<SurfaceModel>,
    /// Counts how often the surface has been replaced: two different
    /// surface objects of this window never share a generation.
    pub surface_generation: u64,
}

/// One live window: an entity identifier and the components it carries.
pub struct WindowEntity {
    pub entity: u64,
    pub bundle: WindowBundle,
    pub surface: Option<Surface>,
    pub surface_generation: u64,
}

impl View for WindowEntity {
    type V = WindowEntityModel;

    open spec fn view(&self) -> WindowEntityModel {
        WindowEntityModel {
            entity: self.entity,
            id: self.bundle.id.0,
            raw_id: self.bundle.raw_id,
            root: self.bundle.root.0,
            os_window: self.bundle.os_window@,
            surface: match self.surface {
                Some(ref s) => Some(s@),
                None => None,
            },
            surface_generation: self.surface_generation,
        }
    }
}

/// The mathematical state of the whole store.
pub struct WorldModel {
    pub entities: Seq<WindowEntityModel>,
    pub callback_keys: Seq<u64>,
    /// The identifiers whose `Create` is posted but not yet processed,
    /// each with a registered behavior waiting.
    pub pending: Seq<u32>,
    pub bus: Seq<QueueModel>,
    pub control_flow: ControlFlow,
    pub next_window_id: u32,
    pub next_entity: u64,
    /// Entities spawned since the surface system last ran.
    pub fresh: Seq<u64>,
    pub cursors: ReaderCursors,
    pub target: EventLoopTarget,
}

/// One reader cursor is sound for its queue: it does not point past what
/// the queue ever accepted, and is zero while the queue does not exist.
pub open spec fn cursor_wf(bus: Seq<QueueModel>, kind: EventKind, cursor: u64) -> bool {
    if bus_has(bus, kind) {
        cursor <= bus_queue(bus, kind).total
    } else {
        cursor == 0
    }
}

impl WorldModel {
    /// Whether some live window carries this window identifier.
    pub open spec fn has_window_id(self, id: u32) -> bool {
        exists|i: int| 0 <= i < self.entities.len() && (#[trigger] self.entities[i]).id == id
    }

    /// Whether some live window carries this entity identifier.
    pub open spec fn has_entity(self, entity: u64) -> bool {
        exists|i: int|
            0 <= i < self.entities.len() && (#[trigger] self.entities[i]).entity == entity
    }

    /// Whether some live window carries this native identifier.
    pub open spec fn has_raw_id(self, raw_id: u64) -> bool {
        exists|i: int|
            0 <= i < self.entities.len() && (#[trigger] self.entities[i]).raw_id == raw_id
    }

    /// The position of the entity's window among the live windows.
    pub open spec fn entity_index(self, entity: u64) -> int {
        choose|i: int|
            0 <= i < self.entities.len() && (#[trigger] self.entities[i]).entity == entity
    }

    /// The position of the window the OS knows by this native identifier.
    pub open spec fn raw_id_index(self, raw_id: u64) -> int {
        choose|i: int|
            0 <= i < self.entities.len() && (#[trigger] self.entities[i]).raw_id == raw_id
    }

    /// The store's governing invariant.
    ///
    /// Live windows are pairwise distinct in entity identifier, window
    /// identifier and native identifier; identifiers stay below their
    /// generators, so none is ever reissued; the behavior manager holds
    /// exactly the live entities, in spawn order; every surface is well
    /// formed; the bus is well formed and every reader cursor is sound.
    pub open spec fn wf(self) -> bool {
        &&& bus_wf(self.bus)
        &&& forall|i: int, j: int|
            0 <= i < self.entities.len() && 0 <= j < self.entities.len() && i != j ==> (
            #[trigger] self.entities[i]).entity != (#[trigger] self.entities[j]).entity
        &&& forall|i: int, j: int|
            0 <= i < self.entities.len() && 0 <= j < self.entities.len() && i != j ==> (
            #[trigger] self.entities[i]).id != (#[trigger] self.entities[j]).id
        &&& forall|i: int, j: int|
            0 <= i < self.entities.len() && 0 <= j < self.entities.len() && i != j ==> (
            #[trigger] self.entities[i]).raw_id != (#[trigger] self.entities[j]).raw_id
        &&& forall|i: int|
            0 <= i < self.entities.len() ==> (#[trigger] self.entities[i]).entity
                < self.next_entity
        &&& forall|i: int|
            0 <= i < self.entities.len() ==> (#[trigger] self.entities[i]).id
                < self.next_window_id
        &&& forall|i: int|
            0 <= i < self.entities.len() ==> (#[trigger] self.entities[i]).raw_id
                < self.target.next_raw_id
        &&& self.callback_keys == self.entities.map_values(|e: WindowEntityModel| e.entity)
        &&& forall|i: int|
            0 <= i < self.pending.len() ==> (#[trigger] self.pending[i]) < self.next_window_id
        &&& forall|i: int|
            0 <= i < self.entities.len() ==> match (#[trigger] self.entities[i]).surface {
                Some(s) => s.wf(),
                None => true,
            }
        &&& cursor_wf(self.bus, EventKind::CloseRequested, self.cursors.close_requested)
        &&& cursor_wf(self.bus, EventKind::Destroy, self.cursors.destroy)
        &&& cursor_wf(self.bus, EventKind::Resize, self.cursors.resize)
        &&& cursor_wf(self.bus, EventKind::Repaint, self.cursors.repaint)
    }
}

/// The entity/component store: every live window with its components,
/// the behaviors, the pending window behaviors, the event bus, and the
/// process-wide control-flow state.
pub struct World<W> {
    pub entities: Vec<WindowEntity>,
    pub callbacks: WindowCallbacksManager<W>,
    pub pending_windows: Vec<(WindowId, W)>,
    pub bus: EventBus,
    pub control_flow: ControlFlow,
    pub id_generator: WindowIdGenerator,
    pub next_entity: u64,
    pub fresh_windows: Vec<u64>,
    pub cursors: ReaderCursors,
    pub target: EventLoopTarget,
}

impl<W> View for World<W> {
    type V = WorldModel;

    open spec fn view(&self) -> WorldModel {
        WorldModel {
            entities: Seq::new(self.entities@.len(), |i: int| self.entities@[i]@),
            callback_keys: self.callbacks@,
            pending: Seq::new(self.pending_windows@.len(), |i: int| self.pending_windows@[i].0.0),
            bus: self.bus@,
            control_flow: self.control_flow,
            next_window_id: self.id_generator.next,
            next_entity: self.next_entity,
            fresh: self.fresh_windows@,
            cursors: self.cursors,
            target: self.target,
        }
    }
}

/// The state a store starts from: nothing live, nothing posted, the
/// control flow at rest.
pub open spec fn initial_world_model(target: EventLoopTarget) -> WorldModel {
    WorldModel {
        entities: Seq::empty(),
        callback_keys: Seq::empty(),
        pending: Seq::empty(),
        bus: Seq::empty(),
        control_flow: ControlFlow::Wait,
        next_window_id: 0,
        next_entity: 0,
        fresh: Seq::empty(),
        cursors: ReaderCursors { close_requested: 0, destroy: 0, resize: 0, repaint: 0 },
        target,
    }
}

impl<W> World<W> {
    /// An empty store driving the given event loop target.
    pub fn new(target: EventLoopTarget) -> (w: World<W>)
        ensures
            w@ == initial_world_model(target),
            w@.wf(),
    {
        let w = World {
            entities: Vec::new(),
            callbacks: WindowCallbacksManager::new(),
            pending_windows: Vec::new(),
            bus: EventBus::new(),
            control_flow: ControlFlow::Wait,
            id_generator: WindowIdGenerator::new(),
            next_entity: 0,
            fresh_windows: Vec::new(),
            cursors: ReaderCursors { close_requested: 0, destroy: 0, resize: 0, repaint: 0 },
            target,
        };
        proof {
            assert(w@.entities =~= Seq::<WindowEntityModel>::empty());
            assert(w@.pending =~= Seq::<u32>::empty());
            assert(w@.callback_keys =~= w@.entities.map_values(|e: WindowEntityModel| e.entity));
            assert(w@ == initial_world_model(target));
        }
        w
    }

    /// Where the entity's window sits among the live windows.
    pub fn find_entity(&self, entity: u64) -> (r: Option<usize>)
        ensures
            match r {
                Some(i) => i < self@.entities.len() && self@.entities[i as int].entity == entity
                    && self@.has_entity(entity),
                None => !self@.has_entity(entity),
            },
    {
        let n = self.entities.len();
        let mut i: usize = 0;
        while i < n
            invariant
                i <= n,
                n == self.entities@.len(),
                n == self@.entities.len(),
                forall|j: int| 0 <= j < i ==> (#[trigger] self@.entities[j]).entity != entity,
            decreases n - i,
        {
            if self.entities[i].entity == entity {
                proof {
                    assert(self@.entities[i as int].entity == entity);
                }
                return Some(i);
            }
            i = i + 1;
        }
        None
    }

    /// Where the window with this identifier sits among the live windows.
    pub fn find_window_id(&self, id: WindowId) -> (r: Option<usize>)
        ensures
            match r {
                Some(i) => i < self@.entities.len() && self@.entities[i as int].id == id.0
                    && self@.has_window_id(id.0),
                None => !self@.has_window_id(id.0),
            },
    {
        let n = self.entities.len();
        let mut i: usize = 0;
        while i < n
            invariant
                i <= n,
                n == self.entities@.len(),
                n == self@.entities.len(),
                forall|j: int| 0 <= j < i ==> (#[trigger] self@.entities[j]).id != id.0,
            decreases n - i,
        {
            if self.entities[i].bundle.id.0 == id.0 {
                proof {
                    assert(self@.entities[i as int].id == id.0);
                }
                return Some(i);
            }
            i = i + 1;
        }
        None
    }

    /// Where the window the OS knows by this native identifier sits.
    pub fn find_raw_id(&self, raw_id: u64) -> (r: Option<usize>)
        ensures
            match r {
                Some(i) => i < self@.entities.len() && self@.entities[i as int].raw_id == raw_id
                    && self@.has_raw_id(raw_id),
                None => !self@.has_raw_id(raw_id),
            },
    {
        let n = self.entities.len();
        let mut i: usize = 0;
        while i < n
            invariant
                i <= n,
                n == self.entities@.len(),
                n == self@.entities.len(),
                forall|j: int| 0 <= j < i ==> (#[trigger] self@.entities[j]).raw_id != raw_id,
            decreases n - i,
        {
            if self.entities[i].bundle.raw_id == raw_id {
                proof {
                    assert(self@.entities[i as int].raw_id == raw_id);
                }
                return Some(i);
            }
            i = i + 1;
        }
        None
    }

    /// Takes the behavior waiting for this identifier out of the pending
    /// list, if one does.
    pub fn take_pending(&mut self, id: WindowId) -> (r: Option<W>)
        ensures
            final(self)@.entities == old(self)@.entities,
            final(self)@.callback_keys == old(self)@.callback_keys,
            final(self)@.bus == old(self)@.bus,
            final(self)@.control_flow == old(self)@.control_flow,
            final(self)@.next_window_id == old(self)@.next_window_id,
            final(self)@.next_entity == old(self)@.next_entity,
            final(self)@.fresh == old(self)@.fresh,
            final(self)@.cursors == old(self)@.cursors,
            final(self)@.target == old(self)@.target,
            match r {
                Some(_) => old(self)@.pending.contains(id.0) && exists|i: int|
                    0 <= i < old(self)@.pending.len() && old(self)@.pending[i] == id.0
                        && (forall|j: int| 0 <= j < i ==> old(self)@.pending[j] != id.0)
                        && final(self)@.pending == old(self)@.pending.remove(i),
                None => !old(self)@.pending.contains(id.0)
                    && final(self)@.pending == old(self)@.pending,
            },
    {
        let n = self.pending_windows.len();
        let mut i: usize = 0;
        while i < n
            invariant
                i <= n,
                *self == *old(self),
                n == self.pending_windows@.len(),
                forall|j: int| 0 <= j < i ==> (#[trigger] self@.pending[j]) != id.0,
            decreases n - i,
        {
            if self.pending_windows[i].0.0 == id.0 {
                proof {
                    assert(self@.pending[i as int] == id.0);
                }
                let (_, behavior) = self.pending_windows.remove(i);
                proof {
                    assert(self@.pending =~= old(self)@.pending.remove(i as int));
                }
                return Some(behavior);
            }
            i = i + 1;
        }
        proof {
            assert(forall|j: int|
                0 <= j < self@.pending.len() ==> (#[trigger] self@.pending[j]) != id.0);
        }
        None
    }
}

} // verus!
