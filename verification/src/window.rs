//! Window identity, the OS window model, window behaviors and their
//! per-entity manager.

use vstd::prelude::*;

use crate::renderer::{SurfaceModel, WindowDrawTarget};

verus! {

/// A stable, process-unique identifier for one window.
///
/// Identifiers are assigned monotonically by a [`WindowIdGenerator`] and
/// never reused while the process lives; no two live windows share one.
#[derive(Clone, Copy, PartialEq, Eq, Structural, Hash, Debug)]
pub struct WindowId(pub u32);

impl WindowId {
    /// Draws the next identifier from `generator`, advancing it so the
    /// same identifier is never issued twice by one generator.
    pub fn new(generator: &mut WindowIdGenerator) -> (id: WindowId)
        requires
            old(generator).next < u32::MAX,
        ensures
            id.0 == old(generator).next,
            final(generator).next == old(generator).next + 1,
    {
        let id = WindowId(generator.next);
        generator.next = generator.next + 1;
        id
    }
}

/// Issues window identifiers in strictly increasing order.
///
/// The runtime owns one generator for its whole life, so every identifier
/// it hands out is unique for the process lifetime.
pub struct WindowIdGenerator {
    pub next: u32,
}

impl WindowIdGenerator {
    pub fn new() -> (g: WindowIdGenerator)
        ensures
            g.next == 0,
    {
        WindowIdGenerator { next: 0 }
    }
}

/// The mathematical state of an OS window: its title, its drawable
/// bounds, and the frame it last accepted.
pub struct OsWindowModel {
    pub title: Seq<char>,
    pub width: u32,
    pub height: u32,
    pub presented: Option<SurfaceModel>,
}

/// The operating-system window owned by one window entity, seen through
/// what the runtime reads and writes of it: title, drawable bounds, and
/// the frame last blitted onto it.
pub struct OsWindow {
    title: String,
    width: u32,
    height: u32,
    presented_frame: Option<PresentedFrame>,
}

/// The pixel copy an OS window keeps of the frame last presented to it.
struct PresentedFrame {
    width: i32,
    height: i32,
    pixels: Vec<u32>,
}

impl View for OsWindow {
    type V = OsWindowModel;

    closed spec fn view(&self) -> OsWindowModel {
        OsWindowModel {
            title: self.title@,
            width: self.width,
            height: self.height,
            presented: match self.presented_frame {
                Some(ref f) => Some(
                    SurfaceModel {
                        width: f.width as int,
                        height: f.height as int,
                        pixels: f.pixels@,
                    },
                ),
                None => None,
            },
        }
    }
}

impl OsWindow {
    /// A freshly opened window: given title and bounds, nothing presented.
    pub fn open(title: &str, width: u32, height: u32) -> (w: OsWindow)
        ensures
            w@.title == title@,
            w@.width == width,
            w@.height == height,
            w@.presented.is_none(),
    {
        OsWindow { title: title.to_owned(), width, height, presented_frame: None }
    }

    /// Renames the window.
    pub fn set_title(&mut self, title: &str)
        ensures
            final(self)@ == (OsWindowModel { title: title@, ..old(self)@ }),
    {
        self.title = title.to_owned();
    }

    /// Records the bounds the operating system resized the window to.
    pub fn set_draw_bounds(&mut self, width: u32, height: u32)
        ensures
            final(self)@ == (OsWindowModel { width, height, ..old(self)@ }),
    {
        self.width = width;
        self.height = height;
    }

    /// The window's current title.
    pub fn title(&self) -> (t: &String)
        ensures
            t@ == self@.title,
    {
        &self.title
    }

    /// The frame the window last accepted, if any: its dimensions and a
    /// copy of its pixels.
    pub fn presented_pixels(&self) -> (r: Option<(i32, i32, &Vec<u32>)>)
        ensures
            match r {
                Some(f) => self@.presented == Some(
                    SurfaceModel { width: f.0 as int, height: f.1 as int, pixels: f.2@ },
                ),
                None => self@.presented.is_none(),
            },
    {
        match &self.presented_frame {
            Some(f) => Some((f.width, f.height, &f.pixels)),
            None => None,
        }
    }
}

/// Copies a pixel buffer, cell for cell.
fn copy_pixels(src: &Vec<u32>) -> (dst: Vec<u32>)
    ensures
        dst@ == src@,
{
    let mut dst: Vec<u32> = Vec::new();
    let n = src.len();
    let mut i: usize = 0;
    while i < n
        invariant
            i <= n,
            n == src.len(),
            dst@ == src@.take(i as int),
        decreases n - i,
    {
        proof {
            assert(src@.take(i as int + 1) =~= src@.take(i as int).push(src@[i as int]));
        }
        dst.push(src[i]);
        i = i + 1;
    }
    proof {
        assert(src@.take(n as int) =~= src@);
    }
    dst
}

impl WindowDrawTarget for OsWindow {
    open spec fn draw_bounds(&self) -> (u32, u32) {
        (self@.width, self@.height)
    }

    open spec fn presented(&self) -> Option<SurfaceModel> {
        self@.presented
    }

    open spec fn same_but_presented(&self, pre: OsWindow) -> bool {
        self@.title == pre@.title && self@.width == pre@.width && self@.height == pre@.height
    }

    fn get_draw_bounds(&self) -> (b: (u32, u32)) {
        (self.width, self.height)
    }

    fn accept_frame(&mut self, width: i32, height: i32, pixels: &Vec<u32>) -> (ok: bool) {
        self.presented_frame = Some(
            PresentedFrame { width, height, pixels: copy_pixels(pixels) },
        );
        true
    }
}

/// What a window behavior may ask of the runtime while one of its hooks
/// runs.  The requests are applied once the hook returns.
pub struct WindowContext {
    /// A new title for the window, if the behavior set one.
    pub title_change: Option<String>,
    /// Whether the behavior asked the event loop to shut down.
    pub shutdown_requested: bool,
}

impl WindowContext {
    /// A context with nothing requested yet.
    pub fn new() -> (ctx: WindowContext)
        ensures
            ctx.title_change.is_none(),
            !ctx.shutdown_requested,
    {
        WindowContext { title_change: None, shutdown_requested: false }
    }

    /// Asks the runtime to retitle the window this hook runs for.
    pub fn set_title_text(&mut self, title: &str)
        ensures
            (final(self).title_change matches Some(t) && t@ == title@),
            final(self).shutdown_requested == old(self).shutdown_requested,
    {
        self.title_change = Some(title.to_owned());
    }

    /// Asks the runtime to shut the event loop down.
    pub fn post_shutdown_message(&mut self)
        ensures
            final(self).shutdown_requested,
            final(self).title_change == old(self).title_change,
    {
        self.shutdown_requested = true;
    }
}

/// The behavior bound to one window for its whole life.
///
/// The runtime calls these hooks as the window's lifecycle advances; the
/// implementer answers through the context and, for a close request,
/// through the returned verdict.
pub trait Window: Sized {
    /// Called once, right after the OS window exists.
    fn on_create(&self, ctx: &mut WindowContext) {
    }

    /// Called when the user asks the window to close; `true` lets the
    /// close proceed, `false` keeps the window open.
    fn close_requested(&mut self, ctx: &mut WindowContext) -> bool {
        true
    }

    /// Called right before the window is torn down.
    fn on_destroyed(&mut self, ctx: &mut WindowContext) {
        ctx.post_shutdown_message();
    }
}

/// The window behavior the runtime opens when nothing else is asked of
/// it: it titles its window and lets the process end once the window is
/// gone.
#[derive(Default, Debug)]
pub struct MainWindow;

impl Window for MainWindow {
    fn on_create(&self, ctx: &mut WindowContext) {
        ctx.set_title_text("My Super Cool Window");
    }

    fn close_requested(&mut self, _ctx: &mut WindowContext) -> bool {
        true
    }

    fn on_destroyed(&mut self, ctx: &mut WindowContext) {
        ctx.post_shutdown_message();
    }
}

/// The runtime's handle onto the native event loop, seen through what
/// window allocation reads and writes of it: the next native identifier
/// it will stamp a window with, and the bounds new windows open at.
#[derive(Debug, Copy, Clone, PartialEq, Eq, Structural)]
pub struct EventLoopTarget {
    pub next_raw_id: u64,
    pub initial_width: u32,
    pub initial_height: u32,
}

/// Tags an entity as a window entity.
pub struct Marker;

/// The entity a window's root content hangs from; a placeholder until a
/// content tree exists.
#[derive(Debug, Copy, Clone, PartialEq, Eq, Structural)]
pub struct RootEntitiy(pub u64);

/// Everything a window entity owns the moment it is spawned: its stable
/// identifier, the OS window, the native identifier the OS knows the
/// window by, and its root content reference.
pub struct WindowBundle {
    pub marker: Marker,
    pub id: WindowId,
    pub os_window: OsWindow,
    pub raw_id: u64,
    pub root: RootEntitiy,
}

impl WindowBundle {
    /// Opens a new OS window under the given identifier.  The window
    /// opens untitled at the event loop's initial bounds and is stamped
    /// with a fresh native identifier; `None` only when the native
    /// identifier space is exhausted.
    pub fn new(id: WindowId, event_loop: &mut EventLoopTarget, root: u64) -> (r: Option<
        WindowBundle,
    >)
        ensures
            old(event_loop).next_raw_id == u64::MAX ==> r.is_none() && *final(event_loop) == *old(
                event_loop,
            ),
            old(event_loop).next_raw_id < u64::MAX ==> (match r {
                Some(b) => {
                    &&& b.id == id
                    &&& b.raw_id == old(event_loop).next_raw_id
                    &&& b.root == RootEntitiy(root)
                    &&& b.os_window@.title == "Untitled Window"@
                    &&& b.os_window@.width == old(event_loop).initial_width
                    &&& b.os_window@.height == old(event_loop).initial_height
                    &&& b.os_window@.presented.is_none()
                    &&& *final(event_loop) == (EventLoopTarget {
                        next_raw_id: (old(event_loop).next_raw_id + 1) as u64,
                        ..*old(event_loop)
                    })
                },
                None => false,
            }),
    {
        if event_loop.next_raw_id == u64::MAX {
            return None;
        }
        let raw_id = event_loop.next_raw_id;
        event_loop.next_raw_id = event_loop.next_raw_id + 1;
        let os_window = OsWindow::open(
            "Untitled Window",
            event_loop.initial_width,
            event_loop.initial_height,
        );
        Some(WindowBundle { marker: Marker, id, os_window, raw_id, root: RootEntitiy(root) })
    }
}

/// A window behavior as the manager stores it.
pub struct WindowCallbacks<W>(pub W);

/// Owns every live window's behavior object, keyed by the window's
/// entity; an entry lives exactly as long as its entity.
pub struct WindowCallbacksManager<W> {
    entries: Vec<(u64, WindowCallbacks<W>)>,
}

impl<W> View for WindowCallbacksManager<W> {
    type V = Seq<u64>;

    closed spec fn view(&self) -> Seq<u64> {
        Seq::new(self.entries@.len(), |i: int| self.entries@[i].0)
    }
}

impl<W> WindowCallbacksManager<W> {
    /// A manager with no entries.
    pub fn new() -> (m: WindowCallbacksManager<W>)
        ensures
            m@ == Seq::<u64>::empty(),
    {
        let m = WindowCallbacksManager { entries: Vec::new() };
        proof {
            assert(m@ =~= Seq::<u64>::empty());
        }
        m
    }

    /// Whether the entity has a behavior registered.
    pub fn contains(&self, entity: u64) -> (r: bool)
        ensures
            r == self@.contains(entity),
    {
        let n = self.entries.len();
        let mut i: usize = 0;
        while i < n
            invariant
                i <= n,
                n == self@.len(),
                n == self.entries@.len(),
                forall|j: int| 0 <= j < i ==> self@[j] != entity,
            decreases n - i,
        {
            if self.entries[i].0 == entity {
                proof {
                    assert(self@[i as int] == entity);
                }
                return true;
            }
            i = i + 1;
        }
        proof {
            assert(!self@.contains(entity));
        }
        false
    }

    /// Registers the entity's behavior.  An entity registers exactly
    /// once; registering it again while it lives is a runtime bug.
    pub fn insert(&mut self, entity: u64, callbacks: WindowCallbacks<W>)
        requires
            !old(self)@.contains(entity),
        ensures
            final(self)@ == old(self)@.push(entity),
    {
        self.entries.push((entity, callbacks));
        proof {
            assert(self@ =~= old(self)@.push(entity));
        }
    }

    /// Drops the entity's behavior, if it has one.
    pub fn remove(&mut self, entity: u64)
        ensures
            !old(self)@.contains(entity) ==> final(self)@ == old(self)@,
            old(self)@.contains(entity) ==> exists|i: int|
                0 <= i < old(self)@.len() && old(self)@[i] == entity && final(self)@ == old(
                self,
                )@.remove(i),
    {
        let n = self.entries.len();
        let mut i: usize = 0;
        while i < n
            invariant
                i <= n,
                n == self@.len(),
                n == self.entries@.len(),
                self@ == old(self)@,
                forall|j: int| 0 <= j < i ==> self@[j] != entity,
            decreases n - i,
        {
            if self.entries[i].0 == entity {
                proof {
                    assert(old(self)@[i as int] == entity);
                }
                self.entries.remove(i);
                proof {
                    assert(self@ =~= old(self)@.remove(i as int));
                }
                return ;
            }
            i = i + 1;
        }
        proof {
            assert(!self@.contains(entity));
        }
    }

    /// The entity's behavior, if it has one.
    pub fn get(&self, entity: u64) -> (r: Option<&WindowCallbacks<W>>)
        ensures
            r.is_some() == self@.contains(entity),
    {
        let n = self.entries.len();
        let mut i: usize = 0;
        while i < n
            invariant
                i <= n,
                n == self@.len(),
                n == self.entries@.len(),
                forall|j: int| 0 <= j < i ==> self@[j] != entity,
            decreases n - i,
        {
            if self.entries[i].0 == entity {
                proof {
                    assert(self@[i as int] == entity);
                }
                return Some(&self.entries[i].1);
            }
            i = i + 1;
        }
        proof {
            assert(!self@.contains(entity));
        }
        None
    }

    /// Exclusive access to the entity's behavior, so a lifecycle hook
    /// that mutates its own state can run.  The registered entities do
    /// not change, whatever the caller does through the reference.
    pub fn get_mut(&mut self, entity: u64) -> (r: &mut WindowCallbacks<W>)
        requires
            old(self)@.contains(entity),
        ensures
            final(self)@ == old(self)@,
    {
        let n = self.entries.len();
        let mut i: usize = 0;
        while i < n
            invariant
                i <= n,
                n == self@.len(),
                n == self.entries@.len(),
                self@ == old(self)@,
                self@.contains(entity),
                forall|j: int| 0 <= j < i ==> self@[j] != entity,
            decreases n - i,
        {
            if self.entries[i].0 == entity {
                let entry = &mut self.entries[i];
                return &mut entry.1;
            }
            i = i + 1;
        }
        proof {
            assert(!self@.contains(entity));
            assert(false);
        }
        unreached()
    }
}

} // verus!
