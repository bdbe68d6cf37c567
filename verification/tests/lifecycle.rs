//! End-to-end lifecycle scenarios: creation, resize, close, teardown.

use window_runtime::context::{ApplicationPlugin, EcsContext, WindowingPlugin};
use window_runtime::events::{EventKind, RuntimeEvent};
use window_runtime::renderer::WindowDrawTarget;
use window_runtime::runtime::{NativeEvent, NativeWindowEvent};
use window_runtime::window::{EventLoopTarget, MainWindow, Window, WindowContext, WindowId};
use window_runtime::world::{ControlFlow, RuntimeError};

/// A window that refuses every request to close.
struct StubbornWindow;

impl Window for StubbornWindow {
    fn on_create(&self, _ctx: &mut WindowContext) {}

    fn close_requested(&mut self, _ctx: &mut WindowContext) -> bool {
        false
    }

    fn on_destroyed(&mut self, _ctx: &mut WindowContext) {}
}

/// A window that counts close requests and refuses them all.
struct CountingWindow {
    close_requests_seen: u32,
}

impl Window for CountingWindow {
    fn on_create(&self, _ctx: &mut WindowContext) {}

    fn close_requested(&mut self, _ctx: &mut WindowContext) -> bool {
        self.close_requests_seen += 1;
        false
    }

    fn on_destroyed(&mut self, _ctx: &mut WindowContext) {}
}

/// A window that closes without asking for a process shutdown.
struct QuietWindow;

impl Window for QuietWindow {
    fn on_create(&self, _ctx: &mut WindowContext) {}

    fn close_requested(&mut self, _ctx: &mut WindowContext) -> bool {
        true
    }

    fn on_destroyed(&mut self, _ctx: &mut WindowContext) {}
}

fn runtime<W: Window>() -> EcsContext<(), W> {
    let mut ctx = EcsContext::new(
        (),
        EventLoopTarget { next_raw_id: 0, initial_width: 640, initial_height: 480 },
    );
    ctx.add_plugin::<ApplicationPlugin>();
    ctx.add_plugin::<WindowingPlugin>();
    ctx
}

#[test]
fn create_window_spawns_one_entity_with_surface_and_frame() {
    let mut ctx = runtime::<MainWindow>();
    let id = ctx.create_window(MainWindow).unwrap();
    assert_eq!(id, WindowId(0));

    ctx.tick().unwrap();

    assert_eq!(ctx.world.entities.len(), 1);
    let we = &ctx.world.entities[0];
    assert_eq!(we.bundle.id, id);
    assert_eq!(we.bundle.raw_id, 0);
    assert_eq!(we.bundle.os_window.title().as_str(), "My Super Cool Window");
    assert_eq!(we.bundle.os_window.get_draw_bounds(), (640, 480));

    // The surface system gave the new window a surface sized to its
    // initial bounds, and the present stage already showed it.
    let surface = we.surface.as_ref().unwrap();
    assert_eq!(surface.width(), 640);
    assert_eq!(surface.height(), 480);
    assert_eq!(we.surface_generation, 1);
    let (w, h, pixels) = we.bundle.os_window.presented_pixels().unwrap();
    assert_eq!((w, h), (640, 480));
    assert_eq!(pixels.len(), 640 * 480);
    assert!(pixels.iter().all(|&p| p == 0xFF00FFFF));
}

#[test]
fn creating_a_live_window_id_again_is_rejected() {
    let mut ctx = runtime::<MainWindow>();
    let id = ctx.create_window(MainWindow).unwrap();
    ctx.tick().unwrap();
    assert_eq!(ctx.world.entities.len(), 1);

    // Ask for the same identifier again while its window lives.
    ctx.world.pending_windows.push((id, MainWindow));
    ctx.post_event(RuntimeEvent::Create { window_id: id }).unwrap();
    let r = ctx.tick();
    assert_eq!(r, Err(RuntimeError::DuplicateWindowId(0)));

    // Nothing was overwritten: still exactly one window under that id.
    assert_eq!(ctx.world.entities.len(), 1);
    assert_eq!(ctx.world.entities[0].bundle.id, id);
}

#[test]
fn zero_area_resize_keeps_the_old_surface() {
    let mut ctx = runtime::<MainWindow>();
    ctx.create_window(MainWindow).unwrap();
    ctx.tick().unwrap();

    ctx.handle_native_event(NativeEvent::Window {
        raw_id: 0,
        event: NativeWindowEvent::Resized { width: 0, height: 0 },
    })
    .unwrap();
    ctx.handle_native_event(NativeEvent::MainEventsCleared).unwrap();

    let we = &ctx.world.entities[0];
    assert_eq!(we.surface_generation, 1);
    let surface = we.surface.as_ref().unwrap();
    assert_eq!((surface.width(), surface.height()), (640, 480));
}

#[test]
fn positive_resize_replaces_the_surface_and_schedules_one_repaint() {
    let mut ctx = runtime::<MainWindow>();
    ctx.create_window(MainWindow).unwrap();
    ctx.tick().unwrap();
    let entity = ctx.world.entities[0].entity;
    let (_, repaints_before) = ctx.world.bus.read_kind_from(EventKind::Repaint, 0);

    ctx.handle_native_event(NativeEvent::Window {
        raw_id: 0,
        event: NativeWindowEvent::Resized { width: 800, height: 600 },
    })
    .unwrap();
    ctx.handle_native_event(NativeEvent::MainEventsCleared).unwrap();

    let we = &ctx.world.entities[0];
    assert_eq!(we.surface_generation, 2);
    let surface = we.surface.as_ref().unwrap();
    assert_eq!((surface.width(), surface.height()), (800, 600));

    // Exactly one repaint was scheduled for the resized window.
    let (new_repaints, _) = ctx.world.bus.read_kind_from(EventKind::Repaint, repaints_before);
    assert_eq!(new_repaints, vec![RuntimeEvent::Repaint { entity }]);

    // And the present stage already blitted the new surface.
    let (w, h, _) = we.bundle.os_window.presented_pixels().unwrap();
    assert_eq!((w, h), (800, 600));
}

#[test]
fn refused_close_keeps_the_window_and_emits_no_destroy() {
    let mut ctx = runtime::<StubbornWindow>();
    ctx.create_window(StubbornWindow).unwrap();
    ctx.tick().unwrap();

    ctx.handle_native_event(NativeEvent::Window {
        raw_id: 0,
        event: NativeWindowEvent::CloseRequested,
    })
    .unwrap();
    let cf = ctx.handle_native_event(NativeEvent::MainEventsCleared).unwrap();

    assert!(!ctx.world.bus.kind_has_events(EventKind::Destroy));
    assert_eq!(ctx.world.entities.len(), 1);
    assert_eq!(cf, ControlFlow::Wait);

    // The window is still standing a tick later.
    ctx.handle_native_event(NativeEvent::MainEventsCleared).unwrap();
    assert_eq!(ctx.world.entities.len(), 1);
}

#[test]
fn a_close_request_is_processed_exactly_once() {
    let mut ctx = runtime::<CountingWindow>();
    ctx.create_window(CountingWindow { close_requests_seen: 0 }).unwrap();
    ctx.tick().unwrap();
    let entity = ctx.world.entities[0].entity;

    ctx.handle_native_event(NativeEvent::Window {
        raw_id: 0,
        event: NativeWindowEvent::CloseRequested,
    })
    .unwrap();
    ctx.handle_native_event(NativeEvent::MainEventsCleared).unwrap();

    // The event is still within its visibility window in the next tick,
    // but the system's cursor has moved past it: no second callback.
    ctx.handle_native_event(NativeEvent::MainEventsCleared).unwrap();
    ctx.handle_native_event(NativeEvent::MainEventsCleared).unwrap();
    assert_eq!(
        ctx.world.callbacks.get(entity).unwrap().0.close_requests_seen,
        1
    );

    // A later request reaches the behavior again.
    ctx.handle_native_event(NativeEvent::Window {
        raw_id: 0,
        event: NativeWindowEvent::CloseRequested,
    })
    .unwrap();
    ctx.handle_native_event(NativeEvent::MainEventsCleared).unwrap();
    assert_eq!(
        ctx.world.callbacks.get(entity).unwrap().0.close_requests_seen,
        2
    );
}

#[test]
fn granted_close_destroys_the_window() {
    let mut ctx = runtime::<QuietWindow>();
    ctx.create_window(QuietWindow).unwrap();
    ctx.tick().unwrap();
    assert_eq!(ctx.world.entities.len(), 1);

    ctx.handle_native_event(NativeEvent::Window {
        raw_id: 0,
        event: NativeWindowEvent::CloseRequested,
    })
    .unwrap();
    ctx.handle_native_event(NativeEvent::MainEventsCleared).unwrap();
    assert_eq!(ctx.world.entities.len(), 0);
}

#[test]
fn destroying_the_last_window_requests_exit_with_code_zero() {
    let mut ctx = runtime::<QuietWindow>();
    ctx.create_window(QuietWindow).unwrap();
    ctx.tick().unwrap();
    assert_eq!(ctx.world.control_flow, ControlFlow::Wait);

    ctx.handle_native_event(NativeEvent::Window {
        raw_id: 0,
        event: NativeWindowEvent::CloseRequested,
    })
    .unwrap();
    let cf = ctx.handle_native_event(NativeEvent::MainEventsCleared).unwrap();

    assert_eq!(ctx.world.entities.len(), 0);
    assert_eq!(cf, ControlFlow::ExitWithCode(0));
    assert_eq!(ctx.world.control_flow, ControlFlow::ExitWithCode(0));
}

#[test]
fn destroying_one_of_two_windows_keeps_the_loop_running() {
    let mut ctx = runtime::<QuietWindow>();
    ctx.create_window(QuietWindow).unwrap();
    ctx.create_window(QuietWindow).unwrap();
    ctx.tick().unwrap();
    assert_eq!(ctx.world.entities.len(), 2);

    ctx.handle_native_event(NativeEvent::Window {
        raw_id: 0,
        event: NativeWindowEvent::CloseRequested,
    })
    .unwrap();
    let cf = ctx.handle_native_event(NativeEvent::MainEventsCleared).unwrap();

    assert_eq!(ctx.world.entities.len(), 1);
    assert_eq!(cf, ControlFlow::Wait);
    assert_eq!(ctx.world.entities[0].bundle.id, WindowId(1));
}

#[test]
fn default_behavior_requests_shutdown_once_destroyed() {
    let mut ctx = runtime::<MainWindow>();
    ctx.create_window(MainWindow).unwrap();
    ctx.tick().unwrap();

    ctx.handle_native_event(NativeEvent::Window {
        raw_id: 0,
        event: NativeWindowEvent::CloseRequested,
    })
    .unwrap();
    let cf = ctx.handle_native_event(NativeEvent::MainEventsCleared).unwrap();
    assert_eq!(cf, ControlFlow::ExitWithCode(0));
}

#[test]
fn native_event_for_an_unknown_window_is_a_fault() {
    let mut ctx = runtime::<MainWindow>();
    ctx.create_window(MainWindow).unwrap();
    ctx.tick().unwrap();

    let r = ctx.handle_native_event(NativeEvent::Window {
        raw_id: 77,
        event: NativeWindowEvent::CloseRequested,
    });
    assert_eq!(r, Err(RuntimeError::UnknownNativeWindow(77)));
}

#[test]
fn create_without_a_registered_behavior_is_a_fault() {
    let mut ctx = runtime::<MainWindow>();
    ctx.post_event(RuntimeEvent::Create { window_id: WindowId(5) }).unwrap();
    assert_eq!(ctx.tick(), Err(RuntimeError::MissingWindowBehavior(5)));
}

#[test]
fn destroy_for_a_dead_entity_is_a_fault() {
    let mut ctx = runtime::<MainWindow>();
    ctx.post_event(RuntimeEvent::Destroy { entity: 99 }).unwrap();
    assert_eq!(ctx.tick(), Err(RuntimeError::MissingCallbacks(99)));
}

#[test]
fn resize_for_a_dead_entity_is_a_fault() {
    let mut ctx = runtime::<MainWindow>();
    ctx.post_event(RuntimeEvent::Resize { window_id: WindowId(9), entity: 99 }).unwrap();
    assert_eq!(ctx.tick(), Err(RuntimeError::MissingWindowEntity(99)));
}

#[test]
fn posted_shutdown_event_requests_exit() {
    let mut ctx = runtime::<MainWindow>();
    ctx.create_window(MainWindow).unwrap();
    ctx.tick().unwrap();
    assert_eq!(ctx.world.control_flow, ControlFlow::Wait);

    ctx.post_event(RuntimeEvent::Shutdown).unwrap();
    let cf = ctx.handle_native_event(NativeEvent::MainEventsCleared).unwrap();
    assert_eq!(cf, ControlFlow::ExitWithCode(0));
}

#[test]
fn redraw_request_presents_the_surface_again() {
    let mut ctx = runtime::<MainWindow>();
    ctx.create_window(MainWindow).unwrap();
    ctx.tick().unwrap();
    let entity = ctx.world.entities[0].entity;
    let (_, seen) = ctx.world.bus.read_kind_from(EventKind::Repaint, 0);

    ctx.handle_native_event(NativeEvent::RedrawRequested { raw_id: 0 }).unwrap();
    let (new_repaints, _) = ctx.world.bus.read_kind_from(EventKind::Repaint, seen);
    assert_eq!(new_repaints, vec![RuntimeEvent::Repaint { entity }]);

    ctx.handle_native_event(NativeEvent::MainEventsCleared).unwrap();
    assert!(ctx.world.entities[0].bundle.os_window.presented_pixels().is_some());
}
