//! Identifiers, behavior bookkeeping, hook contexts and the pipeline.

use window_runtime::context::{
    add_system_to_stage, plain_unit, EcsContext, Shutdown, WindowingPlugin,
};
use window_runtime::events::RuntimeEvent;
use window_runtime::renderer::WindowDrawTarget;
use window_runtime::schedule::{CoreStages, Schedule, SystemId, Unit, UnitLabel};
use window_runtime::window::{
    EventLoopTarget, MainWindow, OsWindow, Window, WindowBundle, WindowCallbacks,
    WindowCallbacksManager, WindowContext, WindowId, WindowIdGenerator,
};

#[test]
fn window_ids_are_monotonic_and_never_repeat() {
    let mut generator = WindowIdGenerator::new();
    let a = WindowId::new(&mut generator);
    let b = WindowId::new(&mut generator);
    let c = WindowId::new(&mut generator);
    assert_eq!((a, b, c), (WindowId(0), WindowId(1), WindowId(2)));
}

#[test]
fn callbacks_manager_keys_by_entity() {
    let mut manager: WindowCallbacksManager<MainWindow> = WindowCallbacksManager::new();
    assert!(!manager.contains(3));
    assert!(manager.get(3).is_none());

    manager.insert(3, WindowCallbacks(MainWindow));
    manager.insert(5, WindowCallbacks(MainWindow));
    assert!(manager.contains(3));
    assert!(manager.contains(5));
    assert!(manager.get(5).is_some());

    // Exclusive access runs a hook that mutates its own state.
    let mut ctx = WindowContext::new();
    let verdict = manager.get_mut(5).0.close_requested(&mut ctx);
    assert!(verdict);

    manager.remove(3);
    assert!(!manager.contains(3));
    assert!(manager.contains(5));
    manager.remove(3);
    assert!(manager.contains(5));
}

#[test]
fn hook_context_collects_requests() {
    let mut ctx = WindowContext::new();
    assert!(ctx.title_change.is_none());
    assert!(!ctx.shutdown_requested);

    ctx.set_title_text("renamed");
    ctx.post_shutdown_message();
    assert_eq!(ctx.title_change.as_deref(), Some("renamed"));
    assert!(ctx.shutdown_requested);
}

#[test]
fn window_bundle_opens_untitled_at_initial_bounds() {
    let mut target = EventLoopTarget { next_raw_id: 10, initial_width: 300, initial_height: 200 };
    let bundle = WindowBundle::new(WindowId(4), &mut target, 0).unwrap();
    assert_eq!(bundle.id, WindowId(4));
    assert_eq!(bundle.raw_id, 10);
    assert_eq!(bundle.os_window.title().as_str(), "Untitled Window");
    assert_eq!(bundle.os_window.get_draw_bounds(), (300, 200));
    assert_eq!(target.next_raw_id, 11);

    let second = WindowBundle::new(WindowId(5), &mut target, 0).unwrap();
    assert_eq!(second.raw_id, 11);
}

#[test]
fn context_builds_the_eight_core_stages_in_order() {
    let ctx: EcsContext<(), MainWindow> = EcsContext::new(
        (),
        EventLoopTarget { next_raw_id: 0, initial_width: 1, initial_height: 1 },
    );
    let labels: Vec<CoreStages> = (0..ctx.schedule.stage_count())
        .map(|i| ctx.schedule.stage_label_at(i))
        .collect();
    assert_eq!(
        labels,
        vec![
            CoreStages::EventUpdate,
            CoreStages::PreUpdate,
            CoreStages::Update,
            CoreStages::PostUpdate,
            CoreStages::Layout,
            CoreStages::Render,
            CoreStages::Present,
            CoreStages::Last,
        ]
    );
    for i in 0..ctx.schedule.stage_count() {
        assert_eq!(ctx.schedule.unit_count_at(i), 0);
    }
}

#[test]
fn an_after_dependency_needs_an_earlier_label() {
    let mut schedule = Schedule::new();
    schedule.push_stage(CoreStages::PreUpdate);

    let follower = Unit {
        system: SystemId::WindowsCloseRequested,
        label: None,
        after: Some(UnitLabel::WindowLifecycle),
    };
    // Nothing carries the label yet: the unit is refused.
    assert!(!add_system_to_stage(&mut schedule, CoreStages::PreUpdate, follower));

    let leader = Unit {
        system: SystemId::CreateWindows,
        label: Some(UnitLabel::WindowLifecycle),
        after: None,
    };
    assert!(add_system_to_stage(&mut schedule, CoreStages::PreUpdate, leader));
    assert!(add_system_to_stage(&mut schedule, CoreStages::PreUpdate, follower));

    // Units run in registration order: creation before close handling.
    assert_eq!(schedule.unit_at(0, 0).system, SystemId::CreateWindows);
    assert_eq!(schedule.unit_at(0, 1).system, SystemId::WindowsCloseRequested);

    // A unit for a stage that does not exist is refused.
    assert!(!add_system_to_stage(
        &mut schedule,
        CoreStages::Render,
        plain_unit(SystemId::RepaintAndPresentWindows)
    ));
}

#[test]
fn windowing_plugin_orders_close_handling_after_creation() {
    let mut ctx: EcsContext<(), MainWindow> = EcsContext::new(
        (),
        EventLoopTarget { next_raw_id: 0, initial_width: 1, initial_height: 1 },
    );
    ctx.add_plugin::<WindowingPlugin>();

    // PreUpdate is stage 1: creation carries the lifecycle label, close
    // handling declares it runs after that label.
    let create = ctx.schedule.unit_at(1, 0);
    let close = ctx.schedule.unit_at(1, 1);
    assert_eq!(create.system, SystemId::CreateWindows);
    assert_eq!(create.label, Some(UnitLabel::WindowLifecycle));
    assert_eq!(close.system, SystemId::WindowsCloseRequested);
    assert_eq!(close.after, Some(UnitLabel::WindowLifecycle));
}

#[test]
fn shutdown_marker_carries_the_shutdown_event() {
    assert_eq!(Shutdown.event(), RuntimeEvent::Shutdown);
}

#[test]
fn os_window_model_holds_what_the_runtime_writes() {
    let w = OsWindow::open("plain", 5, 6);
    assert_eq!(w.title().as_str(), "plain");
    assert_eq!(w.get_draw_bounds(), (5, 6));
    assert!(w.presented_pixels().is_none());
}

#[test]
fn default_window_behavior_titles_its_window() {
    let mut ctx = WindowContext::new();
    MainWindow.on_create(&mut ctx);
    assert_eq!(ctx.title_change.as_deref(), Some("My Super Cool Window"));

    let mut ctx = WindowContext::new();
    let mut behavior = MainWindow;
    assert!(behavior.close_requested(&mut ctx));
    behavior.on_destroyed(&mut ctx);
    assert!(ctx.shutdown_requested);
}
