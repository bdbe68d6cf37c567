//! The event bus: frame-bounded visibility, cursors, and draining.

use window_runtime::events::{EventBus, EventKind, EventQueue, RuntimeEvent};

#[test]
fn event_visible_for_exactly_two_update_windows() {
    let mut q = EventQueue::new(EventKind::Shutdown);
    q.post(RuntimeEvent::Shutdown);

    // Visible in the tick it was posted.
    let (seen, _) = q.read_from(0);
    assert_eq!(seen.len(), 1);
    assert_eq!(seen[0], RuntimeEvent::Shutdown);

    // Still visible after one maintenance update.
    q.update();
    let (seen, _) = q.read_from(0);
    assert_eq!(seen.len(), 1);

    // Gone after the second.
    q.update();
    let (seen, _) = q.read_from(0);
    assert_eq!(seen.len(), 0);
}

#[test]
fn reader_cursor_skips_what_it_already_saw() {
    let mut q = EventQueue::new(EventKind::Repaint);
    q.post(RuntimeEvent::Repaint { entity: 1 });
    q.post(RuntimeEvent::Repaint { entity: 2 });

    let (seen, cursor) = q.read_from(0);
    assert_eq!(seen.len(), 2);

    // Nothing new past the cursor.
    let (seen, cursor) = q.read_from(cursor);
    assert_eq!(seen.len(), 0);

    // A later post is seen exactly once.
    q.post(RuntimeEvent::Repaint { entity: 3 });
    let (seen, _) = q.read_from(cursor);
    assert_eq!(seen.len(), 1);
    assert_eq!(seen[0], RuntimeEvent::Repaint { entity: 3 });
}

#[test]
fn drain_consumes_everything_at_once() {
    let mut q = EventQueue::new(EventKind::Destroy);
    q.post(RuntimeEvent::Destroy { entity: 7 });
    q.update();
    q.post(RuntimeEvent::Destroy { entity: 8 });

    let drained = q.drain();
    assert_eq!(
        drained,
        vec![RuntimeEvent::Destroy { entity: 7 }, RuntimeEvent::Destroy { entity: 8 }]
    );
    assert!(q.is_empty());
    let (seen, _) = q.read_from(0);
    assert_eq!(seen.len(), 0);
}

#[test]
fn fifo_order_within_one_kind() {
    let mut q = EventQueue::new(EventKind::CloseRequested);
    for e in 0..5u64 {
        q.post(RuntimeEvent::CloseRequested { entity: e });
    }
    let (seen, _) = q.read_from(0);
    let entities: Vec<u64> = seen
        .iter()
        .map(|e| match e {
            RuntimeEvent::CloseRequested { entity } => *entity,
            _ => unreachable!(),
        })
        .collect();
    assert_eq!(entities, vec![0, 1, 2, 3, 4]);
}

#[test]
fn bus_registers_a_queue_lazily_on_first_post() {
    let mut bus = EventBus::new();
    assert!(!bus.has_kind(EventKind::Repaint));
    assert!(!bus.kind_has_events(EventKind::Repaint));

    bus.post(RuntimeEvent::Repaint { entity: 4 });
    assert!(bus.has_kind(EventKind::Repaint));
    assert!(bus.kind_has_events(EventKind::Repaint));

    // Registration is idempotent per kind.
    let created = bus.register(EventKind::Repaint);
    assert!(!created);
    let created = bus.register(EventKind::Destroy);
    assert!(created);
}

#[test]
fn bus_keeps_kinds_apart() {
    let mut bus = EventBus::new();
    bus.post(RuntimeEvent::Repaint { entity: 1 });
    bus.post(RuntimeEvent::Destroy { entity: 2 });
    bus.post(RuntimeEvent::Repaint { entity: 3 });

    let repaints = bus.drain_kind(EventKind::Repaint);
    assert_eq!(
        repaints,
        vec![RuntimeEvent::Repaint { entity: 1 }, RuntimeEvent::Repaint { entity: 3 }]
    );
    assert!(bus.kind_has_events(EventKind::Destroy));
    assert!(!bus.kind_has_events(EventKind::Repaint));
}

#[test]
fn bus_update_expires_only_after_two_windows() {
    let mut bus = EventBus::new();
    bus.post(RuntimeEvent::Shutdown);
    bus.update_kind(EventKind::Shutdown);
    assert!(bus.kind_has_events(EventKind::Shutdown));
    bus.update_kind(EventKind::Shutdown);
    assert!(!bus.kind_has_events(EventKind::Shutdown));
}
