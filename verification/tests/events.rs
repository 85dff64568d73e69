use pop::events::{Event, EventKind, EventQueue};

fn site(face_id: usize) -> EventKind {
    EventKind::AddArc { face_id }
}

fn circle(arc_id: usize) -> EventKind {
    EventKind::RemoveArc { arc_id }
}

#[test]
fn events_come_out_by_descending_priority() {
    let mut queue = EventQueue::<f64>::new();
    assert_eq!(queue.push(100.0, site(0)), 0);
    assert_eq!(queue.push(900.0, site(1)), 1);
    assert_eq!(queue.push(500.0, circle(7)), 2);
    assert_eq!(queue.len(), 3);
    assert_eq!(queue.pop(), Some(Event { id: 1, priority: 900.0, kind: site(1) }));
    assert_eq!(queue.pop(), Some(Event { id: 2, priority: 500.0, kind: circle(7) }));
    assert_eq!(queue.len(), 1);
    assert_eq!(queue.pop(), Some(Event { id: 0, priority: 100.0, kind: site(0) }));
    assert_eq!(queue.pop(), None);
    assert_eq!(queue.len(), 0);
}

#[test]
fn equal_priorities_come_out_by_ascending_id() {
    let mut queue = EventQueue::<f64>::new();
    queue.push(5.0, site(0));
    queue.push(7.0, site(1));
    queue.push(7.0, site(2));
    queue.push(5.0, site(3));
    queue.push(7.0, site(4));
    let ids: Vec<usize> = std::iter::from_fn(|| queue.pop()).map(|e| e.id).collect();
    assert_eq!(ids, vec![1, 2, 4, 0, 3]);
}

#[test]
fn ids_count_every_event_ever_scheduled() {
    let mut queue = EventQueue::<f64>::new();
    assert_eq!(queue.push(1.0, site(0)), 0);
    assert_eq!(queue.pop().map(|e| e.id), Some(0));
    assert_eq!(queue.push(1.0, circle(0)), 1);
    assert_eq!(queue.push(2.0, circle(1)), 2);
    assert_eq!(queue.pop().map(|e| e.id), Some(2));
    assert_eq!(queue.push(0.5, circle(2)), 3);
    assert_eq!(queue.pop().map(|e| e.id), Some(1));
    assert_eq!(queue.pop().map(|e| e.id), Some(3));
    queue.clear();
    assert_eq!(queue.len(), 0);
    assert_eq!(queue.push(1.0, site(0)), 0);
}

#[test]
fn precedes_compares_priority_then_id() {
    let a = Event { id: 3, priority: 2.0, kind: site(0) };
    let b = Event { id: 1, priority: 1.0, kind: site(1) };
    let c = Event { id: 5, priority: 2.0, kind: circle(1) };
    assert!(a.precedes(&b));
    assert!(!b.precedes(&a));
    assert!(a.precedes(&c));
    assert!(!c.precedes(&a));
    assert!(!a.precedes(&a));
    // priorities that cannot be compared fall back on the id
    let n = Event { id: 0, priority: f64::NAN, kind: site(2) };
    assert!(n.precedes(&a));
    assert!(!a.precedes(&n));
}
