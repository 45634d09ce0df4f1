//! The canvas store: identifier allocation, lookup, update, deletion,
//! snapshot and restore.

use netsketch::canvas::{Canvas, CanvasElement, CanvasEntry};

fn line(x: u16) -> CanvasElement {
    CanvasElement::Line { x1: x, y1: 0, x2: x, y2: 10, colour: [0, 0, 0, 255] }
}

#[test]
fn new_canvas_is_empty() {
    let c = Canvas::new();
    assert_eq!(c.entries.len(), 0);
    assert_eq!(c.current_action_id, 0);
    let d = Canvas::default();
    assert_eq!(d.entries.len(), 0);
    assert_eq!(d.current_action_id, 0);
}

#[test]
fn add_assigns_strictly_increasing_unique_ids() {
    let mut c = Canvas::new();
    let mut last: Option<usize> = None;
    for i in 0..10u16 {
        let e = c.add_action("alice".to_string(), &line(i));
        if let Some(prev) = last {
            assert!(e.id > prev);
        }
        last = Some(e.id);
    }
    let mut ids: Vec<usize> = c.entries.iter().map(|e| e.id).collect();
    let n = ids.len();
    ids.dedup();
    assert_eq!(ids.len(), n);
    assert_eq!(ids, (0..10).collect::<Vec<usize>>());
}

#[test]
fn add_returns_the_stored_entry() {
    let mut c = Canvas::new();
    let e = c.add_action("alice".to_string(), &line(3));
    assert_eq!(e.id, 0);
    assert!(e.shown);
    assert_eq!(e.author, "alice");
    assert_eq!(e.element, line(3));
    assert_eq!(c.entries[0], e);
    assert_eq!(c.current_action_id, 1);
}

#[test]
fn get_entry_finds_by_id() {
    let mut c = Canvas::new();
    c.add_action("alice".to_string(), &line(1));
    let e1 = c.add_action("bob".to_string(), &line(2));
    assert_eq!(c.get_entry(1), Some(&e1));
    assert_eq!(c.get_entry(5), None);
}

#[test]
fn update_preserves_author_and_position() {
    let mut c = Canvas::new();
    c.add_action("alice".to_string(), &line(1));
    c.add_action("bob".to_string(), &line(2));
    c.add_action("carol".to_string(), &line(3));
    let updated = c.update_entry(1, &line(9)).expect("entry 1 exists");
    assert_eq!(updated.id, 1);
    assert_eq!(updated.author, "bob");
    assert_eq!(updated.element, line(9));
    assert_eq!(c.entries[1], updated);
    assert_eq!(c.entries.len(), 3);
    assert_eq!(c.entries[0].author, "alice");
    assert_eq!(c.entries[2].author, "carol");
}

#[test]
fn update_missing_id_returns_none_and_changes_nothing() {
    let mut c = Canvas::new();
    c.add_action("alice".to_string(), &line(1));
    let before = c.entries.clone();
    assert_eq!(c.update_entry(7, &line(9)), None);
    assert_eq!(c.entries, before);
}

#[test]
fn delete_removes_only_that_id() {
    let mut c = Canvas::new();
    c.add_action("alice".to_string(), &line(1));
    c.add_action("bob".to_string(), &line(2));
    c.add_action("carol".to_string(), &line(3));
    c.delete_entry(1);
    let ids: Vec<usize> = c.entries.iter().map(|e| e.id).collect();
    assert_eq!(ids, vec![0, 2]);
    assert_eq!(c.current_action_id, 3);
}

#[test]
fn delete_twice_equals_delete_once() {
    let mut once = Canvas::new();
    once.add_action("alice".to_string(), &line(1));
    once.add_action("bob".to_string(), &line(2));
    let mut twice = Canvas::new();
    twice.add_action("alice".to_string(), &line(1));
    twice.add_action("bob".to_string(), &line(2));
    once.delete_entry(0);
    twice.delete_entry(0);
    twice.delete_entry(0);
    assert_eq!(once.entries, twice.entries);
    assert_eq!(once.current_action_id, twice.current_action_id);
}

#[test]
fn delete_absent_id_is_a_no_op() {
    let mut c = Canvas::new();
    c.add_action("alice".to_string(), &line(1));
    let before = c.entries.clone();
    c.delete_entry(42);
    assert_eq!(c.entries, before);
}

#[test]
fn overwrite_replaces_in_place() {
    let mut c = Canvas::new();
    c.add_action("alice".to_string(), &line(1));
    c.add_action("bob".to_string(), &line(2));
    let replacement = CanvasEntry {
        id: 0,
        shown: true,
        element: line(8),
        author: "alice".to_string(),
    };
    c.overwrite_entry(0, replacement.clone());
    assert_eq!(c.entries[0], replacement);
    assert_eq!(c.entries.len(), 2);
}

#[test]
fn snapshot_and_restore_bring_entries_back() {
    let mut c = Canvas::new();
    c.add_action("alice".to_string(), &line(1));
    c.add_action("bob".to_string(), &line(2));
    let snap = c.snapshot();
    c.delete_entry(0);
    c.add_action("carol".to_string(), &line(3));
    assert_eq!(c.current_action_id, 3);
    c.restore(snap);
    let ids: Vec<usize> = c.entries.iter().map(|e| e.id).collect();
    assert_eq!(ids, vec![0, 1]);
    // the counter is never rolled back, so identifiers are not reused
    assert_eq!(c.current_action_id, 3);
    let e = c.add_action("dave".to_string(), &line(4));
    assert_eq!(e.id, 3);
}

#[test]
fn describe_writes_the_expected_text() {
    let entry = CanvasEntry {
        id: 10,
        shown: true,
        element: CanvasElement::Line { x1: 0, y1: 0, x2: 10, y2: 10, colour: [255, 0, 0, 255] },
        author: "alice".to_string(),
    };
    assert_eq!(
        entry.describe(),
        "[10] by [alice], Line: (0, 0) -> (10, 10) in [255, 0, 0, 255]"
    );
    let circle = CanvasElement::Circle { x: 3, y: 4, radius: 5, colour: [0, 0, 0, 0] };
    assert_eq!(circle.describe(), "Circle: (3, 4) in [0, 0, 0, 0] - radius: 5");
    let rect = CanvasElement::Rect { x: 1, y: 2, width: 30, height: 40, colour: [9, 9, 9, 9] };
    assert_eq!(
        rect.describe(),
        "Rect: (1, 2) - width: 30, height: 40 in [9, 9, 9, 9]"
    );
    let text = CanvasElement::Text {
        x: 65535,
        y: 0,
        text: "hello".to_string(),
        colour: [1, 2, 3, 4],
    };
    assert_eq!(text.describe(), "Text: (65535, 0) - hello in [1, 2, 3, 4]");
}
