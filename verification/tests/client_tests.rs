//! The client's canvas mirror and its command handling.

use netsketch::canvas::{CanvasElement, CanvasEntry};
use netsketch::client_canvas::{
    CanvasCommand, ClientCanvas, CommandFeedback, Filter, Ownership, ToolType,
};

fn line_entry(id: usize, author: &str) -> CanvasEntry {
    CanvasEntry {
        id,
        shown: true,
        element: CanvasElement::Line { x1: 0, y1: 0, x2: 1, y2: 1, colour: [0, 0, 0, 255] },
        author: author.to_string(),
    }
}

fn text_entry(id: usize, author: &str) -> CanvasEntry {
    CanvasEntry {
        id,
        shown: true,
        element: CanvasElement::Text {
            x: 0,
            y: 0,
            text: "hi".to_string(),
            colour: [0, 0, 0, 255],
        },
        author: author.to_string(),
    }
}

#[test]
fn new_client_defaults() {
    let c = ClientCanvas::new("alice".to_string());
    assert_eq!(c.nickname, "alice");
    assert_eq!(c.selected_tool, ToolType::Line);
    assert_eq!(c.selected_colour, [0, 0, 0, 255]);
    assert!(!c.user_decided_to_exit);
    assert!(!c.show_exit_dialog);
    assert!(c.canvas.entries.is_empty());
}

#[test]
fn draw_and_delete_commands() {
    let mut c = ClientCanvas::new("alice".to_string());
    assert_eq!(
        c.process_command(CanvasCommand::Draw(line_entry(0, "bob"))),
        CommandFeedback::Done
    );
    assert_eq!(c.canvas.entries.len(), 1);
    assert_eq!(
        c.process_command(CanvasCommand::Delete(0)),
        CommandFeedback::Done
    );
    assert!(c.canvas.entries.is_empty());
}

#[test]
fn overwrite_missing_entry_is_reported() {
    let mut c = ClientCanvas::new("alice".to_string());
    assert_eq!(
        c.process_command(CanvasCommand::Overwrite(3, line_entry(3, "bob"))),
        CommandFeedback::MissingEntry(3)
    );
}

#[test]
fn overwrite_replaces_the_element() {
    let mut c = ClientCanvas::new("alice".to_string());
    c.process_command(CanvasCommand::Draw(line_entry(0, "bob")));
    let replacement = text_entry(0, "bob");
    assert_eq!(
        c.process_command(CanvasCommand::Overwrite(0, replacement.clone())),
        CommandFeedback::Done
    );
    assert_eq!(c.canvas.entries[0].element, replacement.element);
    assert_eq!(c.canvas.entries[0].author, "bob");
}

#[test]
fn list_filters_by_tool_and_ownership() {
    let mut c = ClientCanvas::new("alice".to_string());
    c.process_command(CanvasCommand::Draw(line_entry(0, "alice")));
    c.process_command(CanvasCommand::Draw(text_entry(1, "alice")));
    c.process_command(CanvasCommand::Draw(line_entry(2, "bob")));
    let all = Filter { tool_type: None, ownership: Ownership::All };
    match c.process_command(CanvasCommand::List(all)) {
        CommandFeedback::Listing(v) => assert_eq!(v.len(), 3),
        other => panic!("expected a listing, got {:?}", other),
    }
    let mine_lines = Filter { tool_type: Some(ToolType::Line), ownership: Ownership::Mine };
    match c.process_command(CanvasCommand::List(mine_lines)) {
        CommandFeedback::Listing(v) => {
            assert_eq!(v.len(), 1);
            assert_eq!(v[0].id, 0);
        },
        other => panic!("expected a listing, got {:?}", other),
    }
    let texts = Filter { tool_type: Some(ToolType::Text), ownership: Ownership::All };
    match c.process_command(CanvasCommand::List(texts)) {
        CommandFeedback::Listing(v) => {
            assert_eq!(v.len(), 1);
            assert_eq!(v[0].id, 1);
        },
        other => panic!("expected a listing, got {:?}", other),
    }
}

#[test]
fn show_mine_hides_the_others() {
    let mut c = ClientCanvas::new("alice".to_string());
    c.process_command(CanvasCommand::Draw(line_entry(0, "alice")));
    c.process_command(CanvasCommand::Draw(line_entry(1, "bob")));
    c.process_command(CanvasCommand::ShowMine);
    assert!(c.canvas.entries[0].shown);
    assert!(!c.canvas.entries[1].shown);
    c.process_command(CanvasCommand::ShowAll);
    assert!(c.canvas.entries[0].shown);
    assert!(c.canvas.entries[1].shown);
}

#[test]
fn tool_and_colour_selection() {
    let mut c = ClientCanvas::new("alice".to_string());
    c.process_command(CanvasCommand::ChangeTool(ToolType::Circle));
    assert_eq!(c.selected_tool, ToolType::Circle);
    c.process_command(CanvasCommand::ChangeColour([1, 2, 3, 4]));
    assert_eq!(c.selected_colour, [1, 2, 3, 4]);
}
