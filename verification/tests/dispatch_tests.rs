//! The dispatcher: sessions, broadcasts, undo, clear, and the reconnect
//! freshness window, driven through `handle_packet` as the network layer
//! would.

use netsketch::canvas::{CanvasElement, CanvasEntry};
use netsketch::dispatcher::Outgoing;
use netsketch::errors::ServerError;
use netsketch::packets::TcpPacket;
use netsketch::server_state::ServerState;

fn line(x: u16) -> CanvasElement {
    CanvasElement::Line { x1: x, y1: 0, x2: x, y2: 10, colour: [0, 0, 0, 255] }
}

fn red_line() -> CanvasElement {
    CanvasElement::Line { x1: 0, y1: 0, x2: 10, y2: 10, colour: [255, 0, 0, 255] }
}

fn connect(state: &mut ServerState, conn: u64, name: &str, now: u64) {
    let outcome = state.handle_packet(conn, TcpPacket::Connect(name.to_string()), now);
    assert!(outcome.error.is_none(), "connect of {name} must succeed");
    assert!(!outcome.disconnect);
}

fn targets_of(outputs: &[Outgoing]) -> Vec<u64> {
    outputs.iter().map(|o| o.target).collect()
}

#[test]
fn connect_loads_canvas_and_notifies_others() {
    let mut state = ServerState::new();
    connect(&mut state, 1, "alice", 0);
    let outcome = state.handle_packet(2, TcpPacket::Connect("bob".to_string()), 0);
    assert!(outcome.error.is_none());
    // one notification to alice, then the canvas to bob
    assert_eq!(targets_of(&outcome.outputs), vec![1, 2]);
    assert_eq!(outcome.outputs[0].packet, TcpPacket::Notification("[+] bob".to_string()));
    assert_eq!(outcome.outputs[1].packet, TcpPacket::LoadCanvas(vec![]));
}

#[test]
fn second_connect_under_same_nickname_is_rejected() {
    let mut state = ServerState::new();
    connect(&mut state, 1, "alice", 0);
    let outcome = state.handle_packet(2, TcpPacket::Connect("alice".to_string()), 0);
    assert_eq!(
        outcome.error,
        Some(ServerError::UsernameTaken("alice".to_string()))
    );
    assert!(outcome.disconnect);
    // the loser is told, and told alone
    assert_eq!(targets_of(&outcome.outputs), vec![2]);
    assert_eq!(
        outcome.outputs[0].packet,
        TcpPacket::Notification("Username alice is already taken".to_string())
    );
    // and never appears in the registry
    assert!(state.get_username(2).is_none());
    assert_eq!(state.get_username(1), Some(&"alice".to_string()));
}

#[test]
fn request_before_connect_is_rejected() {
    let mut state = ServerState::new();
    let outcome = state.handle_packet(1, TcpPacket::DrawRequest(line(1)), 0);
    assert_eq!(outcome.error, Some(ServerError::UserNotFound));
    assert!(outcome.disconnect);
    assert!(outcome.outputs.is_empty());
    assert_eq!(state.canvas.entries.len(), 0);
}

#[test]
fn draw_and_undo_reach_every_client() {
    // Client A connects and draws; client B must see the entry, then its
    // deletion when A undoes.
    let mut state = ServerState::new();
    connect(&mut state, 1, "A", 0);
    connect(&mut state, 2, "B", 0);
    let outcome = state.handle_packet(1, TcpPacket::DrawRequest(red_line()), 0);
    assert!(outcome.error.is_none());
    assert_eq!(targets_of(&outcome.outputs), vec![1, 2]);
    let expected = CanvasEntry {
        id: 0,
        shown: true,
        element: red_line(),
        author: "A".to_string(),
    };
    for o in &outcome.outputs {
        assert_eq!(o.packet, TcpPacket::DrawResponse(expected.clone()));
    }
    let outcome = state.handle_packet(1, TcpPacket::Undo, 0);
    assert_eq!(targets_of(&outcome.outputs), vec![1, 2]);
    for o in &outcome.outputs {
        assert_eq!(o.packet, TcpPacket::Delete(0));
    }
    assert_eq!(state.canvas.entries.len(), 0);
}

#[test]
fn clear_only_owned_lists_exactly_the_requesters_entries() {
    // bob authored 2 of 5 entries; his owned-only clear must name exactly
    // those 2, and the store must shed them.
    let mut state = ServerState::new();
    connect(&mut state, 1, "alice", 0);
    connect(&mut state, 2, "bob", 0);
    state.handle_packet(1, TcpPacket::DrawRequest(line(0)), 0);
    state.handle_packet(2, TcpPacket::DrawRequest(line(1)), 0);
    state.handle_packet(1, TcpPacket::DrawRequest(line(2)), 0);
    state.handle_packet(2, TcpPacket::DrawRequest(line(3)), 0);
    state.handle_packet(1, TcpPacket::DrawRequest(line(4)), 0);
    let outcome = state.handle_packet(2, TcpPacket::ClearRequest { only_owned: true }, 0);
    assert_eq!(targets_of(&outcome.outputs), vec![1, 2]);
    for o in &outcome.outputs {
        assert_eq!(o.packet, TcpPacket::ClearResponse { ids_to_delete: vec![1, 3] });
    }
    let left: Vec<usize> = state.canvas.entries.iter().map(|e| e.id).collect();
    assert_eq!(left, vec![0, 2, 4]);
}

#[test]
fn clear_all_prunes_the_whole_store() {
    let mut state = ServerState::new();
    connect(&mut state, 1, "alice", 0);
    state.handle_packet(1, TcpPacket::DrawRequest(line(0)), 0);
    state.handle_packet(1, TcpPacket::DrawRequest(line(1)), 0);
    let outcome = state.handle_packet(1, TcpPacket::ClearRequest { only_owned: false }, 0);
    assert_eq!(
        outcome.outputs[0].packet,
        TcpPacket::ClearResponse { ids_to_delete: vec![0, 1] }
    );
    assert!(state.canvas.entries.is_empty());
}

#[test]
fn undo_clear_restores_the_canvas() {
    let mut state = ServerState::new();
    connect(&mut state, 1, "alice", 0);
    state.handle_packet(1, TcpPacket::DrawRequest(line(0)), 0);
    state.handle_packet(1, TcpPacket::DrawRequest(line(1)), 0);
    state.handle_packet(1, TcpPacket::ClearRequest { only_owned: false }, 0);
    assert!(state.canvas.entries.is_empty());
    let outcome = state.handle_packet(1, TcpPacket::Undo, 0);
    assert_eq!(state.canvas.entries.len(), 2);
    match &outcome.outputs[0].packet {
        TcpPacket::LoadCanvas(entries) => assert_eq!(entries.len(), 2),
        other => panic!("expected a bulk load, got {:?}", other),
    }
    // identifiers keep growing after the restore
    let outcome = state.handle_packet(1, TcpPacket::DrawRequest(line(2)), 0);
    match &outcome.outputs[0].packet {
        TcpPacket::DrawResponse(e) => assert_eq!(e.id, 2),
        other => panic!("expected a draw response, got {:?}", other),
    }
}

#[test]
fn undo_delete_restores_the_entry_at_the_end() {
    let mut state = ServerState::new();
    connect(&mut state, 1, "alice", 0);
    state.handle_packet(1, TcpPacket::DrawRequest(line(0)), 0);
    state.handle_packet(1, TcpPacket::DrawRequest(line(1)), 0);
    let deleted = state.canvas.get_entry(0).unwrap().clone();
    state.handle_packet(1, TcpPacket::Delete(0), 0);
    let ids: Vec<usize> = state.canvas.entries.iter().map(|e| e.id).collect();
    assert_eq!(ids, vec![1]);
    let outcome = state.handle_packet(1, TcpPacket::Undo, 0);
    assert_eq!(outcome.outputs[0].packet, TcpPacket::DrawResponse(deleted.clone()));
    // id and content preserved, position now at the end
    let ids: Vec<usize> = state.canvas.entries.iter().map(|e| e.id).collect();
    assert_eq!(ids, vec![1, 0]);
    assert_eq!(state.canvas.entries[1], deleted);
}

#[test]
fn undo_update_restores_and_broadcasts() {
    let mut state = ServerState::new();
    connect(&mut state, 1, "alice", 0);
    connect(&mut state, 2, "bob", 0);
    state.handle_packet(1, TcpPacket::DrawRequest(line(0)), 0);
    state.handle_packet(1, TcpPacket::UpdateRequest(0, line(9)), 0);
    assert_eq!(state.canvas.get_entry(0).unwrap().element, line(9));
    let outcome = state.handle_packet(1, TcpPacket::Undo, 0);
    assert_eq!(state.canvas.get_entry(0).unwrap().element, line(0));
    // the restoration reaches every session, bob included
    assert_eq!(targets_of(&outcome.outputs), vec![1, 2]);
    for o in &outcome.outputs {
        match &o.packet {
            TcpPacket::UpdateResponse(id, entry) => {
                assert_eq!(*id, 0);
                assert_eq!(entry.element, line(0));
            },
            other => panic!("expected an update response, got {:?}", other),
        }
    }
}

#[test]
fn undo_with_empty_history_does_nothing() {
    let mut state = ServerState::new();
    connect(&mut state, 1, "alice", 0);
    let outcome = state.handle_packet(1, TcpPacket::Undo, 0);
    assert!(outcome.outputs.is_empty());
    assert!(outcome.error.is_none());
    assert!(!outcome.disconnect);
}

#[test]
fn update_of_missing_entry_notifies_requester_only() {
    let mut state = ServerState::new();
    connect(&mut state, 1, "alice", 0);
    connect(&mut state, 2, "bob", 0);
    let outcome = state.handle_packet(1, TcpPacket::UpdateRequest(7, line(9)), 0);
    assert_eq!(targets_of(&outcome.outputs), vec![1]);
    assert_eq!(
        outcome.outputs[0].packet,
        TcpPacket::Notification("Entry with id 7 does not exist".to_string())
    );
    assert!(outcome.error.is_none());
}

#[test]
fn delete_of_missing_entry_is_silent() {
    let mut state = ServerState::new();
    connect(&mut state, 1, "alice", 0);
    let outcome = state.handle_packet(1, TcpPacket::Delete(7), 0);
    assert!(outcome.outputs.is_empty());
    assert!(outcome.error.is_none());
}

#[test]
fn update_broadcast_carries_the_new_entry() {
    let mut state = ServerState::new();
    connect(&mut state, 1, "alice", 0);
    state.handle_packet(1, TcpPacket::DrawRequest(line(0)), 0);
    let outcome = state.handle_packet(1, TcpPacket::UpdateRequest(0, line(5)), 0);
    match &outcome.outputs[0].packet {
        TcpPacket::UpdateResponse(0, entry) => {
            assert_eq!(entry.element, line(5));
            assert_eq!(entry.author, "alice");
        },
        other => panic!("expected an update response, got {:?}", other),
    }
}

#[test]
fn disconnect_frees_the_nickname_at_once() {
    let mut state = ServerState::new();
    connect(&mut state, 1, "alice", 0);
    let outcome = state.handle_packet(1, TcpPacket::Disconnect, 10);
    assert!(outcome.disconnect);
    assert!(outcome.outputs.is_empty());
    assert!(state.get_username(1).is_none());
    // the nickname is immediately reusable, from any connection
    connect(&mut state, 9, "alice", 11);
}

#[test]
fn reconnect_within_window_keeps_history() {
    let mut state = ServerState::new();
    connect(&mut state, 1, "bob", 0);
    state.handle_packet(1, TcpPacket::DrawRequest(line(0)), 0);
    state.handle_packet(1, TcpPacket::Disconnect, 10);
    // back after 3 seconds: the undo history survived
    connect(&mut state, 2, "bob", 13);
    let outcome = state.handle_packet(2, TcpPacket::Undo, 13);
    assert!(!outcome.outputs.is_empty());
    assert!(state.canvas.entries.is_empty());
}

#[test]
fn reconnect_after_window_starts_clean() {
    let mut state = ServerState::new();
    connect(&mut state, 1, "bob", 0);
    state.handle_packet(1, TcpPacket::DrawRequest(line(0)), 0);
    state.handle_packet(1, TcpPacket::Disconnect, 10);
    // back after 6 seconds: the history is gone, undo does nothing
    connect(&mut state, 2, "bob", 16);
    let outcome = state.handle_packet(2, TcpPacket::Undo, 16);
    assert!(outcome.outputs.is_empty());
    assert_eq!(state.canvas.entries.len(), 1);
}

#[test]
fn connect_while_authenticated_is_ignored() {
    let mut state = ServerState::new();
    connect(&mut state, 1, "alice", 0);
    let outcome = state.handle_packet(1, TcpPacket::Connect("other".to_string()), 0);
    assert!(outcome.outputs.is_empty());
    assert!(outcome.error.is_none());
    assert!(!outcome.disconnect);
    assert_eq!(state.get_username(1), Some(&"alice".to_string()));
}

#[test]
fn late_joiner_receives_the_full_canvas() {
    let mut state = ServerState::new();
    connect(&mut state, 1, "alice", 0);
    state.handle_packet(1, TcpPacket::DrawRequest(line(0)), 0);
    state.handle_packet(1, TcpPacket::DrawRequest(line(1)), 0);
    let outcome = state.handle_packet(2, TcpPacket::Connect("bob".to_string()), 0);
    let load = outcome.outputs.iter().find(|o| o.target == 2).unwrap();
    match &load.packet {
        TcpPacket::LoadCanvas(entries) => {
            assert_eq!(entries.len(), 2);
            assert_eq!(entries[0].id, 0);
            assert_eq!(entries[1].id, 1);
        },
        other => panic!("expected a bulk load, got {:?}", other),
    }
}

#[test]
fn broadcast_targets_lists_live_sessions_in_order() {
    let mut state = ServerState::new();
    assert!(state.broadcast_targets().is_empty());
    connect(&mut state, 5, "alice", 0);
    connect(&mut state, 3, "bob", 0);
    assert_eq!(state.broadcast_targets(), vec![5, 3]);
    state.handle_packet(5, TcpPacket::Disconnect, 0);
    assert_eq!(state.broadcast_targets(), vec![3]);
}

#[test]
fn malformed_frame_reports_the_decode_error() {
    assert_eq!(
        TcpPacket::try_from_bytes(&[42]),
        Err(netsketch::errors::DecodeError::Malformed)
    );
}
