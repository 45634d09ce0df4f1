//! Round trips and failure cases of the wire codec.

use netsketch::canvas::{CanvasElement, CanvasEntry};
use netsketch::codec::encode_payload;
use netsketch::packets::TcpPacket;

fn line() -> CanvasElement {
    CanvasElement::Line { x1: 0, y1: 0, x2: 10, y2: 10, colour: [255, 0, 0, 255] }
}

fn circle() -> CanvasElement {
    CanvasElement::Circle { x: 7, y: 9, radius: 30, colour: [1, 2, 3, 4] }
}

fn rect() -> CanvasElement {
    CanvasElement::Rect { x: 65535, y: 0, width: 640, height: 480, colour: [0, 0, 0, 0] }
}

fn text(s: &str) -> CanvasElement {
    CanvasElement::Text { x: 12, y: 34, text: s.to_string(), colour: [9, 8, 7, 6] }
}

fn entry(id: usize, author: &str, element: CanvasElement) -> CanvasEntry {
    CanvasEntry { id, shown: true, element, author: author.to_string() }
}

/// Encodes, checks the frame shape, strips the length prefix and decodes.
fn round_trip(p: TcpPacket) {
    let frame = p.to_bytes().expect("encoding must succeed");
    assert!(frame.len() >= 4);
    let len = u32::from_le_bytes([frame[0], frame[1], frame[2], frame[3]]) as usize;
    assert_eq!(len, frame.len() - 4);
    let decoded = TcpPacket::try_from_bytes(&frame[4..]).expect("decoding must succeed");
    assert_eq!(decoded, p);
}

#[test]
fn round_trip_connect() {
    round_trip(TcpPacket::Connect("alice".to_string()));
}

#[test]
fn round_trip_connect_empty_name() {
    round_trip(TcpPacket::Connect(String::new()));
}

#[test]
fn round_trip_disconnect() {
    round_trip(TcpPacket::Disconnect);
}

#[test]
fn round_trip_draw_request_each_element() {
    round_trip(TcpPacket::DrawRequest(line()));
    round_trip(TcpPacket::DrawRequest(circle()));
    round_trip(TcpPacket::DrawRequest(rect()));
    round_trip(TcpPacket::DrawRequest(text("hello world")));
}

#[test]
fn round_trip_text_with_non_ascii() {
    round_trip(TcpPacket::DrawRequest(text("snowman \u{2603} and beyond \u{10348}")));
    round_trip(TcpPacket::Notification("caf\u{e9}".to_string()));
}

#[test]
fn round_trip_empty_text() {
    round_trip(TcpPacket::DrawRequest(text("")));
}

#[test]
fn round_trip_draw_response() {
    round_trip(TcpPacket::DrawResponse(entry(0, "alice", line())));
    round_trip(TcpPacket::DrawResponse(CanvasEntry {
        id: usize::MAX,
        shown: false,
        element: text("x"),
        author: String::new(),
    }));
}

#[test]
fn round_trip_delete() {
    round_trip(TcpPacket::Delete(0));
    round_trip(TcpPacket::Delete(usize::MAX));
}

#[test]
fn round_trip_clear_request() {
    round_trip(TcpPacket::ClearRequest { only_owned: true });
    round_trip(TcpPacket::ClearRequest { only_owned: false });
}

#[test]
fn round_trip_clear_response() {
    round_trip(TcpPacket::ClearResponse { ids_to_delete: vec![] });
    round_trip(TcpPacket::ClearResponse { ids_to_delete: vec![1, 2, 3, 5, 8] });
}

#[test]
fn round_trip_update_request() {
    round_trip(TcpPacket::UpdateRequest(42, circle()));
}

#[test]
fn round_trip_update_response() {
    round_trip(TcpPacket::UpdateResponse(42, entry(42, "bob", rect())));
}

#[test]
fn round_trip_load_canvas() {
    round_trip(TcpPacket::LoadCanvas(vec![]));
    round_trip(TcpPacket::LoadCanvas(vec![
        entry(0, "alice", line()),
        entry(1, "bob", text("note")),
        entry(7, "carol", circle()),
    ]));
}

#[test]
fn round_trip_notification() {
    round_trip(TcpPacket::Notification("[+] alice".to_string()));
    round_trip(TcpPacket::Notification(String::new()));
}

#[test]
fn round_trip_undo() {
    round_trip(TcpPacket::Undo);
}

#[test]
fn decode_rejects_empty_payload() {
    assert!(TcpPacket::try_from_bytes(&[]).is_err());
}

#[test]
fn decode_rejects_unknown_tag() {
    assert!(TcpPacket::try_from_bytes(&[99]).is_err());
}

#[test]
fn decode_rejects_truncated_payload() {
    let frame = TcpPacket::Connect("alice".to_string()).to_bytes().unwrap();
    let payload = &frame[4..];
    assert!(TcpPacket::try_from_bytes(&payload[..payload.len() - 1]).is_err());
}

#[test]
fn decode_rejects_trailing_bytes() {
    let frame = TcpPacket::Undo.to_bytes().unwrap();
    let mut payload = frame[4..].to_vec();
    payload.push(0);
    assert!(TcpPacket::try_from_bytes(&payload).is_err());
}

#[test]
fn decode_rejects_bad_bool() {
    // ClearRequest with a flag byte that is neither 0 nor 1.
    assert!(TcpPacket::try_from_bytes(&[5, 2]).is_err());
}

#[test]
fn decode_rejects_surrogate_code_point() {
    // Connect with one "character" in the surrogate range.
    let mut payload = vec![0u8];
    payload.extend_from_slice(&1u64.to_le_bytes());
    payload.extend_from_slice(&0xD800u32.to_le_bytes());
    assert!(TcpPacket::try_from_bytes(&payload).is_err());
}

#[test]
fn encoding_is_not_the_identity() {
    // The payload really is an encoding: a one-character name takes a tag
    // byte, an 8-byte count and 4 bytes for the character.
    let frame = TcpPacket::Connect("a".to_string()).to_bytes().unwrap();
    assert_eq!(frame.len() - 4, 1 + 8 + 4);
    let payload = encode_payload(&TcpPacket::Connect("a".to_string()));
    assert_eq!(payload.len(), 13);
    assert_eq!(payload[0], 0);
    assert_eq!(payload[1], 1);
    assert_eq!(payload[9], b'a');
}
