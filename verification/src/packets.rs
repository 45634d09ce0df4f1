//! The protocol vocabulary: one tagged union shared by requests
//! (client to server) and responses (server to client).

use crate::canvas::{CanvasElement, CanvasEntry, ElementView, EntryView};
use vstd::prelude::*;

verus! {

/// One protocol message. On the wire it travels as a length-prefixed frame;
/// see the codec for the byte layout.
#[derive(Debug, Clone, PartialEq, Eq)]
pub enum TcpPacket {
    /// Client asks to join under a nickname.
    Connect(String),
    /// Client announces it is leaving.
    Disconnect,
    /// Client asks to draw an element.
    DrawRequest(CanvasElement),
    /// Server tells every client about a newly stored entry.
    DrawResponse(CanvasEntry),
    /// Client asks to delete an entry; also the broadcast that tells every
    /// client the entry is gone.
    Delete(usize),
    /// Client asks to clear the canvas, either only its own entries or all.
    ClearRequest { only_owned: bool },
    /// Server tells every client which entries a clear removed.
    ClearResponse { ids_to_delete: Vec<usize> },
    /// Client asks to replace the element of an existing entry.
    UpdateRequest(usize, CanvasElement),
    /// Server tells every client about a replaced entry.
    UpdateResponse(usize, CanvasEntry),
    /// Server hands a newly joined client the whole canvas.
    LoadCanvas(Vec<CanvasEntry>),
    /// Server tells one or more clients something in plain text.
    Notification(String),
    /// Client asks to undo its most recent action.
    Undo,
}

/// Mathematical model of a [`TcpPacket`].
pub ghost enum PacketView {
    Connect(Seq<char>),
    Disconnect,
    DrawRequest(ElementView),
    DrawResponse(EntryView),
    Delete(usize),
    ClearRequest { only_owned: bool },
    ClearResponse { ids_to_delete: Seq<usize> },
    UpdateRequest(usize, ElementView),
    UpdateResponse(usize, EntryView),
    LoadCanvas(Seq<EntryView>),
    Notification(Seq<char>),
    Undo,
}

/// Sequence lengths that fit in the 64-bit counts the wire format uses.
/// Every value built by executable code satisfies these bounds.
pub open spec fn fits_u64(n: nat) -> bool {
    n <= u64::MAX
}

impl ElementView {
    /// The element can be put on the wire: a well-formed colour and a text
    /// length that fits its count field.
    pub open spec fn encodable(self) -> bool {
        &&& self.wf()
        &&& match self {
            ElementView::Text { text, .. } => fits_u64(text.len()),
            _ => true,
        }
    }
}

impl EntryView {
    /// The entry can be put on the wire: well-formed colour and text and
    /// author lengths that fit their count fields.
    pub open spec fn encodable(self) -> bool {
        &&& self.element.encodable()
        &&& fits_u64(self.author.len())
    }
}

impl PacketView {
    /// The message can be put on the wire: colours have four channels and
    /// every sequence length fits its count field.
    pub open spec fn wf(self) -> bool {
        match self {
            PacketView::Connect(name) => fits_u64(name.len()),
            PacketView::Disconnect => true,
            PacketView::DrawRequest(e) => e.encodable(),
            PacketView::DrawResponse(en) => en.encodable(),
            PacketView::Delete(_) => true,
            PacketView::ClearRequest { .. } => true,
            PacketView::ClearResponse { ids_to_delete } => fits_u64(ids_to_delete.len()),
            PacketView::UpdateRequest(_, e) => e.encodable(),
            PacketView::UpdateResponse(_, en) => en.encodable(),
            PacketView::LoadCanvas(entries) => fits_u64(entries.len()) && (forall|i: int|
                0 <= i < entries.len() ==> #[trigger] entries[i].encodable()),
            PacketView::Notification(text) => fits_u64(text.len()),
            PacketView::Undo => true,
        }
    }
}

impl View for TcpPacket {
    type V = PacketView;

    open spec fn view(&self) -> PacketView {
        match self {
            TcpPacket::Connect(name) => PacketView::Connect(name@),
            TcpPacket::Disconnect => PacketView::Disconnect,
            TcpPacket::DrawRequest(e) => PacketView::DrawRequest(e@),
            TcpPacket::DrawResponse(en) => PacketView::DrawResponse(en@),
            TcpPacket::Delete(id) => PacketView::Delete(*id),
            TcpPacket::ClearRequest { only_owned } => PacketView::ClearRequest {
                only_owned: *only_owned,
            },
            TcpPacket::ClearResponse { ids_to_delete } => PacketView::ClearResponse {
                ids_to_delete: ids_to_delete@,
            },
            TcpPacket::UpdateRequest(id, e) => PacketView::UpdateRequest(*id, e@),
            TcpPacket::UpdateResponse(id, en) => PacketView::UpdateResponse(*id, en@),
            TcpPacket::LoadCanvas(entries) => PacketView::LoadCanvas(entries.deep_view()),
            TcpPacket::Notification(text) => PacketView::Notification(text@),
            TcpPacket::Undo => PacketView::Undo,
        }
    }
}

impl DeepView for TcpPacket {
    type V = PacketView;

    open spec fn deep_view(&self) -> PacketView {
        self.view()
    }
}

} // verus!
