//! Core of a collaborative drawing server: a length-prefixed binary protocol,
//! an authoritative canvas with monotonically-assigned entry identifiers,
//! a registry of live sessions keyed by connection identity, per-nickname undo
//! history, and the dispatcher that applies one request at a time to that
//! shared state and fans responses out to every live session.
//!
//! Everything here is pure logic over plain values: connection identities are
//! `u64` handles and timestamps are seconds as `u64`, both supplied by the
//! network layer around this crate.

pub mod canvas;
pub mod client_canvas;
pub mod codec;
pub mod dispatcher;
pub mod errors;
pub mod laws;
pub mod packets;
pub mod server_state;
pub mod text;
pub mod user_data;

pub use canvas::Canvas;
pub use client_canvas::CanvasCommand;
pub use client_canvas::ClientCanvas;
pub use client_canvas::Filter;
pub use client_canvas::Ownership;
pub use client_canvas::ToolType;
pub use canvas::CanvasElement;
pub use canvas::CanvasEntry;
pub use dispatcher::DispatchOutcome;
pub use dispatcher::Outgoing;
pub use errors::ServerError;
pub use packets::TcpPacket;
pub use server_state::ServerState;
pub use server_state::Session;
pub use user_data::Action;
pub use user_data::UserData;
