//! The request dispatcher: one decoded request at a time is applied to the
//! shared state, and zero or more response messages fan out to the live
//! sessions.
//!
//! The whole behaviour is given by the spec function [`spec_dispatch`]:
//! [`ServerState::handle_packet`] is proved to change the state and produce
//! the outputs that `spec_dispatch` names, for every request.
//!
//! A connection is **unauthenticated** until a `Connect` for it succeeds.
//! While unauthenticated, only `Connect` is accepted; anything else yields
//! `UserNotFound` and the connection must be torn down. An authenticated
//! connection may draw, update, delete, clear, undo and disconnect; a second
//! `Connect`, or a server-to-client message sent to the server, does nothing.

use crate::canvas::{
    clone_element, clone_entries, clone_entry, delete_entries, find_entry, max_counter,
    replace_first, CanvasElement, CanvasEntry, CanvasView, ElementView, EntryView,
};
use crate::errors::{ServerError, ServerErrorView};
use crate::packets::{PacketView, TcpPacket};
use crate::server_state::{
    find_session, has_user, has_username, lemma_user_index_props, remove_sessions, user_index,
    ServerState, Session, SessionView, StateView,
};
use crate::text::{
    join_message, make_join_message, make_missing_entry_message, make_taken_message,
    missing_entry_message, taken_message,
};
use crate::user_data::{Action, ActionView, UserData, UserView};
use vstd::pervasive::VecAdditionalExecFns;
use vstd::prelude::*;

verus! {

/// Seconds within which a reconnect under the same nickname keeps the undo
/// history; beyond it the history is cleared.
pub const RECONNECT_WINDOW_SECS: u64 = 5;

/// One message addressed to one live connection.
#[derive(Debug, Clone, PartialEq)]
pub struct Outgoing {
    pub target: u64,
    pub packet: TcpPacket,
}

/// Mathematical model of an [`Outgoing`].
pub ghost struct OutgoingView {
    pub target: u64,
    pub packet: PacketView,
}

impl View for Outgoing {
    type V = OutgoingView;

    open spec fn view(&self) -> OutgoingView {
        OutgoingView { target: self.target, packet: self.packet@ }
    }
}

impl DeepView for Outgoing {
    type V = OutgoingView;

    open spec fn deep_view(&self) -> OutgoingView {
        self.view()
    }
}

/// What one request produced: the messages to send, the protocol fault if
/// any, and whether the connection is finished (by a disconnect or a fault).
#[derive(Debug)]
pub struct DispatchOutcome {
    pub outputs: Vec<Outgoing>,
    pub error: Option<ServerError>,
    pub disconnect: bool,
}

/// Mathematical model of one dispatch step: the state afterwards and the
/// fields of the outcome.
pub ghost struct StepView {
    pub state: StateView,
    pub outputs: Seq<OutgoingView>,
    pub error: Option<ServerErrorView>,
    pub disconnect: bool,
}

/// The same message to every live session, in session order.
pub open spec fn broadcast_all(sessions: Seq<SessionView>, p: PacketView) -> Seq<OutgoingView> {
    sessions.map_values(|s: SessionView| OutgoingView { target: s.conn, packet: p })
}

/// `users` with `a` pushed onto the history of the record at `idx`.
pub open spec fn push_action_at(users: Seq<UserView>, idx: int, a: ActionView) -> Seq<UserView> {
    if 0 <= idx < users.len() {
        users.update(
            idx,
            UserView {
                username: users[idx].username,
                action_history: users[idx].action_history.push(a),
                last_login: users[idx].last_login,
            },
        )
    } else {
        users
    }
}

/// `users` with the history of the record at `idx` replaced by `h`.
pub open spec fn set_history_at(users: Seq<UserView>, idx: int, h: Seq<ActionView>) -> Seq<
    UserView,
> {
    if 0 <= idx < users.len() {
        users.update(
            idx,
            UserView {
                username: users[idx].username,
                action_history: h,
                last_login: users[idx].last_login,
            },
        )
    } else {
        users
    }
}

/// `users` with the last-seen time of the record at `idx` set to `now`.
pub open spec fn set_login_at(users: Seq<UserView>, idx: int, now: u64) -> Seq<UserView> {
    if 0 <= idx < users.len() {
        users.update(
            idx,
            UserView {
                username: users[idx].username,
                action_history: users[idx].action_history,
                last_login: Some(now),
            },
        )
    } else {
        users
    }
}

/// Whether a record last seen at `last` has sat idle past the freshness
/// window by time `now`.
pub open spec fn history_expired(last: Option<u64>, now: u64) -> bool {
    match last {
        Some(t) => now as int > t as int + RECONNECT_WINDOW_SECS as int,
        None => false,
    }
}

/// The user records after a successful `Connect` under `name` at `now`:
/// a fresh record is created, or the existing one keeps its history exactly
/// when the reconnect came within the freshness window.
pub open spec fn connect_users(users: Seq<UserView>, name: Seq<char>, now: u64) -> Seq<UserView> {
    let idx = user_index(users, name);
    if idx == -1 {
        users.push(UserView { username: name, action_history: Seq::empty(), last_login: Some(now) })
    } else {
        let u = users[idx];
        users.update(
            idx,
            UserView {
                username: u.username,
                action_history: if history_expired(u.last_login, now) {
                    Seq::empty()
                } else {
                    u.action_history
                },
                last_login: Some(now),
            },
        )
    }
}

/// The identifiers a clear removes: every entry, or only the requester's own.
pub open spec fn clear_ids(entries: Seq<EntryView>, name: Seq<char>, only_owned: bool) -> Seq<
    usize,
>
    decreases entries.len(),
{
    if entries.len() == 0 {
        Seq::empty()
    } else {
        let rest = clear_ids(entries.drop_last(), name, only_owned);
        if !only_owned || entries.last().author == name {
            rest.push(entries.last().id)
        } else {
            rest
        }
    }
}

/// The entries a clear leaves behind (the complement of [`clear_ids`]).
pub open spec fn clear_keep(entries: Seq<EntryView>, name: Seq<char>, only_owned: bool) -> Seq<
    EntryView,
>
    decreases entries.len(),
{
    if entries.len() == 0 {
        Seq::empty()
    } else {
        let rest = clear_keep(entries.drop_last(), name, only_owned);
        if only_owned && entries.last().author != name {
            rest.push(entries.last())
        } else {
            rest
        }
    }
}

/// A step that changes nothing and answers nothing.
pub open spec fn step_noop(pre: StateView) -> StepView {
    StepView { state: pre, outputs: Seq::empty(), error: None, disconnect: false }
}

/// `Connect`: reject a nickname some live session holds (notify the requester
/// only, change nothing); otherwise register the session, fetch or create the
/// user record under the freshness policy, tell everyone else, and hand the
/// requester the whole canvas.
pub open spec fn step_connect(pre: StateView, conn: u64, name: Seq<char>, now: u64) -> StepView {
    if has_username(pre.sessions, name) {
        StepView {
            state: pre,
            outputs: seq![
                OutgoingView { target: conn, packet: PacketView::Notification(taken_message(name)) },
            ],
            error: Some(ServerErrorView::UsernameTaken(name)),
            disconnect: true,
        }
    } else {
        StepView {
            state: StateView {
                canvas: pre.canvas,
                sessions: pre.sessions.push(SessionView { conn, username: name }),
                users: connect_users(pre.users, name, now),
            },
            outputs: broadcast_all(
                pre.sessions,
                PacketView::Notification(join_message(name)),
            ).push(OutgoingView { target: conn, packet: PacketView::LoadCanvas(pre.canvas.entries) }),
            error: None,
            disconnect: false,
        }
    }
}

/// `DrawRequest`: store the element under the next identifier, record the
/// draw in the requester's history, and tell every session (the requester
/// included) about the new entry.
pub open spec fn step_draw(pre: StateView, name: Seq<char>, element: ElementView) -> StepView {
    let id = pre.canvas.current_action_id;
    let entry = EntryView { id, shown: true, element, author: name };
    StepView {
        state: StateView {
            canvas: CanvasView {
                entries: pre.canvas.entries.push(entry),
                current_action_id: (id + 1) as usize,
            },
            sessions: pre.sessions,
            users: push_action_at(pre.users, user_index(pre.users, name), ActionView::Draw(id)),
        },
        outputs: broadcast_all(pre.sessions, PacketView::DrawResponse(entry)),
        error: None,
        disconnect: false,
    }
}

/// `UpdateRequest`: replace the element of the named entry in place, record
/// the pre-update entry, and tell every session; if no entry carries the
/// identifier, notify the requester only and change nothing.
pub open spec fn step_update(
    pre: StateView,
    conn: u64,
    name: Seq<char>,
    id: usize,
    element: ElementView,
) -> StepView {
    match find_entry(pre.canvas.entries, id) {
        Some(prev) => {
            let entry = EntryView { id, shown: prev.shown, element, author: prev.author };
            StepView {
                state: StateView {
                    canvas: CanvasView {
                        entries: replace_first(pre.canvas.entries, id, entry),
                        current_action_id: pre.canvas.current_action_id,
                    },
                    sessions: pre.sessions,
                    users: push_action_at(
                        pre.users,
                        user_index(pre.users, name),
                        ActionView::Update(prev),
                    ),
                },
                outputs: broadcast_all(pre.sessions, PacketView::UpdateResponse(id, entry)),
                error: None,
                disconnect: false,
            }
        },
        None => StepView {
            state: pre,
            outputs: seq![
                OutgoingView {
                    target: conn,
                    packet: PacketView::Notification(missing_entry_message(id)),
                },
            ],
            error: None,
            disconnect: false,
        },
    }
}

/// `Delete`: remove the named entry, record it for undo, and tell every
/// session; deleting an absent identifier does nothing at all.
pub open spec fn step_delete(pre: StateView, name: Seq<char>, id: usize) -> StepView {
    match find_entry(pre.canvas.entries, id) {
        Some(entry) => StepView {
            state: StateView {
                canvas: CanvasView {
                    entries: delete_entries(pre.canvas.entries, id),
                    current_action_id: pre.canvas.current_action_id,
                },
                sessions: pre.sessions,
                users: push_action_at(
                    pre.users,
                    user_index(pre.users, name),
                    ActionView::Delete(entry),
                ),
            },
            outputs: broadcast_all(pre.sessions, PacketView::Delete(id)),
            error: None,
            disconnect: false,
        },
        None => step_noop(pre),
    }
}

/// `ClearRequest`: snapshot the canvas into the requester's history, prune
/// the selected entries from the store, and tell every session which
/// identifiers went away.
pub open spec fn step_clear(pre: StateView, name: Seq<char>, only_owned: bool) -> StepView {
    StepView {
        state: StateView {
            canvas: CanvasView {
                entries: clear_keep(pre.canvas.entries, name, only_owned),
                current_action_id: pre.canvas.current_action_id,
            },
            sessions: pre.sessions,
            users: push_action_at(
                pre.users,
                user_index(pre.users, name),
                ActionView::Clear(pre.canvas),
            ),
        },
        outputs: broadcast_all(
            pre.sessions,
            PacketView::ClearResponse {
                ids_to_delete: clear_ids(pre.canvas.entries, name, only_owned),
            },
        ),
        error: None,
        disconnect: false,
    }
}

/// `Undo`: pop the requester's most recent action and apply its inverse,
/// broadcasting the effect; with an empty history it does nothing.
pub open spec fn step_undo(pre: StateView, name: Seq<char>) -> StepView {
    let idx = user_index(pre.users, name);
    if idx == -1 {
        step_noop(pre)
    } else {
        let h = pre.users[idx].action_history;
        if h.len() == 0 {
            step_noop(pre)
        } else {
            let users2 = set_history_at(pre.users, idx, h.drop_last());
            match h.last() {
                ActionView::Draw(id) => StepView {
                    state: StateView {
                        canvas: CanvasView {
                            entries: delete_entries(pre.canvas.entries, id),
                            current_action_id: pre.canvas.current_action_id,
                        },
                        sessions: pre.sessions,
                        users: users2,
                    },
                    outputs: broadcast_all(pre.sessions, PacketView::Delete(id)),
                    error: None,
                    disconnect: false,
                },
                ActionView::Delete(entry) => StepView {
                    state: StateView {
                        canvas: CanvasView {
                            entries: pre.canvas.entries.push(entry),
                            current_action_id: pre.canvas.current_action_id,
                        },
                        sessions: pre.sessions,
                        users: users2,
                    },
                    outputs: broadcast_all(pre.sessions, PacketView::DrawResponse(entry)),
                    error: None,
                    disconnect: false,
                },
                ActionView::Update(prev) => StepView {
                    state: StateView {
                        canvas: CanvasView {
                            entries: replace_first(pre.canvas.entries, prev.id, prev),
                            current_action_id: pre.canvas.current_action_id,
                        },
                        sessions: pre.sessions,
                        users: users2,
                    },
                    outputs: broadcast_all(
                        pre.sessions,
                        PacketView::UpdateResponse(prev.id, prev),
                    ),
                    error: None,
                    disconnect: false,
                },
                ActionView::Clear(c) => StepView {
                    state: StateView {
                        canvas: CanvasView {
                            entries: c.entries,
                            current_action_id: max_counter(
                                pre.canvas.current_action_id,
                                c.current_action_id,
                            ),
                        },
                        sessions: pre.sessions,
                        users: users2,
                    },
                    outputs: broadcast_all(pre.sessions, PacketView::LoadCanvas(c.entries)),
                    error: None,
                    disconnect: false,
                },
            }
        }
    }
}

/// `Disconnect`: mark the nickname's last-seen time and remove the session.
/// Nothing is broadcast; the network layer closes the socket.
pub open spec fn step_disconnect(pre: StateView, conn: u64, name: Seq<char>, now: u64) -> StepView {
    StepView {
        state: StateView {
            canvas: pre.canvas,
            sessions: remove_sessions(pre.sessions, conn),
            users: set_login_at(pre.users, user_index(pre.users, name), now),
        },
        outputs: Seq::empty(),
        error: None,
        disconnect: true,
    }
}

/// The nickname of `conn`, if `conn` has a live session and that nickname has
/// a user record.
pub open spec fn active_user(pre: StateView, conn: u64) -> Option<Seq<char>> {
    match find_session(pre.sessions, conn) {
        Some(s) => if has_user(pre.users, s.username) {
            Some(s.username)
        } else {
            None
        },
        None => None,
    }
}

/// The whole dispatcher, one request at a time.
pub open spec fn spec_dispatch(pre: StateView, conn: u64, p: PacketView, now: u64) -> StepView {
    match active_user(pre, conn) {
        Some(name) => match p {
            PacketView::DrawRequest(element) => step_draw(pre, name, element),
            PacketView::UpdateRequest(id, element) => step_update(pre, conn, name, id, element),
            PacketView::Delete(id) => step_delete(pre, name, id),
            PacketView::ClearRequest { only_owned } => step_clear(pre, name, only_owned),
            PacketView::Undo => step_undo(pre, name),
            PacketView::Disconnect => step_disconnect(pre, conn, name, now),
            _ => step_noop(pre),
        },
        None => match p {
            PacketView::Connect(name) => step_connect(pre, conn, name, now),
            _ => StepView {
                state: pre,
                outputs: Seq::empty(),
                error: Some(ServerErrorView::UserNotFound),
                disconnect: true,
            },
        },
    }
}

/// An exact copy of a sequence of identifiers.
pub fn clone_ids(v: &Vec<usize>) -> (r: Vec<usize>)
    ensures
        r@ == v@,
{
    let mut r: Vec<usize> = Vec::new();
    let mut i: usize = 0;
    while i < v.len()
        invariant
            i <= v@.len(),
            r@ == v@.subrange(0, i as int),
        decreases v@.len() - i,
    {
        r.push(v[i]);
        proof {
            assert(r@ =~= v@.subrange(0, i + 1 as int));
        }
        i = i + 1;
    }
    proof {
        assert(r@ =~= v@);
    }
    r
}

/// A copy of a message, equal to it in the model.
pub fn clone_packet(p: &TcpPacket) -> (r: TcpPacket)
    ensures
        r@ == p@,
{
    match p {
        TcpPacket::Connect(name) => TcpPacket::Connect(name.clone()),
        TcpPacket::Disconnect => TcpPacket::Disconnect,
        TcpPacket::DrawRequest(e) => TcpPacket::DrawRequest(clone_element(e)),
        TcpPacket::DrawResponse(en) => TcpPacket::DrawResponse(clone_entry(en)),
        TcpPacket::Delete(id) => TcpPacket::Delete(*id),
        TcpPacket::ClearRequest { only_owned } => TcpPacket::ClearRequest {
            only_owned: *only_owned,
        },
        TcpPacket::ClearResponse { ids_to_delete } => TcpPacket::ClearResponse {
            ids_to_delete: clone_ids(ids_to_delete),
        },
        TcpPacket::UpdateRequest(id, e) => TcpPacket::UpdateRequest(*id, clone_element(e)),
        TcpPacket::UpdateResponse(id, en) => TcpPacket::UpdateResponse(*id, clone_entry(en)),
        TcpPacket::LoadCanvas(es) => {
            let copy = clone_entries(es);
            proof {
                assert(copy.deep_view() =~= es.deep_view());
            }
            TcpPacket::LoadCanvas(copy)
        },
        TcpPacket::Notification(text) => TcpPacket::Notification(text.clone()),
        TcpPacket::Undo => TcpPacket::Undo,
    }
}

/// One copy of `packet` addressed to every live session, in session order.
pub fn broadcast(sessions: &Vec<Session>, packet: &TcpPacket) -> (r: Vec<Outgoing>)
    ensures
        r.deep_view() == broadcast_all(sessions.deep_view(), packet@),
{
    let ghost all = broadcast_all(sessions.deep_view(), packet@);
    let mut r: Vec<Outgoing> = Vec::new();
    let mut i: usize = 0;
    proof {
        assert(r.deep_view() =~= all.take(0));
    }
    while i < sessions.len()
        invariant
            i <= sessions@.len(),
            all == broadcast_all(sessions.deep_view(), packet@),
            r.deep_view() == all.take(i as int),
        decreases sessions@.len() - i,
    {
        let ghost before = r.deep_view();
        r.push(Outgoing { target: sessions[i].conn, packet: clone_packet(packet) });
        proof {
            assert(all[i as int] == (OutgoingView {
                target: sessions.deep_view()[i as int].conn,
                packet: packet@,
            }));
            assert(r.deep_view() =~= before.push(all[i as int]));
            assert(r.deep_view() =~= all.take(i + 1 as int));
        }
        i = i + 1;
    }
    proof {
        assert(all.take(sessions@.len() as int) =~= all);
    }
    r
}

impl ServerState {
    /// Pushes `action` onto the history of the record at `uidx`.
    fn push_user_action(&mut self, uidx: usize, action: Action)
        requires
            uidx < old(self).users@.len(),
        ensures
            final(self)@.users == push_action_at(old(self)@.users, uidx as int, action@),
            final(self).canvas == old(self).canvas,
            final(self).sessions == old(self).sessions,
    {
        let mut tmp = UserData {
            username: String::new(),
            action_history: Vec::new(),
            last_login: None,
        };
        self.users.set_and_swap(uidx, &mut tmp);
        tmp.action_history.push(action);
        let ghost newu = tmp@;
        self.users.set_and_swap(uidx, &mut tmp);
        proof {
            let pre = old(self).users.deep_view();
            let u = pre[uidx as int];
            assert(newu.action_history =~= u.action_history.push(action@));
            assert(self.users.deep_view() =~= push_action_at(pre, uidx as int, action@));
        }
    }

    /// Sets the last-seen time of the record at `uidx`.
    fn set_user_login(&mut self, uidx: usize, now: u64)
        requires
            uidx < old(self).users@.len(),
        ensures
            final(self)@.users == set_login_at(old(self)@.users, uidx as int, now),
            final(self).canvas == old(self).canvas,
            final(self).sessions == old(self).sessions,
    {
        let mut tmp = UserData {
            username: String::new(),
            action_history: Vec::new(),
            last_login: None,
        };
        self.users.set_and_swap(uidx, &mut tmp);
        tmp.last_login = Some(now);
        let ghost newu = tmp@;
        self.users.set_and_swap(uidx, &mut tmp);
        proof {
            let pre = old(self).users.deep_view();
            let u = pre[uidx as int];
            assert(newu == (UserView {
                username: u.username,
                action_history: u.action_history,
                last_login: Some(now),
            }));
            assert(self.users.deep_view() =~= set_login_at(pre, uidx as int, now));
        }
    }

    /// Applies a `Connect` from an unauthenticated connection.
    fn handle_connect(&mut self, conn: u64, nickname: String, now: u64) -> (r: DispatchOutcome)
        ensures
            ({
                let step = step_connect(old(self)@, conn, nickname@, now);
                &&& final(self)@ == step.state
                &&& r.outputs.deep_view() == step.outputs
                &&& r.error.deep_view() == step.error
                &&& r.disconnect == step.disconnect
            }),
    {
        let join = TcpPacket::Notification(make_join_message(nickname.as_str()));
        let join_outputs = broadcast(&self.sessions, &join);
        let entries_copy = clone_entries(&self.canvas.entries);
        proof {
            assert(entries_copy.deep_view() =~= self.canvas.entries.deep_view());
        }
        let load = TcpPacket::LoadCanvas(entries_copy);
        match self.connect_user(conn, nickname.clone()) {
            Err(e) => {
                let mut outputs: Vec<Outgoing> = Vec::new();
                outputs.push(
                    Outgoing {
                        target: conn,
                        packet: TcpPacket::Notification(make_taken_message(nickname.as_str())),
                    },
                );
                proof {
                    assert(outputs.deep_view() =~= seq![
                        OutgoingView {
                            target: conn,
                            packet: PacketView::Notification(taken_message(nickname@)),
                        },
                    ]);
                }
                DispatchOutcome { outputs, error: Some(e), disconnect: true }
            },
            Ok(_) => {
                let mut outputs = join_outputs;
                let ghost step = step_connect(old(self)@, conn, nickname@, now);
                outputs.push(Outgoing { target: conn, packet: load });
                proof {
                    assert(outputs.deep_view() =~= step.outputs);
                }
                match self.user_slot(&nickname) {
                    None => {
                        let ghost preusers = self.users.deep_view();
                        let mut u = UserData::new(nickname.as_str());
                        u.last_login = Some(now);
                        let ghost uview = u@;
                        self.users.push(u);
                        proof {
                            assert(uview.action_history =~= Seq::<ActionView>::empty());
                            assert(self.users.deep_view() =~= connect_users(
                                preusers,
                                nickname@,
                                now,
                            ));
                        }
                    },
                    Some(uidx) => {
                        proof {
                            lemma_user_index_props(self@.users, nickname@);
                        }
                        let ghost preusers = self.users.deep_view();
                        let mut tmp = UserData {
                            username: String::new(),
                            action_history: Vec::new(),
                            last_login: None,
                        };
                        self.users.set_and_swap(uidx, &mut tmp);
                        let expired = match tmp.last_login {
                            Some(t) => now > t && now - t > RECONNECT_WINDOW_SECS,
                            None => false,
                        };
                        if expired {
                            tmp.action_history = Vec::new();
                        }
                        tmp.last_login = Some(now);
                        let ghost newu = tmp@;
                        self.users.set_and_swap(uidx, &mut tmp);
                        proof {
                            if expired {
                                assert(newu.action_history =~= Seq::<ActionView>::empty());
                            }
                            assert(self.users.deep_view() =~= connect_users(
                                preusers,
                                nickname@,
                                now,
                            ));
                        }
                    },
                }
                proof {
                    assert(self@ == step.state);
                }
                DispatchOutcome { outputs, error: None, disconnect: false }
            },
        }
    }

    /// Applies a `DrawRequest` from the user at `uidx`, named `name`.
    fn handle_draw(&mut self, name: String, uidx: usize, element: CanvasElement) -> (r:
        DispatchOutcome)
        requires
            old(self)@.canvas.current_action_id < usize::MAX,
            uidx < old(self).users@.len(),
            uidx as int == user_index(old(self)@.users, name@),
        ensures
            ({
                let step = step_draw(old(self)@, name@, element@);
                &&& final(self)@ == step.state
                &&& r.outputs.deep_view() == step.outputs
                &&& r.error.deep_view() == step.error
                &&& r.disconnect == step.disconnect
            }),
    {
        let entry = self.canvas.add_action(name, &element);
        let id = entry.id;
        let outputs = broadcast(&self.sessions, &TcpPacket::DrawResponse(entry));
        self.push_user_action(uidx, Action::Draw(id));
        proof {
            assert(self@ == step_draw(old(self)@, name@, element@).state);
        }
        DispatchOutcome { outputs, error: None, disconnect: false }
    }

    /// Applies an `UpdateRequest` from the user at `uidx`, named `name`, on
    /// connection `conn`.
    fn handle_update(
        &mut self,
        conn: u64,
        name: String,
        uidx: usize,
        id: usize,
        element: CanvasElement,
    ) -> (r: DispatchOutcome)
        requires
            uidx < old(self).users@.len(),
            uidx as int == user_index(old(self)@.users, name@),
        ensures
            ({
                let step = step_update(old(self)@, conn, name@, id, element@);
                &&& final(self)@ == step.state
                &&& r.outputs.deep_view() == step.outputs
                &&& r.error.deep_view() == step.error
                &&& r.disconnect == step.disconnect
            }),
    {
        let prev = match self.canvas.get_entry(id) {
            Some(e) => Some(clone_entry(e)),
            None => None,
        };
        match prev {
            Some(prev_entry) => {
                match self.canvas.update_entry(id, &element) {
                    Some(new_entry) => {
                        self.push_user_action(uidx, Action::Update(prev_entry));
                        let outputs = broadcast(
                            &self.sessions,
                            &TcpPacket::UpdateResponse(id, new_entry),
                        );
                        proof {
                            assert(self@ == step_update(
                                old(self)@,
                                conn,
                                name@,
                                id,
                                element@,
                            ).state);
                        }
                        DispatchOutcome { outputs, error: None, disconnect: false }
                    },
                    None => {
                        proof {
                            assert(false);
                        }
                        DispatchOutcome { outputs: Vec::new(), error: None, disconnect: false }
                    },
                }
            },
            None => {
                let mut outputs: Vec<Outgoing> = Vec::new();
                outputs.push(
                    Outgoing {
                        target: conn,
                        packet: TcpPacket::Notification(make_missing_entry_message(id)),
                    },
                );
                proof {
                    assert(outputs.deep_view() =~= seq![
                        OutgoingView {
                            target: conn,
                            packet: PacketView::Notification(missing_entry_message(id)),
                        },
                    ]);
                }
                DispatchOutcome { outputs, error: None, disconnect: false }
            },
        }
    }

    /// Applies a `Delete` from the user at `uidx`, named `name`.
    fn handle_delete(&mut self, name: String, uidx: usize, id: usize) -> (r: DispatchOutcome)
        requires
            uidx < old(self).users@.len(),
            uidx as int == user_index(old(self)@.users, name@),
        ensures
            ({
                let step = step_delete(old(self)@, name@, id);
                &&& final(self)@ == step.state
                &&& r.outputs.deep_view() == step.outputs
                &&& r.error.deep_view() == step.error
                &&& r.disconnect == step.disconnect
            }),
    {
        let entry = match self.canvas.get_entry(id) {
            Some(e) => Some(clone_entry(e)),
            None => None,
        };
        match entry {
            Some(e) => {
                self.push_user_action(uidx, Action::Delete(e));
                self.canvas.delete_entry(id);
                let outputs = broadcast(&self.sessions, &TcpPacket::Delete(id));
                proof {
                    assert(self@ == step_delete(old(self)@, name@, id).state);
                }
                DispatchOutcome { outputs, error: None, disconnect: false }
            },
            None => {
                let r = DispatchOutcome { outputs: Vec::new(), error: None, disconnect: false };
                proof {
                    assert(r.outputs.deep_view() =~= Seq::<OutgoingView>::empty());
                }
                r
            },
        }
    }

    /// Applies a `ClearRequest` from the user at `uidx`, named `name`.
    fn handle_clear(&mut self, name: String, uidx: usize, only_owned: bool) -> (r: DispatchOutcome)
        requires
            uidx < old(self).users@.len(),
            uidx as int == user_index(old(self)@.users, name@),
        ensures
            ({
                let step = step_clear(old(self)@, name@, only_owned);
                &&& final(self)@ == step.state
                &&& r.outputs.deep_view() == step.outputs
                &&& r.error.deep_view() == step.error
                &&& r.disconnect == step.disconnect
            }),
    {
        let snapshot = self.canvas.snapshot();
        self.push_user_action(uidx, Action::Clear(snapshot));
        let ghost pre_entries = self.canvas.entries.deep_view();
        let mut ids: Vec<usize> = Vec::new();
        let mut kept: Vec<CanvasEntry> = Vec::new();
        let mut i: usize = 0;
        while i < self.canvas.entries.len()
            invariant
                i <= pre_entries.len(),
                pre_entries == self.canvas.entries.deep_view(),
                ids@ == clear_ids(pre_entries.take(i as int), name@, only_owned),
                kept.deep_view() == clear_keep(pre_entries.take(i as int), name@, only_owned),
            decreases pre_entries.len() - i,
        {
            let ghost ids_before = ids@;
            let ghost kept_before = kept.deep_view();
            let e = &self.canvas.entries[i];
            if !only_owned || e.author == name {
                ids.push(e.id);
                proof {
                    assert(ids@ =~= ids_before.push(pre_entries[i as int].id));
                }
            } else {
                kept.push(clone_entry(e));
                proof {
                    assert(kept.deep_view() =~= kept_before.push(pre_entries[i as int]));
                }
            }
            proof {
                assert(pre_entries.take(i + 1 as int).drop_last() =~= pre_entries.take(i as int));
                assert(pre_entries.take(i + 1 as int).last() == pre_entries[i as int]);
            }
            i = i + 1;
        }
        proof {
            assert(pre_entries.take(pre_entries.len() as int) =~= pre_entries);
        }
        self.canvas.entries = kept;
        let outputs = broadcast(&self.sessions, &TcpPacket::ClearResponse { ids_to_delete: ids });
        proof {
            assert(self@ == step_clear(old(self)@, name@, only_owned).state);
        }
        DispatchOutcome { outputs, error: None, disconnect: false }
    }

    /// Applies an `Undo` from the user at `uidx`, named `name`.
    fn handle_undo(&mut self, name: String, uidx: usize) -> (r: DispatchOutcome)
        requires
            uidx < old(self).users@.len(),
            uidx as int == user_index(old(self)@.users, name@),
        ensures
            ({
                let step = step_undo(old(self)@, name@);
                &&& final(self)@ == step.state
                &&& r.outputs.deep_view() == step.outputs
                &&& r.error.deep_view() == step.error
                &&& r.disconnect == step.disconnect
            }),
    {
        let ghost h = old(self)@.users[uidx as int].action_history;
        let mut tmp = UserData {
            username: String::new(),
            action_history: Vec::new(),
            last_login: None,
        };
        self.users.set_and_swap(uidx, &mut tmp);
        let popped = tmp.action_history.pop();
        let ghost newu = tmp@;
        self.users.set_and_swap(uidx, &mut tmp);
        match popped {
            None => {
                proof {
                    assert(newu.action_history =~= h);
                    assert(self.users.deep_view() =~= old(self)@.users);
                }
                let r = DispatchOutcome { outputs: Vec::new(), error: None, disconnect: false };
                proof {
                    assert(r.outputs.deep_view() =~= Seq::<OutgoingView>::empty());
                    assert(self@ == step_undo(old(self)@, name@).state);
                }
                r
            },
            Some(action) => {
                proof {
                    assert(h.len() > 0);
                    assert(action@ == h.last());
                    assert(newu.action_history =~= h.drop_last());
                    assert(self.users.deep_view() =~= set_history_at(
                        old(self)@.users,
                        uidx as int,
                        h.drop_last(),
                    ));
                }
                let outputs = match action {
                    Action::Draw(id) => {
                        self.canvas.delete_entry(id);
                        broadcast(&self.sessions, &TcpPacket::Delete(id))
                    },
                    Action::Delete(entry) => {
                        let copy = clone_entry(&entry);
                        let ghost pre_entries = self.canvas.entries.deep_view();
                        let ghost ev = entry@;
                        self.canvas.entries.push(entry);
                        proof {
                            assert(self.canvas.entries.deep_view() =~= pre_entries.push(ev));
                        }
                        broadcast(&self.sessions, &TcpPacket::DrawResponse(copy))
                    },
                    Action::Update(prev_entry) => {
                        let id = prev_entry.id;
                        let copy = clone_entry(&prev_entry);
                        self.canvas.overwrite_entry(id, prev_entry);
                        broadcast(&self.sessions, &TcpPacket::UpdateResponse(id, copy))
                    },
                    Action::Clear(c) => {
                        let entries_copy = clone_entries(&c.entries);
                        proof {
                            assert(entries_copy.deep_view() =~= c.entries.deep_view());
                        }
                        self.canvas.restore(c);
                        broadcast(&self.sessions, &TcpPacket::LoadCanvas(entries_copy))
                    },
                };
                proof {
                    assert(self@ == step_undo(old(self)@, name@).state);
                }
                DispatchOutcome { outputs, error: None, disconnect: false }
            },
        }
    }

    /// Applies a `Disconnect` from the user at `uidx`, named `name` (the
    /// name only ties the slot to the contract).
    #[allow(unused_variables)]
    fn handle_disconnect(&mut self, conn: u64, name: String, uidx: usize, now: u64) -> (r:
        DispatchOutcome)
        requires
            uidx < old(self).users@.len(),
            uidx as int == user_index(old(self)@.users, name@),
        ensures
            ({
                let step = step_disconnect(old(self)@, conn, name@, now);
                &&& final(self)@ == step.state
                &&& r.outputs.deep_view() == step.outputs
                &&& r.error.deep_view() == step.error
                &&& r.disconnect == step.disconnect
            }),
    {
        self.set_user_login(uidx, now);
        self.disconnect_user(conn);
        let r = DispatchOutcome { outputs: Vec::new(), error: None, disconnect: true };
        proof {
            assert(r.outputs.deep_view() =~= Seq::<OutgoingView>::empty());
            assert(self@ == step_disconnect(old(self)@, conn, name@, now).state);
        }
        r
    }

    /// Applies one decoded request from connection `conn` at time `now`
    /// (seconds), exactly as [`spec_dispatch`] says: it mutates the shared
    /// state and yields the messages to send, the protocol fault if any, and
    /// whether the connection is finished.
    pub fn handle_packet(&mut self, conn: u64, packet: TcpPacket, now: u64) -> (r: DispatchOutcome)
        requires
            packet@ matches PacketView::DrawRequest(_) ==> old(self)@.canvas.current_action_id
                < usize::MAX,
        ensures
            ({
                let step = spec_dispatch(old(self)@, conn, packet@, now);
                &&& final(self)@ == step.state
                &&& r.outputs.deep_view() == step.outputs
                &&& r.error.deep_view() == step.error
                &&& r.disconnect == step.disconnect
            }),
    {
        let active: Option<(String, usize)> = match self.get_username(conn) {
            Some(s) => {
                let name = s.clone();
                match self.user_slot(&name) {
                    Some(i) => Some((name, i)),
                    None => None,
                }
            },
            None => None,
        };
        match active {
            Some((name, uidx)) => {
                proof {
                    lemma_user_index_props(self@.users, name@);
                    assert(active_user(self@, conn) == Some(name@));
                }
                match packet {
                    TcpPacket::DrawRequest(element) => self.handle_draw(name, uidx, element),
                    TcpPacket::UpdateRequest(id, element) => self.handle_update(
                        conn,
                        name,
                        uidx,
                        id,
                        element,
                    ),
                    TcpPacket::Delete(id) => self.handle_delete(name, uidx, id),
                    TcpPacket::ClearRequest { only_owned } => self.handle_clear(
                        name,
                        uidx,
                        only_owned,
                    ),
                    TcpPacket::Undo => self.handle_undo(name, uidx),
                    TcpPacket::Disconnect => self.handle_disconnect(conn, name, uidx, now),
                    _ => {
                        let r = DispatchOutcome {
                            outputs: Vec::new(),
                            error: None,
                            disconnect: false,
                        };
                        proof {
                            assert(r.outputs.deep_view() =~= Seq::<OutgoingView>::empty());
                        }
                        r
                    },
                }
            },
            None => {
                proof {
                    assert(active_user(self@, conn) is None);
                }
                match packet {
                    TcpPacket::Connect(nickname) => self.handle_connect(conn, nickname, now),
                    _ => {
                        let r = DispatchOutcome {
                            outputs: Vec::new(),
                            error: Some(ServerError::UserNotFound),
                            disconnect: true,
                        };
                        proof {
                            assert(r.outputs.deep_view() =~= Seq::<OutgoingView>::empty());
                        }
                        r
                    },
                }
            },
        }
    }
}

} // verus!
