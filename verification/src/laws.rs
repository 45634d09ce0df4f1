//! The laws of the dispatcher, proved once and for all over
//! [`spec_dispatch`]: identifier freshness, deletion idempotence, the undo
//! inverse laws, nickname uniqueness, the reconnect freshness window, and
//! preservation of the server invariants.

use crate::canvas::{
    delete_entries, find_entry, lemma_delete_pushed, lemma_delete_removes,
    lemma_find_first_match, lemma_replace_first_shape, ElementView, EntryView,
};
use crate::dispatcher::{
    active_user, broadcast_all, clear_keep, connect_users, push_action_at, set_history_at,
    set_login_at, spec_dispatch, step_clear, step_connect, step_delete, step_disconnect,
    step_draw, step_undo, step_update, RECONNECT_WINDOW_SECS,
};
use crate::errors::ServerErrorView;
use crate::packets::PacketView;
use crate::server_state::{
    action_ok, find_session, has_user, has_username, history_ok, lemma_find_session_no_match,
    lemma_remove_sessions_removes, lemma_user_index_props, remove_sessions, user_index,
    SessionView, StateView,
};
use crate::user_data::{ActionView, UserView};
use vstd::prelude::*;

verus! {

/// `k` is the position of the first entry carrying `id`.
pub open spec fn first_match(entries: Seq<EntryView>, id: usize, k: int) -> bool {
    &&& 0 <= k < entries.len()
    &&& entries[k].id == id
    &&& forall|j: int| 0 <= j < k ==> #[trigger] entries[j].id != id
}

/// What the scan returns: the entry at the first matching position, or
/// nothing when no entry matches.
pub proof fn lemma_find_entry_props(entries: Seq<EntryView>, id: usize)
    ensures
        match find_entry(entries, id) {
            Some(e) => e.id == id && exists|k: int| #[trigger] first_match(entries, id, k)
                && entries[k] == e,
            None => forall|j: int| 0 <= j < entries.len() ==> #[trigger] entries[j].id != id,
        },
    decreases entries.len(),
{
    if entries.len() > 0 {
        if entries[0].id == id {
            assert(first_match(entries, id, 0));
        } else {
            lemma_find_entry_props(entries.drop_first(), id);
            match find_entry(entries, id) {
                Some(e) => {
                    let k = choose|k: int|
                        #[trigger] first_match(entries.drop_first(), id, k)
                            && entries.drop_first()[k] == e;
                    assert(entries[k + 1] == e);
                    assert forall|j: int| 0 <= j < k + 1 implies #[trigger] entries[j].id
                        != id by {
                        if j > 0 {
                            assert(entries.drop_first()[j - 1].id != id);
                        }
                    }
                    assert(first_match(entries, id, k + 1));
                },
                None => {
                    assert forall|j: int| 0 <= j < entries.len() implies #[trigger] entries[j].id
                        != id by {
                        if j > 0 {
                            assert(entries.drop_first()[j - 1].id != id);
                        }
                    }
                },
            }
        }
    }
}

/// `user_index` looks only at the usernames: two records sequences with the
/// same names in the same order give the same position.
pub proof fn lemma_user_index_same_names(u1: Seq<UserView>, u2: Seq<UserView>, name: Seq<char>)
    requires
        u1.len() == u2.len(),
        forall|i: int| 0 <= i < u1.len() ==> #[trigger] u1[i].username == u2[i].username,
    ensures
        user_index(u1, name) == user_index(u2, name),
    decreases u1.len(),
{
    if u1.len() > 0 {
        assert(u1[0].username == u2[0].username);
        assert forall|i: int|
            0 <= i < u1.drop_first().len() implies #[trigger] u1.drop_first()[i].username
            == u2.drop_first()[i].username by {
            assert(u1[i + 1].username == u2[i + 1].username);
        }
        lemma_user_index_same_names(u1.drop_first(), u2.drop_first(), name);
    }
}

/// What the session scan returns: a session bound to `conn` at some position,
/// or nothing when no session is bound to it.
pub proof fn lemma_find_session_props(sessions: Seq<SessionView>, conn: u64)
    ensures
        match find_session(sessions, conn) {
            Some(s) => s.conn == conn && exists|k: int|
                0 <= k < sessions.len() && #[trigger] sessions[k] == s,
            None => forall|j: int| 0 <= j < sessions.len() ==> #[trigger] sessions[j].conn != conn,
        },
    decreases sessions.len(),
{
    if sessions.len() > 0 && sessions[0].conn != conn {
        lemma_find_session_props(sessions.drop_first(), conn);
        match find_session(sessions, conn) {
            Some(s) => {
                let k = choose|k: int|
                    0 <= k < sessions.drop_first().len() && #[trigger] sessions.drop_first()[k]
                        == s;
                assert(sessions[k + 1] == s);
            },
            None => {
                assert forall|j: int| 0 <= j < sessions.len() implies #[trigger] sessions[j].conn
                    != conn by {
                    if j > 0 {
                        assert(sessions.drop_first()[j - 1].conn != conn);
                    }
                }
            },
        }
    }
}

/// Every request leaves the identifier counter at least where it was
/// (a draw must not be attempted at the counter's ceiling, the one machine
/// limit). With [`lemma_draw_assigns_next_id`] this gives the first law: over
/// any sequence of requests, the identifiers assigned to drawn entries are
/// strictly increasing, and hence never reused.
pub proof fn lemma_dispatch_counter_monotonic(pre: StateView, conn: u64, p: PacketView, now: u64)
    requires
        p matches PacketView::DrawRequest(_) ==> pre.canvas.current_action_id < usize::MAX,
    ensures
        spec_dispatch(pre, conn, p, now).state.canvas.current_action_id
            >= pre.canvas.current_action_id,
{
}

/// A draw stores its entry under the counter's current value — an identifier
/// no entry on a well-formed canvas carries — and moves the counter past it.
pub proof fn lemma_draw_assigns_next_id(pre: StateView, conn: u64, element: ElementView, now: u64)
    requires
        pre.wf(),
        active_user(pre, conn) is Some,
        pre.canvas.current_action_id < usize::MAX,
    ensures
        ({
            let step = spec_dispatch(pre, conn, PacketView::DrawRequest(element), now);
            let assigned = step.state.canvas.entries.last();
            &&& assigned.id == pre.canvas.current_action_id
            &&& !pre.canvas.has_id(assigned.id)
            &&& step.state.canvas.current_action_id == pre.canvas.current_action_id + 1
            &&& step.state.canvas.ids_bounded()
        }),
{
    let step = spec_dispatch(pre, conn, PacketView::DrawRequest(element), now);
    assert(!pre.canvas.has_id(pre.canvas.current_action_id));
    assert(step.state.canvas.entries.last().id == pre.canvas.current_action_id);
}

/// Deleting the same identifier twice leaves the canvas exactly as deleting
/// it once does, whatever else the two requests touch.
pub proof fn lemma_delete_idempotent_dispatch(
    pre: StateView,
    conn: u64,
    id: usize,
    now1: u64,
    now2: u64,
)
    ensures
        ({
            let s1 = spec_dispatch(pre, conn, PacketView::Delete(id), now1).state;
            let s2 = spec_dispatch(s1, conn, PacketView::Delete(id), now2).state;
            s2.canvas == s1.canvas
        }),
{
    let s1 = spec_dispatch(pre, conn, PacketView::Delete(id), now1).state;
    match active_user(pre, conn) {
        Some(name) => {
            match find_entry(pre.canvas.entries, id) {
                Some(entry) => {
                    // The first delete removed every entry carrying `id`;
                    // the second finds nothing and does nothing.
                    lemma_delete_removes(pre.canvas.entries, id);
                    crate::canvas::lemma_find_no_match(s1.canvas.entries, id);
                    assert(s1.sessions == pre.sessions);
                    lemma_user_index_props(pre.users, name);
                    lemma_user_index_same_names(s1.users, pre.users, name);
                    match active_user(s1, conn) {
                        Some(name2) => {
                            assert(name2 == name);
                            match find_entry(s1.canvas.entries, id) {
                                Some(_) => {
                                    assert(false);
                                },
                                None => {},
                            }
                        },
                        None => {},
                    }
                },
                None => {
                    assert(s1 == pre);
                },
            }
        },
        None => {
            assert(s1 == pre);
        },
    }
}

/// Undo straight after a draw leaves the canvas entries exactly as they were
/// before the draw.
pub proof fn lemma_undo_inverts_draw(
    pre: StateView,
    conn: u64,
    element: ElementView,
    now1: u64,
    now2: u64,
)
    requires
        pre.wf(),
        active_user(pre, conn) is Some,
        pre.canvas.current_action_id < usize::MAX,
    ensures
        ({
            let s1 = spec_dispatch(pre, conn, PacketView::DrawRequest(element), now1).state;
            let s2 = spec_dispatch(s1, conn, PacketView::Undo, now2).state;
            s2.canvas.entries == pre.canvas.entries
        }),
{
    let name = match active_user(pre, conn) {
        Some(n) => n,
        None => arbitrary(),
    };
    let id = pre.canvas.current_action_id;
    let entry = EntryView { id, shown: true, element, author: name };
    let s1 = spec_dispatch(pre, conn, PacketView::DrawRequest(element), now1).state;
    lemma_user_index_props(pre.users, name);
    let uidx = user_index(pre.users, name);
    assert(s1.users == push_action_at(pre.users, uidx, ActionView::Draw(id)));
    assert(s1.sessions == pre.sessions);
    lemma_user_index_same_names(s1.users, pre.users, name);
    assert(active_user(s1, conn) == Some(name));
    assert(s1.users[uidx].action_history.last() == ActionView::Draw(id));
    let s2 = spec_dispatch(s1, conn, PacketView::Undo, now2).state;
    assert(s2.canvas.entries == delete_entries(s1.canvas.entries, id));
    lemma_delete_pushed(pre.canvas.entries, entry);
}

/// Undo straight after a delete restores an entry equal to the deleted one —
/// identifier and content preserved — at the end of the sequence.
pub proof fn lemma_undo_inverts_delete(
    pre: StateView,
    conn: u64,
    id: usize,
    now1: u64,
    now2: u64,
)
    requires
        pre.wf(),
        active_user(pre, conn) is Some,
        find_entry(pre.canvas.entries, id) is Some,
    ensures
        ({
            let entry = find_entry(pre.canvas.entries, id)->Some_0;
            let s1 = spec_dispatch(pre, conn, PacketView::Delete(id), now1).state;
            let s2 = spec_dispatch(s1, conn, PacketView::Undo, now2).state;
            s2.canvas.entries == delete_entries(pre.canvas.entries, id).push(entry)
        }),
{
    let name = match active_user(pre, conn) {
        Some(n) => n,
        None => arbitrary(),
    };
    let entry = find_entry(pre.canvas.entries, id)->Some_0;
    let s1 = spec_dispatch(pre, conn, PacketView::Delete(id), now1).state;
    lemma_user_index_props(pre.users, name);
    let uidx = user_index(pre.users, name);
    assert(s1.sessions == pre.sessions);
    lemma_user_index_same_names(s1.users, pre.users, name);
    assert(active_user(s1, conn) == Some(name));
    assert(s1.users[uidx].action_history.last() == ActionView::Delete(entry));
}

/// Undo straight after an update restores the pre-update entry under its
/// identifier, and that restoration is broadcast to every session.
pub proof fn lemma_undo_inverts_update(
    pre: StateView,
    conn: u64,
    id: usize,
    element: ElementView,
    now1: u64,
    now2: u64,
)
    requires
        pre.wf(),
        active_user(pre, conn) is Some,
        find_entry(pre.canvas.entries, id) is Some,
    ensures
        ({
            let prev = find_entry(pre.canvas.entries, id)->Some_0;
            let s1 = spec_dispatch(pre, conn, PacketView::UpdateRequest(id, element), now1).state;
            let o2 = spec_dispatch(s1, conn, PacketView::Undo, now2);
            &&& find_entry(o2.state.canvas.entries, id) == Some(prev)
            &&& o2.outputs == broadcast_all(
                pre.sessions,
                PacketView::UpdateResponse(id, prev),
            )
        }),
{
    let name = match active_user(pre, conn) {
        Some(n) => n,
        None => arbitrary(),
    };
    let prev = find_entry(pre.canvas.entries, id)->Some_0;
    lemma_find_entry_props(pre.canvas.entries, id);
    let k = choose|k: int|
        #[trigger] first_match(pre.canvas.entries, id, k) && pre.canvas.entries[k] == prev;
    let newe = EntryView { id, shown: prev.shown, element, author: prev.author };
    let s1 = spec_dispatch(pre, conn, PacketView::UpdateRequest(id, element), now1).state;
    lemma_user_index_props(pre.users, name);
    let uidx = user_index(pre.users, name);
    lemma_find_first_match(pre.canvas.entries, id, k);
    assert(s1.canvas.entries =~= pre.canvas.entries.update(k, newe));
    assert(s1.sessions == pre.sessions);
    lemma_user_index_same_names(s1.users, pre.users, name);
    assert(active_user(s1, conn) == Some(name));
    assert(s1.users[uidx].action_history.last() == ActionView::Update(prev));
    let o2 = spec_dispatch(s1, conn, PacketView::Undo, now2);
    // The undo replaces the first entry carrying `id` — still at position k —
    // by the saved one.
    assert(prev.id == id);
    assert forall|j: int| 0 <= j < k implies #[trigger] s1.canvas.entries[j].id != id by {
        assert(pre.canvas.entries[j].id != id);
    }
    lemma_find_first_match(s1.canvas.entries, id, k);
    assert(o2.state.canvas.entries =~= s1.canvas.entries.update(k, prev));
    assert forall|j: int| 0 <= j < k implies #[trigger] o2.state.canvas.entries[j].id != id by {
        assert(pre.canvas.entries[j].id != id);
    }
    lemma_find_first_match(o2.state.canvas.entries, id, k);
    assert(find_entry(o2.state.canvas.entries, id) == Some(prev));
}

/// Two connects under one nickname from different, unauthenticated
/// connections: the first succeeds; the second is rejected with the
/// nickname-taken error, changes nothing, and its connection never enters
/// the registry.
pub proof fn lemma_nickname_unique(
    pre: StateView,
    conn1: u64,
    conn2: u64,
    name: Seq<char>,
    now1: u64,
    now2: u64,
)
    requires
        !has_username(pre.sessions, name),
        find_session(pre.sessions, conn1) is None,
        find_session(pre.sessions, conn2) is None,
        conn1 != conn2,
    ensures
        ({
            let o1 = spec_dispatch(pre, conn1, PacketView::Connect(name), now1);
            let o2 = spec_dispatch(o1.state, conn2, PacketView::Connect(name), now2);
            &&& o1.error is None
            &&& has_username(o1.state.sessions, name)
            &&& o2.error == Some(ServerErrorView::UsernameTaken(name))
            &&& o2.state == o1.state
            &&& find_session(o2.state.sessions, conn2) is None
        }),
{
    lemma_find_session_props(pre.sessions, conn1);
    let o1 = spec_dispatch(pre, conn1, PacketView::Connect(name), now1);
    let sessions1 = pre.sessions.push(SessionView { conn: conn1, username: name });
    assert(o1.state.sessions == sessions1);
    assert(sessions1[sessions1.len() - 1].username == name);
    assert(has_username(sessions1, name));
    lemma_find_session_props(pre.sessions, conn2);
    assert forall|j: int| 0 <= j < sessions1.len() implies #[trigger] sessions1[j].conn
        != conn2 by {
        if j < pre.sessions.len() {
            assert(pre.sessions[j].conn != conn2);
        }
    }
    lemma_find_session_no_match(sessions1, conn2);
}

/// Connect, disconnect at `t1`, reconnect under the same nickname at `t2`:
/// the reconnect succeeds; within the freshness window the undo history
/// survives, beyond it the user starts clean.
pub proof fn lemma_reconnect_window(
    pre: StateView,
    conn1: u64,
    conn2: u64,
    name: Seq<char>,
    t1: u64,
    t2: u64,
)
    requires
        pre.wf(),
        active_user(pre, conn1) == Some(name),
        conn2 == conn1 || find_session(pre.sessions, conn2) is None,
    ensures
        ({
            let s1 = spec_dispatch(pre, conn1, PacketView::Disconnect, t1).state;
            let o2 = spec_dispatch(s1, conn2, PacketView::Connect(name), t2);
            let idx2 = user_index(o2.state.users, name);
            &&& o2.error is None
            &&& 0 <= idx2 < o2.state.users.len()
            &&& o2.state.users[idx2].action_history == (if t2 as int > t1 as int
                + RECONNECT_WINDOW_SECS as int {
                Seq::<ActionView>::empty()
            } else {
                pre.users[user_index(pre.users, name)].action_history
            })
        }),
{
    lemma_find_session_props(pre.sessions, conn1);
    let sv = find_session(pre.sessions, conn1)->Some_0;
    assert(sv.username == name);
    let k = choose|k: int| 0 <= k < pre.sessions.len() && #[trigger] pre.sessions[k] == sv;
    lemma_user_index_props(pre.users, name);
    let idx = user_index(pre.users, name);
    let s1 = spec_dispatch(pre, conn1, PacketView::Disconnect, t1).state;
    assert(s1.users == set_login_at(pre.users, idx, t1));
    assert(s1.sessions == remove_sessions(pre.sessions, conn1));
    lemma_remove_sessions_removes(pre.sessions, conn1);
    // The reconnecting handle is unauthenticated after the disconnect.
    if conn2 == conn1 {
        lemma_find_session_no_match(s1.sessions, conn2);
    } else {
        lemma_find_session_props(pre.sessions, conn2);
        assert forall|j: int| 0 <= j < s1.sessions.len() implies #[trigger] s1.sessions[j].conn
            != conn2 by {
            let x = s1.sessions[j];
            assert(pre.sessions.contains(x));
            let m = choose|m: int| 0 <= m < pre.sessions.len() && pre.sessions[m] == x;
            assert(pre.sessions[m].conn != conn2);
        }
        lemma_find_session_no_match(s1.sessions, conn2);
    }
    // The removed session was the only one holding the nickname.
    assert forall|j: int| 0 <= j < s1.sessions.len() implies #[trigger] s1.sessions[j].username
        != name by {
        let x = s1.sessions[j];
        assert(pre.sessions.contains(x));
        let m = choose|m: int| 0 <= m < pre.sessions.len() && pre.sessions[m] == x;
        assert(x.conn != conn1);
        assert(pre.sessions[k].conn == conn1);
        assert(m != k);
        if m < k {
            assert(pre.sessions[m].username != pre.sessions[k].username);
        } else {
            assert(pre.sessions[k].username != pre.sessions[m].username);
        }
    }
    assert(!has_username(s1.sessions, name));
    // The login-time write moved no record, so the same slot answers.
    lemma_user_index_same_names(s1.users, pre.users, name);
    assert(user_index(s1.users, name) == idx);
    let o2 = spec_dispatch(s1, conn2, PacketView::Connect(name), t2);
    assert(o2.state.users == connect_users(s1.users, name, t2));
    assert(s1.users[idx].last_login == Some(t1));
    assert(s1.users[idx].action_history == pre.users[idx].action_history);
    assert forall|i: int| 0 <= i < o2.state.users.len() implies #[trigger] o2.state.users[i].username
        == pre.users[i].username by {}
    lemma_user_index_same_names(o2.state.users, pre.users, name);
    assert(user_index(o2.state.users, name) == idx);
}

proof fn lemma_action_ok_monotone(a: ActionView, n1: usize, n2: usize)
    requires
        action_ok(a, n1),
        n1 <= n2,
    ensures
        action_ok(a, n2),
{
}

/// Each entry a clear leaves behind comes from the original sequence.
proof fn lemma_clear_keep_subset(entries: Seq<EntryView>, name: Seq<char>, only_owned: bool)
    ensures
        forall|j: int|
            0 <= j < clear_keep(entries, name, only_owned).len() ==> entries.contains(
                #[trigger] clear_keep(entries, name, only_owned)[j],
            ),
    decreases entries.len(),
{
    if entries.len() > 0 {
        lemma_clear_keep_subset(entries.drop_last(), name, only_owned);
        assert forall|j: int|
            0 <= j < clear_keep(entries, name, only_owned).len() implies entries.contains(
            #[trigger] clear_keep(entries, name, only_owned)[j],
        ) by {
            let d = clear_keep(entries, name, only_owned);
            let dprev = clear_keep(entries.drop_last(), name, only_owned);
            if j < dprev.len() {
                let k = choose|k: int|
                    0 <= k < entries.drop_last().len() && entries.drop_last()[k] == dprev[j];
                assert(entries[k] == d[j]);
            } else {
                assert(entries[entries.len() - 1] == d[j]);
            }
        }
    }
}

/// Removing a connection's sessions keeps handles and nicknames pairwise
/// distinct.
proof fn lemma_remove_sessions_unique(sessions: Seq<SessionView>, conn: u64)
    requires
        forall|i: int, j: int|
            0 <= i < j < sessions.len() ==> #[trigger] sessions[i].conn
                != #[trigger] sessions[j].conn,
        forall|i: int, j: int|
            0 <= i < j < sessions.len() ==> #[trigger] sessions[i].username
                != #[trigger] sessions[j].username,
    ensures
        forall|i: int, j: int|
            0 <= i < j < remove_sessions(sessions, conn).len() ==> #[trigger] remove_sessions(
                sessions,
                conn,
            )[i].conn != #[trigger] remove_sessions(sessions, conn)[j].conn,
        forall|i: int, j: int|
            0 <= i < j < remove_sessions(sessions, conn).len() ==> #[trigger] remove_sessions(
                sessions,
                conn,
            )[i].username != #[trigger] remove_sessions(sessions, conn)[j].username,
    decreases sessions.len(),
{
    if sessions.len() > 0 {
        let prefix = sessions.drop_last();
        assert forall|i: int, j: int| 0 <= i < j < prefix.len() implies #[trigger] prefix[i].conn
            != #[trigger] prefix[j].conn && prefix[i].username != prefix[j].username by {
            assert(sessions[i].conn != sessions[j].conn);
            assert(sessions[i].username != sessions[j].username);
        }
        lemma_remove_sessions_unique(prefix, conn);
        lemma_remove_sessions_removes(prefix, conn);
        let d = remove_sessions(sessions, conn);
        let dprev = remove_sessions(prefix, conn);
        let last = sessions.last();
        if last.conn != conn {
            assert forall|i: int, j: int| 0 <= i < j < d.len() implies #[trigger] d[i].conn
                != #[trigger] d[j].conn && d[i].username != d[j].username by {
                if j < dprev.len() {
                    assert(d[i] == dprev[i] && d[j] == dprev[j]);
                } else {
                    assert(d[j] == last);
                    assert(d[i] == dprev[i]);
                    assert(prefix.contains(dprev[i]));
                    let m = choose|m: int| 0 <= m < prefix.len() && prefix[m] == dprev[i];
                    assert(sessions[m] == dprev[i]);
                    assert(sessions[m].conn != sessions[sessions.len() - 1].conn);
                    assert(sessions[m].username != sessions[sessions.len() - 1].username);
                }
            }
        }
    }
}

/// If a new record sequence carries the same nicknames in the same order and
/// its histories respect `next2`, the user-related invariants carry over.
proof fn lemma_wf_users_same_names(pre: StateView, users2: Seq<UserView>)
    requires
        pre.wf(),
        users2.len() == pre.users.len(),
        forall|i: int| 0 <= i < users2.len() ==> #[trigger] users2[i].username
            == pre.users[i].username,
    ensures
        forall|i: int, j: int|
            0 <= i < j < users2.len() ==> #[trigger] users2[i].username
                != #[trigger] users2[j].username,
        forall|i: int|
            0 <= i < pre.sessions.len() ==> has_user(users2, #[trigger] pre.sessions[i].username),
{
    assert forall|i: int, j: int| 0 <= i < j < users2.len() implies #[trigger] users2[i].username
        != #[trigger] users2[j].username by {
        assert(pre.users[i].username != pre.users[j].username);
    }
    assert forall|i: int| 0 <= i < pre.sessions.len() implies has_user(
        users2,
        #[trigger] pre.sessions[i].username,
    ) by {
        lemma_user_index_same_names(users2, pre.users, pre.sessions[i].username);
    }
}

/// Histories that respect a counter respect every larger counter, with one
/// action appended that respects the larger counter itself.
proof fn lemma_histories_after_push(
    pre: StateView,
    idx: int,
    a: ActionView,
    next2: usize,
)
    requires
        pre.wf(),
        pre.canvas.current_action_id <= next2,
        action_ok(a, next2),
    ensures
        ({
            let users2 = push_action_at(pre.users, idx, a);
            forall|i: int|
                0 <= i < users2.len() ==> history_ok(
                    (#[trigger] users2[i]).action_history,
                    next2,
                )
        }),
{
    let c = pre.canvas.current_action_id;
    let users2 = push_action_at(pre.users, idx, a);
    assert forall|i: int| 0 <= i < users2.len() implies history_ok(
        (#[trigger] users2[i]).action_history,
        next2,
    ) by {
        let h = pre.users[i].action_history;
        let h2 = users2[i].action_history;
        assert(history_ok(h, c));
        assert forall|kk: int| 0 <= kk < h2.len() implies action_ok(#[trigger] h2[kk], next2) by {
            if 0 <= idx < pre.users.len() && i == idx {
                if kk < h.len() {
                    assert(h2[kk] == h[kk]);
                    assert(action_ok(h[kk], c));
                    lemma_action_ok_monotone(h[kk], c, next2);
                } else {
                    assert(h2[kk] == a);
                }
            } else {
                assert(users2[i] == pre.users[i]);
                assert(action_ok(h[kk], c));
                lemma_action_ok_monotone(h[kk], c, next2);
            }
        }
    }
}

/// Every request preserves the server invariants: canvas identifiers stay
/// below the counter, live handles and nicknames stay unique, every session
/// keeps a user record, and every recorded action stays invertible.
pub proof fn lemma_dispatch_preserves_wf(pre: StateView, conn: u64, p: PacketView, now: u64)
    requires
        pre.wf(),
        p matches PacketView::DrawRequest(_) ==> pre.canvas.current_action_id < usize::MAX,
    ensures
        spec_dispatch(pre, conn, p, now).state.wf(),
{
    lemma_find_session_props(pre.sessions, conn);
    match active_user(pre, conn) {
        Some(name) => {
            lemma_user_index_props(pre.users, name);
            let idx = user_index(pre.users, name);
            match p {
                PacketView::DrawRequest(element) => {
                    lemma_wf_draw(pre, name, element);
                },
                PacketView::UpdateRequest(id, element) => {
                    lemma_wf_update(pre, conn, name, id, element);
                },
                PacketView::Delete(id) => {
                    lemma_wf_delete(pre, name, id);
                },
                PacketView::ClearRequest { only_owned } => {
                    lemma_wf_clear(pre, name, only_owned);
                },
                PacketView::Undo => {
                    lemma_wf_undo(pre, name);
                },
                PacketView::Disconnect => {
                    lemma_wf_disconnect(pre, conn, name, now);
                },
                _ => {},
            }
        },
        None => {
            match p {
                PacketView::Connect(name) => {
                    // Under the invariants an unanswered connection has no
                    // session at all.
                    match find_session(pre.sessions, conn) {
                        Some(s) => {
                            let k = choose|k: int|
                                0 <= k < pre.sessions.len() && #[trigger] pre.sessions[k] == s;
                            assert(has_user(pre.users, pre.sessions[k].username));
                            assert(false);
                        },
                        None => {},
                    }
                    lemma_wf_connect(pre, conn, name, now);
                },
                _ => {},
            }
        },
    }
}

proof fn lemma_wf_draw(pre: StateView, name: Seq<char>, element: ElementView)
    requires
        pre.wf(),
        pre.canvas.current_action_id < usize::MAX,
    ensures
        step_draw(pre, name, element).state.wf(),
{
    let c = pre.canvas.current_action_id;
    let next2 = (c + 1) as usize;
    let post = step_draw(pre, name, element).state;
    let idx = user_index(pre.users, name);
    assert forall|i: int| 0 <= i < post.canvas.entries.len() implies #[trigger] post.canvas.entries[i].id
        < next2 by {
        if i < pre.canvas.entries.len() {
            assert(pre.canvas.entries[i].id < c);
        }
    }
    lemma_histories_after_push(pre, idx, ActionView::Draw(c), next2);
    lemma_wf_users_same_names(pre, post.users);
}

proof fn lemma_wf_update(pre: StateView, conn: u64, name: Seq<char>, id: usize, element: ElementView)
    requires
        pre.wf(),
    ensures
        step_update(pre, conn, name, id, element).state.wf(),
{
    let c = pre.canvas.current_action_id;
    let post = step_update(pre, conn, name, id, element).state;
    let idx = user_index(pre.users, name);
    lemma_find_entry_props(pre.canvas.entries, id);
    match find_entry(pre.canvas.entries, id) {
        Some(prev) => {
            let k = choose|k: int|
                #[trigger] first_match(pre.canvas.entries, id, k) && pre.canvas.entries[k] == prev;
            assert(prev.id < c);
            let newe = EntryView { id, shown: prev.shown, element, author: prev.author };
            lemma_replace_first_shape(pre.canvas.entries, id, newe);
            assert forall|i: int|
                0 <= i < post.canvas.entries.len() implies #[trigger] post.canvas.entries[i].id
                < c by {
                assert(post.canvas.entries[i] == newe || post.canvas.entries[i]
                    == pre.canvas.entries[i]);
            }
            lemma_histories_after_push(pre, idx, ActionView::Update(prev), c);
            lemma_wf_users_same_names(pre, post.users);
        },
        None => {},
    }
}

proof fn lemma_wf_delete(pre: StateView, name: Seq<char>, id: usize)
    requires
        pre.wf(),
    ensures
        step_delete(pre, name, id).state.wf(),
{
    let c = pre.canvas.current_action_id;
    let post = step_delete(pre, name, id).state;
    let idx = user_index(pre.users, name);
    lemma_find_entry_props(pre.canvas.entries, id);
    match find_entry(pre.canvas.entries, id) {
        Some(entry) => {
            let k = choose|k: int|
                #[trigger] first_match(pre.canvas.entries, id, k) && pre.canvas.entries[k]
                    == entry;
            assert(entry.id < c);
            lemma_delete_removes(pre.canvas.entries, id);
            assert forall|i: int|
                0 <= i < post.canvas.entries.len() implies #[trigger] post.canvas.entries[i].id
                < c by {
                let m = choose|m: int|
                    0 <= m < pre.canvas.entries.len() && pre.canvas.entries[m]
                        == post.canvas.entries[i];
                assert(pre.canvas.entries[m].id < c);
            }
            lemma_histories_after_push(pre, idx, ActionView::Delete(entry), c);
            lemma_wf_users_same_names(pre, post.users);
        },
        None => {},
    }
}

proof fn lemma_wf_clear(pre: StateView, name: Seq<char>, only_owned: bool)
    requires
        pre.wf(),
    ensures
        step_clear(pre, name, only_owned).state.wf(),
{
    let c = pre.canvas.current_action_id;
    let post = step_clear(pre, name, only_owned).state;
    let idx = user_index(pre.users, name);
    lemma_clear_keep_subset(pre.canvas.entries, name, only_owned);
    assert forall|i: int|
        0 <= i < post.canvas.entries.len() implies #[trigger] post.canvas.entries[i].id < c by {
        let m = choose|m: int|
            0 <= m < pre.canvas.entries.len() && pre.canvas.entries[m] == post.canvas.entries[i];
        assert(pre.canvas.entries[m].id < c);
    }
    lemma_histories_after_push(pre, idx, ActionView::Clear(pre.canvas), c);
    lemma_wf_users_same_names(pre, post.users);
}

proof fn lemma_wf_undo(pre: StateView, name: Seq<char>)
    requires
        pre.wf(),
        has_user(pre.users, name),
    ensures
        step_undo(pre, name).state.wf(),
{
    let c = pre.canvas.current_action_id;
    let post = step_undo(pre, name).state;
    lemma_user_index_props(pre.users, name);
    let idx = user_index(pre.users, name);
    let h = pre.users[idx].action_history;
    if h.len() > 0 {
        assert(history_ok(h, c));
        let last = h[h.len() - 1];
        assert(action_ok(last, c));
        // the shortened history still respects any counter at least `c`
        let next2 = post.canvas.current_action_id;
        assert(c <= next2);
        let users2 = set_history_at(pre.users, idx, h.drop_last());
        assert forall|i: int| 0 <= i < users2.len() implies history_ok(
            (#[trigger] users2[i]).action_history,
            next2,
        ) by {
            let hi = users2[i].action_history;
            assert forall|kk: int| 0 <= kk < hi.len() implies action_ok(
                #[trigger] hi[kk],
                next2,
            ) by {
                if i == idx {
                    assert(hi[kk] == h[kk]);
                    assert(action_ok(h[kk], c));
                    lemma_action_ok_monotone(h[kk], c, next2);
                } else {
                    assert(users2[i] == pre.users[i]);
                    assert(action_ok(hi[kk], c));
                    lemma_action_ok_monotone(hi[kk], c, next2);
                }
            }
        }
        lemma_wf_users_same_names(pre, users2);
        match last {
            ActionView::Draw(id) => {
                lemma_delete_removes(pre.canvas.entries, id);
                assert forall|i: int|
                    0 <= i < post.canvas.entries.len() implies #[trigger] post.canvas.entries[i].id
                    < next2 by {
                    let m = choose|m: int|
                        0 <= m < pre.canvas.entries.len() && pre.canvas.entries[m]
                            == post.canvas.entries[i];
                    assert(pre.canvas.entries[m].id < c);
                }
            },
            ActionView::Delete(entry) => {
                assert(entry.id < c);
                assert forall|i: int|
                    0 <= i < post.canvas.entries.len() implies #[trigger] post.canvas.entries[i].id
                    < next2 by {
                    if i < pre.canvas.entries.len() {
                        assert(pre.canvas.entries[i].id < c);
                    }
                }
            },
            ActionView::Update(prev) => {
                assert(prev.id < c);
                lemma_replace_first_shape(pre.canvas.entries, prev.id, prev);
                assert forall|i: int|
                    0 <= i < post.canvas.entries.len() implies #[trigger] post.canvas.entries[i].id
                    < next2 by {
                    assert(post.canvas.entries[i] == prev || post.canvas.entries[i]
                        == pre.canvas.entries[i]);
                }
            },
            ActionView::Clear(cv) => {
                assert(cv.ids_bounded() && cv.current_action_id <= c);
                assert forall|i: int|
                    0 <= i < post.canvas.entries.len() implies #[trigger] post.canvas.entries[i].id
                    < next2 by {
                    assert(cv.entries[i].id < cv.current_action_id);
                }
            },
        }
    }
}

proof fn lemma_wf_disconnect(pre: StateView, conn: u64, name: Seq<char>, now: u64)
    requires
        pre.wf(),
    ensures
        step_disconnect(pre, conn, name, now).state.wf(),
{
    let c = pre.canvas.current_action_id;
    let post = step_disconnect(pre, conn, name, now).state;
    let idx = user_index(pre.users, name);
    lemma_remove_sessions_unique(pre.sessions, conn);
    lemma_remove_sessions_removes(pre.sessions, conn);
    let users2 = set_login_at(pre.users, idx, now);
    assert forall|i: int| 0 <= i < users2.len() implies history_ok(
        (#[trigger] users2[i]).action_history,
        c,
    ) by {
        if 0 <= idx < pre.users.len() && i == idx {
            assert(users2[i].action_history == pre.users[i].action_history);
        } else {
            assert(users2[i] == pre.users[i]);
        }
    }
    lemma_wf_users_same_names(pre, users2);
    // every surviving session still has its user record
    assert forall|i: int| 0 <= i < post.sessions.len() implies has_user(
        users2,
        #[trigger] post.sessions[i].username,
    ) by {
        let m = choose|m: int|
            0 <= m < pre.sessions.len() && pre.sessions[m] == post.sessions[i];
        assert(has_user(pre.users, pre.sessions[m].username));
        lemma_user_index_same_names(users2, pre.users, pre.sessions[m].username);
    }
}

proof fn lemma_wf_connect(pre: StateView, conn: u64, name: Seq<char>, now: u64)
    requires
        pre.wf(),
        find_session(pre.sessions, conn) is None,
    ensures
        step_connect(pre, conn, name, now).state.wf(),
{
    if !has_username(pre.sessions, name) {
        let c = pre.canvas.current_action_id;
        let post = step_connect(pre, conn, name, now).state;
        lemma_find_session_props(pre.sessions, conn);
        lemma_user_index_props(pre.users, name);
        let idx = user_index(pre.users, name);
        let sessions2 = pre.sessions.push(SessionView { conn, username: name });
        // no live session holds the nickname
        assert forall|j: int| 0 <= j < pre.sessions.len() implies #[trigger] pre.sessions[j].username
            != name by {
            if pre.sessions[j].username == name {
                assert(has_username(pre.sessions, name));
            }
        }
        // handles and nicknames stay pairwise distinct
        assert forall|i: int, j: int| 0 <= i < j < sessions2.len() implies #[trigger] sessions2[i].conn
            != #[trigger] sessions2[j].conn by {
            if j < pre.sessions.len() {
                assert(pre.sessions[i].conn != pre.sessions[j].conn);
            } else {
                assert(pre.sessions[i].conn != conn);
            }
        }
        assert forall|i: int, j: int|
            0 <= i < j < sessions2.len() implies #[trigger] sessions2[i].username
            != #[trigger] sessions2[j].username by {
            if j < pre.sessions.len() {
                assert(pre.sessions[i].username != pre.sessions[j].username);
            } else {
                assert(pre.sessions[i].username != name);
            }
        }
        let users2 = connect_users(pre.users, name, now);
        if idx == -1 {
            // a fresh record is appended under a nickname nobody holds
            assert forall|i: int, j: int|
                0 <= i < j < users2.len() implies #[trigger] users2[i].username
                != #[trigger] users2[j].username by {
                if j < pre.users.len() {
                    assert(pre.users[i].username != pre.users[j].username);
                } else {
                    assert(pre.users[i].username != name);
                }
            }
            assert forall|i: int| 0 <= i < sessions2.len() implies has_user(
                users2,
                #[trigger] sessions2[i].username,
            ) by {
                lemma_user_index_props(users2, sessions2[i].username);
                if user_index(users2, sessions2[i].username) == -1 {
                    if i < pre.sessions.len() {
                        lemma_user_index_props(pre.users, pre.sessions[i].username);
                        let m = user_index(pre.users, pre.sessions[i].username);
                        assert(has_user(pre.users, pre.sessions[i].username));
                        assert(users2[m].username == sessions2[i].username);
                    } else {
                        assert(users2[users2.len() - 1].username == name);
                    }
                    assert(false);
                }
            }
            assert forall|i: int| 0 <= i < users2.len() implies history_ok(
                (#[trigger] users2[i]).action_history,
                c,
            ) by {
                if i < pre.users.len() {
                    assert(users2[i] == pre.users[i]);
                }
            }
        } else {
            assert(users2.len() == pre.users.len());
            assert forall|i: int| 0 <= i < users2.len() implies #[trigger] users2[i].username
                == pre.users[i].username by {}
            lemma_wf_users_same_names(pre, users2);
            assert forall|i: int| 0 <= i < sessions2.len() implies has_user(
                users2,
                #[trigger] sessions2[i].username,
            ) by {
                if i < pre.sessions.len() {
                    assert(has_user(users2, pre.sessions[i].username));
                } else {
                    lemma_user_index_props(users2, name);
                    if user_index(users2, name) == -1 {
                        assert(users2[idx].username == name);
                        assert(false);
                    }
                }
            }
            assert forall|i: int| 0 <= i < users2.len() implies history_ok(
                (#[trigger] users2[i]).action_history,
                c,
            ) by {
                if i == idx {
                    let h2 = users2[i].action_history;
                    assert forall|kk: int| 0 <= kk < h2.len() implies action_ok(
                        #[trigger] h2[kk],
                        c,
                    ) by {
                        assert(h2[kk] == pre.users[i].action_history[kk]);
                        assert(action_ok(pre.users[i].action_history[kk], c));
                    }
                } else {
                    assert(users2[i] == pre.users[i]);
                }
            }
        }
    }
}

} // verus!
