//! The shared server state: the authoritative canvas, the registry of live
//! sessions, and the per-nickname user records.
//!
//! A connection is identified by a plain `u64` handle; the network layer
//! around this crate owns the sockets and maps each to its handle. The
//! registry enforces one live session per nickname; a nickname freed by a
//! disconnect is immediately reusable.

use crate::canvas::{Canvas, CanvasView, EntryView};
use crate::errors::{ServerError, ServerErrorView};
use crate::user_data::{ActionView, UserData, UserView};
use vstd::prelude::*;

verus! {

/// One live, authenticated connection.
#[derive(Debug, Clone, PartialEq)]
pub struct Session {
    pub conn: u64,
    pub username: String,
}

/// Mathematical model of a [`Session`].
pub ghost struct SessionView {
    pub conn: u64,
    pub username: Seq<char>,
}

impl View for Session {
    type V = SessionView;

    open spec fn view(&self) -> SessionView {
        SessionView { conn: self.conn, username: self.username@ }
    }
}

impl DeepView for Session {
    type V = SessionView;

    open spec fn deep_view(&self) -> SessionView {
        self.view()
    }
}

impl Session {
    pub fn new(conn: u64, username: String) -> (r: Self)
        ensures
            r@ == (SessionView { conn, username: username@ }),
    {
        Session { conn, username }
    }
}

/// The whole shared state, to be guarded by one lock in the network layer.
#[derive(Debug)]
pub struct ServerState {
    pub canvas: Canvas,
    pub sessions: Vec<Session>,
    pub users: Vec<UserData>,
}

/// Mathematical model of a [`ServerState`].
pub ghost struct StateView {
    pub canvas: CanvasView,
    pub sessions: Seq<SessionView>,
    pub users: Seq<UserView>,
}

impl View for ServerState {
    type V = StateView;

    open spec fn view(&self) -> StateView {
        StateView {
            canvas: self.canvas@,
            sessions: self.sessions.deep_view(),
            users: self.users.deep_view(),
        }
    }
}

/// The first session bound to `conn`, scanning from the front.
pub open spec fn find_session(sessions: Seq<SessionView>, conn: u64) -> Option<SessionView>
    decreases sessions.len(),
{
    if sessions.len() == 0 {
        None
    } else if sessions[0].conn == conn {
        Some(sessions[0])
    } else {
        find_session(sessions.drop_first(), conn)
    }
}

/// Whether some live session holds `name`.
pub open spec fn has_username(sessions: Seq<SessionView>, name: Seq<char>) -> bool {
    exists|i: int| 0 <= i < sessions.len() && #[trigger] sessions[i].username == name
}

/// `sessions` without every session bound to `conn`; order otherwise kept.
pub open spec fn remove_sessions(sessions: Seq<SessionView>, conn: u64) -> Seq<SessionView>
    decreases sessions.len(),
{
    if sessions.len() == 0 {
        Seq::empty()
    } else {
        let rest = remove_sessions(sessions.drop_last(), conn);
        if sessions.last().conn == conn {
            rest
        } else {
            rest.push(sessions.last())
        }
    }
}

/// The position of the record named `name`, or -1 if there is none
/// (first match, scanning from the front).
pub open spec fn user_index(users: Seq<UserView>, name: Seq<char>) -> int
    decreases users.len(),
{
    if users.len() == 0 {
        -1
    } else if users[0].username == name {
        0
    } else {
        let r = user_index(users.drop_first(), name);
        if r == -1 {
            -1
        } else {
            r + 1
        }
    }
}

/// Whether a record named `name` exists.
pub open spec fn has_user(users: Seq<UserView>, name: Seq<char>) -> bool {
    user_index(users, name) != -1
}

/// The connection handle of each live session, in registration order.
pub open spec fn session_conns(sessions: Seq<SessionView>) -> Seq<u64> {
    sessions.map_values(|s: SessionView| s.conn)
}

/// What `user_index` returns: a valid position whose record carries `name`
/// and before which no record does, or -1 when no record carries `name`.
pub proof fn lemma_user_index_props(users: Seq<UserView>, name: Seq<char>)
    ensures
        -1 <= user_index(users, name) < users.len(),
        user_index(users, name) >= 0 ==> users[user_index(users, name)].username == name
            && (forall|j: int|
            0 <= j < user_index(users, name) ==> #[trigger] users[j].username != name),
        user_index(users, name) == -1 ==> (forall|j: int|
            0 <= j < users.len() ==> #[trigger] users[j].username != name),
    decreases users.len(),
{
    if users.len() > 0 && users[0].username != name {
        lemma_user_index_props(users.drop_first(), name);
        let r = user_index(users.drop_first(), name);
        if r >= 0 {
            assert forall|j: int| 0 <= j < user_index(users, name) implies #[trigger] users[j].username
                != name by {
                if j > 0 {
                    assert(users.drop_first()[j - 1].username != name);
                }
            }
        } else {
            assert forall|j: int| 0 <= j < users.len() implies #[trigger] users[j].username
                != name by {
                if j > 0 {
                    assert(users.drop_first()[j - 1].username != name);
                }
            }
        }
    }
}

/// If `k` is the first position bound to `conn`, the scan finds that session.
pub proof fn lemma_find_session_first_match(sessions: Seq<SessionView>, conn: u64, k: int)
    requires
        0 <= k < sessions.len(),
        sessions[k].conn == conn,
        forall|j: int| 0 <= j < k ==> #[trigger] sessions[j].conn != conn,
    ensures
        find_session(sessions, conn) == Some(sessions[k]),
    decreases k,
{
    if k > 0 {
        lemma_find_session_first_match(sessions.drop_first(), conn, k - 1);
    }
}

/// If no session is bound to `conn`, the scan finds nothing.
pub proof fn lemma_find_session_no_match(sessions: Seq<SessionView>, conn: u64)
    requires
        forall|j: int| 0 <= j < sessions.len() ==> #[trigger] sessions[j].conn != conn,
    ensures
        find_session(sessions, conn) is None,
    decreases sessions.len(),
{
    if sessions.len() > 0 {
        lemma_find_session_no_match(sessions.drop_first(), conn);
    }
}

/// Removal removes exactly the sessions bound to `conn`: no survivor is bound
/// to it, and each survivor comes from the original sequence.
pub proof fn lemma_remove_sessions_removes(sessions: Seq<SessionView>, conn: u64)
    ensures
        forall|j: int|
            0 <= j < remove_sessions(sessions, conn).len() ==> #[trigger] remove_sessions(
                sessions,
                conn,
            )[j].conn != conn,
        forall|j: int|
            0 <= j < remove_sessions(sessions, conn).len() ==> sessions.contains(
                #[trigger] remove_sessions(sessions, conn)[j],
            ),
    decreases sessions.len(),
{
    if sessions.len() > 0 {
        lemma_remove_sessions_removes(sessions.drop_last(), conn);
        assert forall|j: int|
            0 <= j < remove_sessions(sessions, conn).len() implies sessions.contains(
            #[trigger] remove_sessions(sessions, conn)[j],
        ) by {
            let d = remove_sessions(sessions, conn);
            let dprev = remove_sessions(sessions.drop_last(), conn);
            if j < dprev.len() {
                let k = choose|k: int|
                    0 <= k < sessions.drop_last().len() && sessions.drop_last()[k] == dprev[j];
                assert(sessions[k] == d[j]);
            } else {
                assert(sessions[sessions.len() - 1] == d[j]);
            }
        }
    }
}

impl ServerState {
    /// A server with an empty canvas, no sessions and no user records.
    pub fn new() -> (r: Self)
        ensures
            r@.canvas.entries == Seq::<EntryView>::empty(),
            r@.canvas.current_action_id == 0,
            r@.sessions == Seq::<SessionView>::empty(),
            r@.users == Seq::<UserView>::empty(),
    {
        let r = ServerState { canvas: Canvas::new(), sessions: Vec::new(), users: Vec::new() };
        proof {
            assert(r@.sessions =~= Seq::<SessionView>::empty());
            assert(r@.users =~= Seq::<UserView>::empty());
        }
        r
    }

    /// Registers a session for `conn` under `username`, unless some live
    /// session already holds that nickname.
    pub fn connect_user(&mut self, conn: u64, username: String) -> (r: Result<(), ServerError>)
        ensures
            match r {
                Ok(_) => {
                    &&& !has_username(old(self)@.sessions, username@)
                    &&& final(self)@.sessions == old(self)@.sessions.push(
                        SessionView { conn, username: username@ },
                    )
                    &&& final(self).canvas == old(self).canvas
                    &&& final(self).users == old(self).users
                },
                Err(e) => {
                    &&& has_username(old(self)@.sessions, username@)
                    &&& e@ == ServerErrorView::UsernameTaken(username@)
                    &&& *final(self) == *old(self)
                },
            },
    {
        let mut i: usize = 0;
        while i < self.sessions.len()
            invariant
                *self == *old(self),
                i <= self@.sessions.len(),
                forall|j: int| 0 <= j < i ==> #[trigger] self@.sessions[j].username != username@,
            decreases self@.sessions.len() - i,
        {
            if self.sessions[i].username == username {
                proof {
                    assert(self@.sessions[i as int].username == username@);
                    assert(has_username(self@.sessions, username@));
                }
                return Err(ServerError::UsernameTaken(username));
            }
            i = i + 1;
        }
        let ghost pre = self@.sessions;
        let s = Session::new(conn, username);
        let ghost sv = s@;
        self.sessions.push(s);
        proof {
            assert(self@.sessions =~= pre.push(sv));
        }
        Ok(())
    }

    /// Removes the session bound to `conn`, if any; idempotent.
    pub fn disconnect_user(&mut self, conn: u64)
        ensures
            final(self)@.sessions == remove_sessions(old(self)@.sessions, conn),
            final(self).canvas == old(self).canvas,
            final(self).users == old(self).users,
    {
        let ghost pre = self@.sessions;
        let mut kept: Vec<Session> = Vec::new();
        let mut i: usize = 0;
        while i < self.sessions.len()
            invariant
                i <= self@.sessions.len(),
                pre == old(self)@.sessions,
                *self == *old(self),
                kept.deep_view() == remove_sessions(pre.take(i as int), conn),
            decreases self@.sessions.len() - i,
        {
            let ghost before = kept.deep_view();
            if self.sessions[i].conn != conn {
                let s = &self.sessions[i];
                kept.push(Session { conn: s.conn, username: s.username.clone() });
                proof {
                    assert(kept.deep_view() =~= before.push(pre[i as int]));
                }
            }
            proof {
                assert(pre.take(i + 1 as int).drop_last() =~= pre.take(i as int));
                assert(pre.take(i + 1 as int).last() == pre[i as int]);
            }
            i = i + 1;
        }
        proof {
            assert(pre.take(pre.len() as int) =~= pre);
        }
        self.sessions = kept;
    }

    /// The nickname bound to `conn`, if that connection is authenticated.
    pub fn get_username(&self, conn: u64) -> (r: Option<&String>)
        ensures
            match r {
                Some(s) => find_session(self@.sessions, conn) matches Some(sv) && sv.username
                    == s@,
                None => find_session(self@.sessions, conn) is None,
            },
    {
        let mut i: usize = 0;
        while i < self.sessions.len()
            invariant
                i <= self@.sessions.len(),
                forall|j: int| 0 <= j < i ==> #[trigger] self@.sessions[j].conn != conn,
            decreases self@.sessions.len() - i,
        {
            if self.sessions[i].conn == conn {
                proof {
                    lemma_find_session_first_match(self@.sessions, conn, i as int);
                }
                return Some(&self.sessions[i].username);
            }
            i = i + 1;
        }
        proof {
            lemma_find_session_no_match(self@.sessions, conn);
        }
        None
    }

    /// The connection handles to fan a broadcast out to: every live session,
    /// in registration order. A connection that has not authenticated has no
    /// session and so is never a target.
    pub fn broadcast_targets(&self) -> (r: Vec<u64>)
        ensures
            r@ == session_conns(self@.sessions),
    {
        let ghost all = session_conns(self@.sessions);
        let mut r: Vec<u64> = Vec::new();
        let mut i: usize = 0;
        proof {
            assert(r@ =~= all.take(0));
        }
        while i < self.sessions.len()
            invariant
                i <= self@.sessions.len(),
                all == session_conns(self@.sessions),
                r@ == all.take(i as int),
            decreases self@.sessions.len() - i,
        {
            r.push(self.sessions[i].conn);
            proof {
                assert(r@ =~= all.take(i + 1 as int));
            }
            i = i + 1;
        }
        proof {
            assert(all.take(all.len() as int) =~= all);
        }
        r
    }

    /// The position of the record named `username`, if there is one.
    pub fn user_slot(&self, username: &String) -> (r: Option<usize>)
        ensures
            match r {
                Some(i) => user_index(self@.users, username@) == i as int,
                None => user_index(self@.users, username@) == -1,
            },
    {
        let mut i: usize = 0;
        while i < self.users.len()
            invariant
                i <= self@.users.len(),
                forall|j: int| 0 <= j < i ==> #[trigger] self@.users[j].username != username@,
            decreases self@.users.len() - i,
        {
            if self.users[i].username == *username {
                proof {
                    lemma_user_index_first_match(self@.users, username@, i as int);
                }
                return Some(i);
            }
            i = i + 1;
        }
        proof {
            lemma_user_index_no_match(self@.users, username@);
        }
        None
    }
}

/// If `k` is the first position whose record carries `name`, `user_index`
/// yields `k`.
pub proof fn lemma_user_index_first_match(users: Seq<UserView>, name: Seq<char>, k: int)
    requires
        0 <= k < users.len(),
        users[k].username == name,
        forall|j: int| 0 <= j < k ==> #[trigger] users[j].username != name,
    ensures
        user_index(users, name) == k,
    decreases k,
{
    if k > 0 {
        lemma_user_index_first_match(users.drop_first(), name, k - 1);
    }
}

/// If no record carries `name`, `user_index` yields -1.
pub proof fn lemma_user_index_no_match(users: Seq<UserView>, name: Seq<char>)
    requires
        forall|j: int| 0 <= j < users.len() ==> #[trigger] users[j].username != name,
    ensures
        user_index(users, name) == -1,
    decreases users.len(),
{
    if users.len() > 0 {
        lemma_user_index_no_match(users.drop_first(), name);
    }
}

/// What one recorded action demands of the identifier counter: every
/// identifier it could put back on the canvas is already below the counter.
pub open spec fn action_ok(a: ActionView, next: usize) -> bool {
    match a {
        ActionView::Delete(e) => e.id < next,
        ActionView::Draw(_) => true,
        ActionView::Update(e) => e.id < next,
        ActionView::Clear(c) => c.ids_bounded() && c.current_action_id <= next,
    }
}

pub open spec fn history_ok(h: Seq<ActionView>, next: usize) -> bool {
    forall|k: int| 0 <= k < h.len() ==> action_ok(#[trigger] h[k], next)
}

impl StateView {
    /// The server invariants: identifiers on the canvas stay below the
    /// counter; connection handles and nicknames of live sessions are unique;
    /// user records are unique per nickname; every live session has a user
    /// record; and every recorded action only ever puts back identifiers that
    /// are below the counter.
    pub open spec fn wf(self) -> bool {
        &&& self.canvas.ids_bounded()
        &&& forall|i: int, j: int|
            0 <= i < j < self.sessions.len() ==> #[trigger] self.sessions[i].conn
                != #[trigger] self.sessions[j].conn
        &&& forall|i: int, j: int|
            0 <= i < j < self.sessions.len() ==> #[trigger] self.sessions[i].username
                != #[trigger] self.sessions[j].username
        &&& forall|i: int, j: int|
            0 <= i < j < self.users.len() ==> #[trigger] self.users[i].username
                != #[trigger] self.users[j].username
        &&& forall|i: int|
            0 <= i < self.sessions.len() ==> has_user(
                self.users,
                #[trigger] self.sessions[i].username,
            )
        &&& forall|i: int|
            0 <= i < self.users.len() ==> history_ok(
                (#[trigger] self.users[i]).action_history,
                self.canvas.current_action_id,
            )
    }
}

} // verus!
