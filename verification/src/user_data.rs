//! Per-nickname state: the undo history and the last time the user was seen.
//!
//! A user record is keyed by nickname, not by connection, so it survives a
//! disconnect; whether the history survives a reconnect is decided by the
//! freshness window in the dispatcher.

use crate::canvas::{Canvas, CanvasEntry, CanvasView, EntryView};
use vstd::prelude::*;

verus! {

/// What it takes to invert one canvas mutation. Pushed by the dispatcher
/// after each successful mutation; popped only by an undo.
#[derive(Debug, Clone, PartialEq)]
pub enum Action {
    /// A deletion happened; the removed entry, to re-append it.
    Delete(CanvasEntry),
    /// A draw happened; the assigned identifier, to delete it.
    Draw(usize),
    /// An update happened; the entry as it stood before, to put it back.
    Update(CanvasEntry),
    /// A clear happened; the whole canvas as it stood before, to restore it.
    Clear(Canvas),
}

/// Mathematical model of an [`Action`].
pub ghost enum ActionView {
    Delete(EntryView),
    Draw(usize),
    Update(EntryView),
    Clear(CanvasView),
}

impl View for Action {
    type V = ActionView;

    open spec fn view(&self) -> ActionView {
        match self {
            Action::Delete(e) => ActionView::Delete(e@),
            Action::Draw(id) => ActionView::Draw(*id),
            Action::Update(e) => ActionView::Update(e@),
            Action::Clear(c) => ActionView::Clear(c@),
        }
    }
}

impl DeepView for Action {
    type V = ActionView;

    open spec fn deep_view(&self) -> ActionView {
        self.view()
    }
}

/// One user's record: nickname, undo stack, and the seconds timestamp of the
/// last connect or disconnect (`None` until the first connect is processed).
#[derive(Debug, Clone, PartialEq)]
pub struct UserData {
    pub username: String,
    pub action_history: Vec<Action>,
    pub last_login: Option<u64>,
}

/// Mathematical model of a [`UserData`].
pub ghost struct UserView {
    pub username: Seq<char>,
    pub action_history: Seq<ActionView>,
    pub last_login: Option<u64>,
}

impl View for UserData {
    type V = UserView;

    open spec fn view(&self) -> UserView {
        UserView {
            username: self.username@,
            action_history: self.action_history.deep_view(),
            last_login: self.last_login,
        }
    }
}

impl DeepView for UserData {
    type V = UserView;

    open spec fn deep_view(&self) -> UserView {
        self.view()
    }
}

impl UserData {
    /// A fresh record: empty history, never seen.
    pub fn new(username: &str) -> (r: Self)
        ensures
            r@.username == username@,
            r@.action_history == Seq::<ActionView>::empty(),
            r@.last_login is None,
    {
        let r = UserData { username: username.to_owned(), action_history: Vec::new(), last_login: None };
        proof {
            assert(r@.action_history =~= Seq::<ActionView>::empty());
        }
        r
    }
}

} // verus!
