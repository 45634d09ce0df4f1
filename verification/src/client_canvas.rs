//! The client's mirror of the canvas and the commands its interface issues.
//!
//! The rendering loop and the command prompt live outside this crate; they
//! hand commands in and take entries to display back.

use crate::canvas::{
    clone_element, clone_entry, delete_entries, find_entry, replace_first, Canvas, CanvasElement,
    CanvasEntry, EntryView,
};
use vstd::prelude::*;

verus! {

/// The drawing tool a client command refers to.
#[derive(Debug, Clone, Copy, PartialEq, Eq)]
pub enum ToolType {
    Line,
    Circle,
    Rectangle,
    Text,
}

/// Whose entries a listing should show.
#[derive(Debug, Clone, PartialEq, Eq)]
pub enum Ownership {
    Mine,
    All,
}

/// What a listing should show: optionally one tool's entries, and either
/// everyone's or only the user's own.
#[derive(Debug, Clone, PartialEq, Eq)]
pub struct Filter {
    pub tool_type: Option<ToolType>,
    pub ownership: Ownership,
}

/// One command for the client's canvas, issued by the prompt or by a message
/// from the server.
#[derive(Debug, Clone, PartialEq)]
pub enum CanvasCommand {
    Draw(CanvasEntry),
    Delete(usize),
    Overwrite(usize, CanvasEntry),
    List(Filter),
    ChangeTool(ToolType),
    ChangeColour([u8; 4]),
    ShowAll,
    ShowMine,
}

/// What processing one command asks of the interface around this type:
/// nothing, a listing to print, or a complaint about a missing entry.
#[derive(Debug, Clone, PartialEq)]
pub enum CommandFeedback {
    Done,
    Listing(Vec<CanvasEntry>),
    MissingEntry(usize),
}

/// The client's state: its copy of the canvas plus the interface selections.
#[derive(Debug)]
pub struct ClientCanvas {
    pub nickname: String,
    pub canvas: Canvas,
    pub selected_tool: ToolType,
    pub selected_colour: [u8; 4],
    pub user_decided_to_exit: bool,
    pub show_exit_dialog: bool,
}

/// Every entry marked as shown.
pub open spec fn shown_all(entries: Seq<EntryView>) -> Seq<EntryView> {
    entries.map_values(
        |e: EntryView| EntryView { id: e.id, shown: true, element: e.element, author: e.author },
    )
}

/// Only the entries authored by `nick` marked as shown.
pub open spec fn shown_mine(entries: Seq<EntryView>, nick: Seq<char>) -> Seq<EntryView> {
    entries.map_values(
        |e: EntryView| EntryView {
            id: e.id,
            shown: e.author == nick,
            element: e.element,
            author: e.author,
        },
    )
}

/// Whether one entry passes a listing filter for the user named `nick`.
pub open spec fn matches_filter(e: EntryView, f: Filter, nick: Seq<char>) -> bool {
    &&& match f.tool_type {
        Some(ToolType::Line) => e.element is Line,
        Some(ToolType::Circle) => e.element is Circle,
        Some(ToolType::Rectangle) => e.element is Rect,
        Some(ToolType::Text) => e.element is Text,
        None => true,
    }
    &&& match f.ownership {
        Ownership::All => true,
        Ownership::Mine => e.author == nick,
    }
}

/// The entries a listing shows, in canvas order.
pub open spec fn list_filter(entries: Seq<EntryView>, f: Filter, nick: Seq<char>) -> Seq<EntryView>
    decreases entries.len(),
{
    if entries.len() == 0 {
        Seq::empty()
    } else {
        let rest = list_filter(entries.drop_last(), f, nick);
        if matches_filter(entries.last(), f, nick) {
            rest.push(entries.last())
        } else {
            rest
        }
    }
}

impl ClientCanvas {
    /// A client that just joined: empty canvas, line tool, opaque black.
    pub fn new(nickname: String) -> (r: Self)
        ensures
            r.nickname@ == nickname@,
            r.canvas@.entries == Seq::<EntryView>::empty(),
            r.canvas@.current_action_id == 0,
            r.selected_tool == ToolType::Line,
            r.selected_colour@ == seq![0u8, 0u8, 0u8, 255u8],
            !r.user_decided_to_exit,
            !r.show_exit_dialog,
    {
        let r = ClientCanvas {
            nickname,
            canvas: Canvas::new(),
            selected_tool: ToolType::Line,
            selected_colour: [0, 0, 0, 255],
            user_decided_to_exit: false,
            show_exit_dialog: false,
        };
        proof {
            assert(r.selected_colour@ =~= seq![0u8, 0u8, 0u8, 255u8]);
        }
        r
    }

    /// Applies one command to the client's canvas and says what the interface
    /// should do about it.
    pub fn process_command(&mut self, command: CanvasCommand) -> (r: CommandFeedback)
        ensures
            final(self).nickname == old(self).nickname,
            final(self).canvas@.current_action_id == old(self).canvas@.current_action_id,
            match command {
                CanvasCommand::Draw(entry) => {
                    &&& final(self).canvas@.entries == old(self).canvas@.entries.push(entry@)
                    &&& r == CommandFeedback::Done
                },
                CanvasCommand::Delete(id) => {
                    &&& final(self).canvas@.entries == delete_entries(
                        old(self).canvas@.entries,
                        id,
                    )
                    &&& r == CommandFeedback::Done
                },
                CanvasCommand::Overwrite(id, new_entry) => match find_entry(
                    old(self).canvas@.entries,
                    id,
                ) {
                    Some(prev) => {
                        &&& final(self).canvas@.entries == replace_first(
                            old(self).canvas@.entries,
                            id,
                            (EntryView {
                                id: id,
                                shown: prev.shown,
                                element: new_entry.element@,
                                author: prev.author,
                            }),
                        )
                        &&& r == CommandFeedback::Done
                    },
                    None => {
                        &&& final(self).canvas@.entries == old(self).canvas@.entries
                        &&& r == CommandFeedback::MissingEntry(id)
                    },
                },
                CanvasCommand::List(filter) => {
                    &&& final(self).canvas@.entries == old(self).canvas@.entries
                    &&& r matches CommandFeedback::Listing(v) && v.deep_view() == list_filter(
                        old(self).canvas@.entries,
                        filter,
                        old(self).nickname@,
                    )
                },
                CanvasCommand::ChangeTool(tool) => {
                    &&& final(self).canvas@.entries == old(self).canvas@.entries
                    &&& final(self).selected_tool == tool
                    &&& r == CommandFeedback::Done
                },
                CanvasCommand::ChangeColour(colour) => {
                    &&& final(self).canvas@.entries == old(self).canvas@.entries
                    &&& final(self).selected_colour == colour
                    &&& r == CommandFeedback::Done
                },
                CanvasCommand::ShowAll => {
                    &&& final(self).canvas@.entries == shown_all(old(self).canvas@.entries)
                    &&& r == CommandFeedback::Done
                },
                CanvasCommand::ShowMine => {
                    &&& final(self).canvas@.entries == shown_mine(
                        old(self).canvas@.entries,
                        old(self).nickname@,
                    )
                    &&& r == CommandFeedback::Done
                },
            },
    {
        match command {
            CanvasCommand::Draw(entry) => {
                let ghost pre = self.canvas@.entries;
                let ghost ev = entry@;
                self.canvas.entries.push(entry);
                proof {
                    assert(self.canvas@.entries =~= pre.push(ev));
                }
                CommandFeedback::Done
            },
            CanvasCommand::Delete(id) => {
                self.canvas.delete_entry(id);
                CommandFeedback::Done
            },
            CanvasCommand::Overwrite(id, new_entry) => {
                match self.canvas.update_entry(id, &new_entry.element) {
                    Some(_) => CommandFeedback::Done,
                    None => CommandFeedback::MissingEntry(id),
                }
            },
            CanvasCommand::List(filter) => {
                let ghost pre = self.canvas@.entries;
                let mut listed: Vec<CanvasEntry> = Vec::new();
                let mut i: usize = 0;
                while i < self.canvas.entries.len()
                    invariant
                        i <= pre.len(),
                        pre == self.canvas@.entries,
                        self.nickname == old(self).nickname,
                        listed.deep_view() == list_filter(
                            pre.take(i as int),
                            filter,
                            self.nickname@,
                        ),
                    decreases pre.len() - i,
                {
                    let ghost before = listed.deep_view();
                    let e = &self.canvas.entries[i];
                    let keep = (match filter.tool_type {
                        Some(ToolType::Line) => matches!(e.element, CanvasElement::Line { .. }),
                        Some(ToolType::Circle) => matches!(
                            e.element,
                            CanvasElement::Circle { .. }
                        ),
                        Some(ToolType::Rectangle) => matches!(
                            e.element,
                            CanvasElement::Rect { .. }
                        ),
                        Some(ToolType::Text) => matches!(e.element, CanvasElement::Text { .. }),
                        None => true,
                    }) && (match filter.ownership {
                        Ownership::All => true,
                        Ownership::Mine => e.author == self.nickname,
                    });
                    if keep {
                        listed.push(clone_entry(e));
                        proof {
                            assert(listed.deep_view() =~= before.push(pre[i as int]));
                        }
                    }
                    proof {
                        assert(pre.take(i + 1 as int).drop_last() =~= pre.take(i as int));
                        assert(pre.take(i + 1 as int).last() == pre[i as int]);
                    }
                    i = i + 1;
                }
                proof {
                    assert(pre.take(pre.len() as int) =~= pre);
                }
                CommandFeedback::Listing(listed)
            },
            CanvasCommand::ChangeTool(tool) => {
                self.selected_tool = tool;
                CommandFeedback::Done
            },
            CanvasCommand::ChangeColour(colour) => {
                self.selected_colour = colour;
                CommandFeedback::Done
            },
            CanvasCommand::ShowAll => {
                self.reshow(true);
                CommandFeedback::Done
            },
            CanvasCommand::ShowMine => {
                self.reshow(false);
                CommandFeedback::Done
            },
        }
    }

    /// Marks every entry shown (`everyone` true) or only the user's own.
    fn reshow(&mut self, everyone: bool)
        ensures
            final(self).nickname == old(self).nickname,
            final(self).selected_tool == old(self).selected_tool,
            final(self).selected_colour == old(self).selected_colour,
            final(self).user_decided_to_exit == old(self).user_decided_to_exit,
            final(self).show_exit_dialog == old(self).show_exit_dialog,
            final(self).canvas@.current_action_id == old(self).canvas@.current_action_id,
            final(self).canvas@.entries == (if everyone {
                shown_all(old(self).canvas@.entries)
            } else {
                shown_mine(old(self).canvas@.entries, old(self).nickname@)
            }),
    {
        let ghost pre = self.canvas@.entries;
        let ghost target = if everyone {
            shown_all(pre)
        } else {
            shown_mine(pre, self.nickname@)
        };
        let mut updated: Vec<CanvasEntry> = Vec::new();
        let mut i: usize = 0;
        proof {
            assert(updated.deep_view() =~= target.take(0));
        }
        while i < self.canvas.entries.len()
            invariant
                i <= pre.len(),
                pre == self.canvas@.entries,
                self.nickname == old(self).nickname,
                target == (if everyone {
                    shown_all(pre)
                } else {
                    shown_mine(pre, self.nickname@)
                }),
                updated.deep_view() == target.take(i as int),
            decreases pre.len() - i,
        {
            let ghost before = updated.deep_view();
            let e = &self.canvas.entries[i];
            let shown = if everyone {
                true
            } else {
                e.author == self.nickname
            };
            updated.push(
                CanvasEntry {
                    id: e.id,
                    shown,
                    element: clone_element(&e.element),
                    author: e.author.clone(),
                },
            );
            proof {
                assert(updated.deep_view() =~= before.push(target[i as int]));
                assert(updated.deep_view() =~= target.take(i + 1 as int));
            }
            i = i + 1;
        }
        proof {
            assert(target.take(target.len() as int) =~= target);
        }
        self.canvas.entries = updated;
    }
}

} // verus!
