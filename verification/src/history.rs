//! An in-memory list of commands with a cursor for walking back and forth
//! through earlier entries. Loading the list from storage and writing it
//! back are the surrounding program's business: the history itself only
//! keeps commands and moves the cursor.

use vstd::prelude::*;

verus! {

/// The abstract value of a [`History`]: the commands in insertion order and
/// the cursor, where one is set.
#[verifier::ext_equal]
pub struct HistoryView {
    /// The remembered commands, oldest first.
    pub commands: Seq<Seq<char>>,
    /// The entry the walk stands on, absent before any walk and after any
    /// addition.
    pub cursor: Option<int>,
}

/// Well-formedness: a set cursor is an index into the commands.
pub open spec fn history_wf(v: HistoryView) -> bool {
    match v.cursor {
        Some(i) => 0 <= i < v.commands.len(),
        None => true,
    }
}

/// Where the cursor lands on a step to the previous entry: one entry back
/// while there is room; from the front, or with no cursor set, around to
/// the most recent entry; nowhere when there are no entries.
pub open spec fn prev_cursor(v: HistoryView) -> Option<int> {
    match v.cursor {
        Some(i) => if i > 0 {
            Some(i - 1)
        } else if v.commands.len() > 0 {
            Some(v.commands.len() - 1)
        } else {
            None
        },
        None => if v.commands.len() > 0 {
            Some(v.commands.len() - 1)
        } else {
            None
        },
    }
}

/// Where the cursor lands on a step to the next entry: one entry forward
/// while a newer entry exists, nowhere from the newest entry or with no
/// cursor set.
pub open spec fn next_cursor(v: HistoryView) -> Option<int> {
    match v.cursor {
        Some(i) => if i + 1 < v.commands.len() {
            Some(i + 1)
        } else {
            None
        },
        None => None,
    }
}

/// A list of commands with a cursor for recalling earlier entries.
pub struct History {
    /// The remembered commands, oldest first.
    commands: Vec<String>,
    /// The entry the walk stands on, if a walk is under way.
    current_index: Option<usize>,
}

impl View for History {
    type V = HistoryView;

    closed spec fn view(&self) -> HistoryView {
        HistoryView {
            commands: self.commands@.map_values(|s: String| s@),
            cursor: match self.current_index {
                Some(i) => Some(i as int),
                None => None,
            },
        }
    }
}

impl History {
    /// A set cursor is always an index into the commands.
    pub open spec fn wf(&self) -> bool {
        history_wf(self@)
    }

    /// An empty history with no cursor set.
    pub fn new() -> (r: History)
        ensures
            r.wf(),
            r@.commands.len() == 0,
            r@.cursor is None,
    {
        History { commands: Vec::new(), current_index: None }
    }

    /// Remember one more command; any walk under way ends, so that the next
    /// backward step starts from the newest entry again.
    pub fn add(&mut self, command: String)
        requires
            old(self).wf(),
        ensures
            final(self).wf(),
            final(self)@.commands == old(self)@.commands.push(command@),
            final(self)@.cursor is None,
    {
        self.commands.push(command);
        self.current_index = None;
        proof {
            assert(self@.commands =~= old(self)@.commands.push(command@));
        }
    }

    /// Step to the previous entry and return it: one entry back while there
    /// is room, around to the most recent entry from the front or when no
    /// walk is under way, and nothing at all when the history is empty.
    pub fn previous(&mut self) -> (r: Option<&String>)
        requires
            old(self).wf(),
        ensures
            final(self).wf(),
            final(self)@.commands == old(self)@.commands,
            final(self)@.cursor == prev_cursor(old(self)@),
            match prev_cursor(old(self)@) {
                Some(i) => r matches Some(s) && s@ == old(self)@.commands[i],
                None => r is None,
            },
    {
        let index: Option<usize> = match self.current_index {
            Some(i) => if i > 0 {
                Some(i - 1)
            } else if self.commands.len() > 0 {
                Some(self.commands.len() - 1)
            } else {
                None
            },
            None => if self.commands.len() > 0 {
                Some(self.commands.len() - 1)
            } else {
                None
            },
        };
        self.current_index = index;
        match index {
            Some(i) => Some(&self.commands[i]),
            None => None,
        }
    }

    /// Step to the next entry and return it: one entry forward while a newer
    /// entry exists, nothing from the newest entry or when no walk is under
    /// way.
    pub fn next(&mut self) -> (r: Option<&String>)
        requires
            old(self).wf(),
        ensures
            final(self).wf(),
            final(self)@.commands == old(self)@.commands,
            final(self)@.cursor == next_cursor(old(self)@),
            match next_cursor(old(self)@) {
                Some(i) => r matches Some(s) && s@ == old(self)@.commands[i],
                None => r is None,
            },
    {
        let index: Option<usize> = match self.current_index {
            Some(i) => if i < self.commands.len() - 1 {
                Some(i + 1)
            } else {
                None
            },
            None => None,
        };
        self.current_index = index;
        match index {
            Some(i) => Some(&self.commands[i]),
            None => None,
        }
    }

    /// The remembered commands, oldest first.
    pub fn get_commands(&self) -> (r: &Vec<String>)
        ensures
            r@.map_values(|s: String| s@) == self@.commands,
    {
        &self.commands
    }
}

} // verus!
