//! UI framework: command registry, tool palette and undo stack.
use vstd::prelude::*;
use vstd::string::*;

use crate::keyed::StrMap;

verus! {

/// A user command with an optional keyboard shortcut.
#[derive(Debug, Clone)]
pub struct Command {
    pub id: String,
    pub label: String,
    pub shortcut: Option<String>,
}

/// Registry of commands, keyed by command id.
#[derive(Debug, Clone)]
pub struct CommandRegistry {
    commands: StrMap<Command>,
}

impl View for CommandRegistry {
    type V = Map<Seq<char>, Command>;

    closed spec fn view(&self) -> Map<Seq<char>, Command> {
        self.commands@
    }
}

impl CommandRegistry {
    /// The underlying map is well formed.
    pub closed spec fn wf(&self) -> bool {
        self.commands.wf()
    }

    /// An empty registry.
    pub fn new() -> (r: Self)
        ensures
            r.wf(),
            r@ == Map::<Seq<char>, Command>::empty(),
    {
        CommandRegistry { commands: StrMap::new() }
    }

    /// Register a command under its id, replacing any command with that id.
    pub fn register(&mut self, cmd: Command)
        requires
            old(self).wf(),
        ensures
            final(self).wf(),
            final(self)@ == old(self)@.insert(cmd.id@, cmd),
            final(self)@.dom().finite(),
    {
        let key = cmd.id.clone();
        self.commands.insert(key, cmd);
        proof {
            self.commands.lemma_finite();
        }
    }

    /// The command with id `id`, if registered.
    pub fn get(&self, id: &str) -> (r: Option<&Command>)
        requires
            self.wf(),
        ensures
            match r {
                Some(c) => self@.contains_key(id@) && *c == self@[id@],
                None => !self@.contains_key(id@),
            },
    {
        self.commands.get(id)
    }

    /// Number of registered commands.
    pub fn len(&self) -> (n: usize)
        requires
            self.wf(),
        ensures
            n == self@.len(),
            self@.dom().finite(),
    {
        self.commands.len()
    }

    /// Whether no command is registered.
    pub fn is_empty(&self) -> (b: bool)
        requires
            self.wf(),
        ensures
            b == (self@.len() == 0),
    {
        self.commands.is_empty()
    }
}

/// The active modelling tool.
#[derive(Debug, Clone, PartialEq, Eq, Structural)]
pub enum Tool {
    Select,
    DrawWall,
    DrawSlab,
    DrawBeam,
    DrawColumn,
    PlaceDoor,
    PlaceWindow,
    Measure,
    NoTool,
}

impl Default for Tool {
    fn default() -> (t: Self)
        ensures
            t == Tool::NoTool,
    {
        Tool::NoTool
    }
}

/// The abstract state of an undo stack: the descriptions recorded so far
/// and the position of the cursor (the number of entries that are undoable).
pub type UndoState = (Seq<Seq<char>>, int);

/// The state after recording `d`: entries beyond the cursor are dropped, `d`
/// is appended, and the cursor moves to the end.
pub open spec fn spec_push(s: UndoState, d: Seq<char>) -> UndoState {
    let h = s.0.take(s.1).push(d);
    (h, h.len() as int)
}

/// Undo: the cursor moves back one entry, which is returned.
pub open spec fn spec_undo(s: UndoState) -> (UndoState, Option<Seq<char>>) {
    if s.1 > 0 {
        ((s.0, s.1 - 1), Some(s.0[s.1 - 1]))
    } else {
        (s, None)
    }
}

/// Redo: the entry at the cursor is returned and the cursor moves past it.
pub open spec fn spec_redo(s: UndoState) -> (UndoState, Option<Seq<char>>) {
    if s.1 < s.0.len() {
        ((s.0, s.1 + 1), Some(s.0[s.1]))
    } else {
        (s, None)
    }
}

/// The cursor lies within the history.
pub open spec fn undo_state_valid(s: UndoState) -> bool {
    0 <= s.1 <= s.0.len()
}

/// A linear undo/redo history of action descriptions.
#[derive(Debug)]
pub struct UndoStack {
    history: Vec<String>,
    position: usize,
}

impl View for UndoStack {
    type V = UndoState;

    closed spec fn view(&self) -> UndoState {
        (self.history@.map_values(|s: String| s@), self.position as int)
    }
}

impl UndoStack {
    /// The cursor lies within the history.
    pub closed spec fn wf(&self) -> bool {
        self.position <= self.history@.len()
    }

    /// What well-formedness gives a caller.
    pub proof fn lemma_wf(&self)
        requires
            self.wf(),
        ensures
            undo_state_valid(self@),
    {
    }

    /// An empty stack.
    pub fn new() -> (s: Self)
        ensures
            s.wf(),
            s@ == (Seq::<Seq<char>>::empty(), 0int),
    {
        let s = UndoStack { history: Vec::new(), position: 0 };
        assert(s@.0 =~= Seq::<Seq<char>>::empty());
        s
    }

    /// Record an action, discarding anything that could be redone.
    pub fn push(&mut self, d: &str)
        requires
            old(self).wf(),
        ensures
            final(self).wf(),
            final(self)@ == spec_push(old(self)@, d@),
    {
        if self.position < self.history.len() {
            self.history.truncate(self.position);
        }
        self.history.push(String::from_str(d));
        self.position = self.history.len();
        assert(self@.0 =~= old(self)@.0.take(old(self)@.1).push(d@));
    }

    /// Step back one action and return its description.
    pub fn undo(&mut self) -> (r: Option<&str>)
        requires
            old(self).wf(),
        ensures
            final(self).wf(),
            final(self)@ == spec_undo(old(self)@).0,
            match r {
                Some(s) => spec_undo(old(self)@).1 == Some(s@),
                None => spec_undo(old(self)@).1 is None,
            },
    {
        if self.position > 0 {
            self.position = self.position - 1;
            Some(self.history[self.position].as_str())
        } else {
            None
        }
    }

    /// Step forward one action and return its description.
    pub fn redo(&mut self) -> (r: Option<&str>)
        requires
            old(self).wf(),
        ensures
            final(self).wf(),
            final(self)@ == spec_redo(old(self)@).0,
            match r {
                Some(s) => spec_redo(old(self)@).1 == Some(s@),
                None => spec_redo(old(self)@).1 is None,
            },
    {
        if self.position < self.history.len() {
            let p = self.position;
            self.position = self.position + 1;
            Some(self.history[p].as_str())
        } else {
            None
        }
    }

    /// Whether there is an action to undo.
    pub fn can_undo(&self) -> (b: bool)
        ensures
            b == (self@.1 > 0),
    {
        self.position > 0
    }

    /// Whether there is an action to redo.
    pub fn can_redo(&self) -> (b: bool)
        ensures
            b == (self@.1 < self@.0.len()),
    {
        self.position < self.history.len()
    }

    /// Number of recorded actions.
    pub fn len(&self) -> (n: usize)
        ensures
            n == self@.0.len(),
    {
        self.history.len()
    }

    /// Whether nothing has been recorded.
    pub fn is_empty(&self) -> (b: bool)
        ensures
            b == (self@.0.len() == 0),
    {
        self.history.len() == 0
    }
}

/// Redo after an undo returns the undone action and restores the state.
pub proof fn lemma_redo_after_undo(s: UndoState)
    requires
        undo_state_valid(s),
        s.1 > 0,
    ensures
        spec_redo(spec_undo(s).0).0 == s,
        spec_redo(spec_undo(s).0).1 == spec_undo(s).1,
{
}

/// Undo after a redo returns the redone action and restores the state.
pub proof fn lemma_undo_after_redo(s: UndoState)
    requires
        undo_state_valid(s),
        s.1 < s.0.len(),
    ensures
        spec_undo(spec_redo(s).0).0 == s,
        spec_undo(spec_redo(s).0).1 == spec_redo(s).1,
{
}

/// After recording an action nothing can be redone, and undo returns that
/// action.
pub proof fn lemma_push_then_undo(s: UndoState, d: Seq<char>)
    requires
        undo_state_valid(s),
    ensures
        undo_state_valid(spec_push(s, d)),
        spec_redo(spec_push(s, d)).1 is None,
        spec_undo(spec_push(s, d)).1 == Some(d),
{
}

/// Every reachable state keeps the cursor within the history.
pub proof fn lemma_steps_keep_valid(s: UndoState, d: Seq<char>)
    requires
        undo_state_valid(s),
    ensures
        undo_state_valid(spec_push(s, d)),
        undo_state_valid(spec_undo(s).0),
        undo_state_valid(spec_redo(s).0),
{
}

} // verus!
