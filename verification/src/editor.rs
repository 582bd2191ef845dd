//! The editing session: which key does what to the buffer.

use vstd::prelude::*;
use crate::buffer::{Buffer, BufferState};
use crate::dictionary::Dictionary;

verus! {

/// The modifier set of a key pressed with the control key and no other.
pub const CONTROL: u8 = 0b0000_0010;

/// The key of a key press.
#[derive(Clone, Copy, Debug, PartialEq, Eq, Structural)]
pub enum Key {
    /// A key that stands for a character.
    Char(char),
    /// The backspace key.
    Backspace,
    /// Any other key.
    Other,
}

/// One key press: the key, and the modifiers held with it as a set of bits.
#[derive(Clone, Copy, Debug, PartialEq, Eq, Structural)]
pub struct KeyPress {
    /// The key that was pressed.
    pub key: Key,
    /// The modifiers held with it, one bit each.
    pub modifiers: u8,
}

/// What a key press asks for.
#[derive(Clone, Copy, Debug, PartialEq, Eq, Structural)]
pub enum Command {
    /// End the session.
    Quit,
    /// Delete the last word.
    DeleteWord,
    /// Delete the last character.
    DeleteChar,
    /// Type a character.
    Insert(char),
    /// Nothing.
    Ignore,
}

/// The command of a key press: control with `q` quits, control with `h`
/// deletes a word, backspace deletes a character, any other character key
/// types its character, and every other key is ignored.
pub open spec fn command_of(press: KeyPress) -> Command {
    match press.key {
        Key::Char(c) => if c == 'q' && press.modifiers == CONTROL {
            Command::Quit
        } else if c == 'h' && press.modifiers == CONTROL {
            Command::DeleteWord
        } else {
            Command::Insert(c)
        },
        Key::Backspace => Command::DeleteChar,
        Key::Other => Command::Ignore,
    }
}

/// What a session holds: whether it is over, and its buffer.
pub struct EditorState {
    /// Whether the session was asked to end.
    pub should_quit: bool,
    /// What the buffer holds.
    pub buffer: BufferState,
}

impl EditorState {
    /// The state at the start of a session.
    pub open spec fn start() -> EditorState {
        EditorState { should_quit: false, buffer: BufferState::empty() }
    }

    /// The state after one command, with `entries` as the dictionary.
    pub open spec fn apply(self, command: Command, entries: Seq<Seq<char>>) -> EditorState {
        match command {
            Command::Quit => EditorState { should_quit: true, ..self },
            Command::DeleteWord => EditorState { buffer: self.buffer.delete_word(), ..self },
            Command::DeleteChar => EditorState { buffer: self.buffer.delete_char(), ..self },
            Command::Insert(c) => EditorState { buffer: self.buffer.insert(c, entries), ..self },
            Command::Ignore => self,
        }
    }

    /// The state after a sequence of commands, first to last.
    pub open spec fn apply_all(self, commands: Seq<Command>, entries: Seq<Seq<char>>) -> EditorState
        decreases commands.len(),
    {
        if commands.len() == 0 {
            self
        } else {
            self.apply_all(commands.drop_last(), entries).apply(commands.last(), entries)
        }
    }
}

/// Whatever is typed and deleted from the start of a session, the pending
/// word holds no delimiter, and the text on display is the committed text
/// followed by the pending word.
pub proof fn lemma_invariant_after_any_commands(commands: Seq<Command>, entries: Seq<Seq<char>>)
    ensures
        EditorState::start().apply_all(commands, entries).buffer.wf(),
        EditorState::start().apply_all(commands, entries).buffer.render()
            == EditorState::start().apply_all(commands, entries).buffer.committed
            + EditorState::start().apply_all(commands, entries).buffer.pending,
    decreases commands.len(),
{
    if commands.len() > 0 {
        lemma_invariant_after_any_commands(commands.drop_last(), entries);
        lemma_apply_keeps_wf(
            EditorState::start().apply_all(commands.drop_last(), entries),
            commands.last(),
            entries,
        );
    }
}

/// One command keeps the pending word free of delimiters.
pub proof fn lemma_apply_keeps_wf(state: EditorState, command: Command, entries: Seq<Seq<char>>)
    requires
        state.buffer.wf(),
    ensures
        state.apply(command, entries).buffer.wf(),
{
}

/// The command of a key press.
pub fn command(press: &KeyPress) -> (r: Command)
    ensures
        r == command_of(*press),
{
    match press.key {
        Key::Char(c) => {
            if c == 'q' && press.modifiers == CONTROL {
                Command::Quit
            } else if c == 'h' && press.modifiers == CONTROL {
                Command::DeleteWord
            } else {
                Command::Insert(c)
            }
        },
        Key::Backspace => Command::DeleteChar,
        Key::Other => Command::Ignore,
    }
}

/// An editing session over a dictionary.
pub struct Editor {
    should_quit: bool,
    buffer: Buffer,
    dictionary: Dictionary,
}

impl View for Editor {
    type V = EditorState;

    closed spec fn view(&self) -> EditorState {
        EditorState { should_quit: self.should_quit, buffer: self.buffer@ }
    }
}

impl Editor {
    /// The words that the session corrects against.
    pub closed spec fn entries(&self) -> Seq<Seq<char>> {
        self.dictionary@
    }

    /// A session at its start, over the given dictionary.
    pub fn new(dictionary: Dictionary) -> (e: Editor)
        ensures
            e@ == EditorState::start(),
            e.entries() == dictionary@,
    {
        Editor { should_quit: false, buffer: Buffer::default(), dictionary }
    }

    /// Acts on one key press.
    pub fn handle_input(&mut self, press: &KeyPress)
        ensures
            final(self)@ == old(self)@.apply(command_of(*press), old(self).entries()),
            final(self).entries() == old(self).entries(),
    {
        match command(press) {
            Command::Quit => {
                self.should_quit = true;
            },
            Command::DeleteWord => {
                self.buffer.del_word();
            },
            Command::DeleteChar => {
                self.buffer.del_char();
            },
            Command::Insert(c) => {
                self.buffer.add_char(c, &self.dictionary);
            },
            Command::Ignore => {},
        }
    }

    /// Whether the session was asked to end.
    pub fn should_quit(&self) -> (r: bool)
        ensures
            r == self@.should_quit,
    {
        self.should_quit
    }

    /// The text on display.
    pub fn render(&self) -> (s: String)
        ensures
            s@ == self@.buffer.render(),
    {
        self.buffer.render()
    }

    /// The length of the text on display, in bytes of its UTF-8 form.
    pub fn lenght(&self) -> (n: usize)
        ensures
            n == vstd::utf8::encode_utf8(self@.buffer.render()).len() as usize,
    {
        self.buffer.lenght()
    }
}

} // verus!
