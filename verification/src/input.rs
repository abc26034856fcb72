//! Concrete commands, their field values, and what it means for them to fit
//! the grammar.

use vstd::prelude::*;
use crate::grammar::{is_entry_for, lookup, CommandDataSpec, CommandSpec};

verus! {

/// One field value, tagged by its kind.
#[derive(Clone, Debug, PartialEq, Eq)]
pub enum CommandData {
    SInt(i64),
    UInt(u64),
    Binary(Vec<u8>),
}

/// One command: an opcode and its field values, in order.
#[derive(Clone, Debug, PartialEq, Eq)]
pub struct Command {
    pub id: i32,
    pub data: Vec<CommandData>,
}

/// An ordered sequence of commands: the unit that is generated, mutated and
/// encoded.
#[derive(Clone, Debug, PartialEq, Eq)]
pub struct Input {
    pub commands: Vec<Command>,
}

/// The mathematical value of a field.
pub enum DataView {
    SInt(i64),
    UInt(u64),
    Binary(Seq<u8>),
}

/// The mathematical value of a command.
pub struct CommandView {
    pub id: i32,
    pub data: Seq<DataView>,
}

/// The mathematical value of an input.
pub struct InputView {
    pub commands: Seq<CommandView>,
}

impl View for CommandData {
    type V = DataView;

    open spec fn view(&self) -> DataView {
        match *self {
            CommandData::SInt(value) => DataView::SInt(value),
            CommandData::UInt(value) => DataView::UInt(value),
            CommandData::Binary(bytes) => DataView::Binary(bytes@),
        }
    }
}

impl View for Command {
    type V = CommandView;

    open spec fn view(&self) -> CommandView {
        CommandView { id: self.id, data: self.data@.map_values(|d: CommandData| d@) }
    }
}

impl View for Input {
    type V = InputView;

    open spec fn view(&self) -> InputView {
        InputView { commands: self.commands@.map_values(|c: Command| c@) }
    }
}

impl CommandDataSpec {
    /// The value has the kind that this field asks for and lies within its
    /// bounds.
    pub open spec fn admits(&self, value: DataView) -> bool {
        match (*self, value) {
            (CommandDataSpec::SInt { min, max }, DataView::SInt(v)) => min <= v <= max,
            (CommandDataSpec::UInt { min, max }, DataView::UInt(v)) => min <= v <= max,
            (CommandDataSpec::Binary { min_len, max_len }, DataView::Binary(bytes)) => min_len
                <= bytes.len() <= max_len,
            _ => false,
        }
    }

    /// Tells whether `value` has the right kind and lies within the bounds.
    pub fn accepts(&self, value: &CommandData) -> (ok: bool)
        ensures
            ok == self.admits(value@),
    {
        match (self, value) {
            (CommandDataSpec::SInt { min, max }, CommandData::SInt(v)) => *min <= *v && *v <= *max,
            (CommandDataSpec::UInt { min, max }, CommandData::UInt(v)) => *min <= *v && *v <= *max,
            (CommandDataSpec::Binary { min_len, max_len }, CommandData::Binary(bytes)) => {
                *min_len <= bytes.len() && bytes.len() <= *max_len
            },
            _ => false,
        }
    }
}

impl CommandSpec {
    /// The command carries this opcode and one admissible value for each
    /// field, in order.
    pub open spec fn admits(&self, command: CommandView) -> bool {
        &&& command.id == self.id
        &&& command.data.len() == self.data@.len()
        &&& forall|i: int|
            0 <= i < self.data@.len() ==> (#[trigger] self.data@[i]).admits(command.data[i])
    }

    /// Tells whether `command` is an instance of this command.
    pub fn accepts(&self, command: &Command) -> (ok: bool)
        ensures
            ok == self.admits(command@),
    {
        if command.id != self.id || command.data.len() != self.data.len() {
            return false;
        }
        let mut i: usize = 0;
        while i < self.data.len()
            invariant
                i <= self.data@.len(),
                command.data@.len() == self.data@.len(),
                forall|j: int|
                    0 <= j < i ==> (#[trigger] self.data@[j]).admits(command@.data[j]),
            decreases self.data@.len() - i,
        {
            if !self.data[i].accepts(&command.data[i]) {
                return false;
            }
            i += 1;
        }
        true
    }
}

/// The table has an entry for the command's opcode, and the entry that a
/// lookup finds admits the command.
pub open spec fn command_conforms(command: CommandView, table: Seq<CommandSpec>) -> bool {
    exists|k: int| is_entry_for(table, command.id, k) && (#[trigger] table[k]).admits(command)
}

impl InputView {
    /// Every command of the input is an instance of its table entry.
    pub open spec fn conforms(self, table: Seq<CommandSpec>) -> bool {
        forall|i: int|
            0 <= i < self.commands.len() ==> command_conforms(#[trigger] self.commands[i], table)
    }
}

impl Command {
    /// Tells whether the table has an entry for this command that admits it.
    pub fn conforms_to(&self, table: &[CommandSpec]) -> (ok: bool)
        ensures
            ok == command_conforms(self@, table@),
    {
        match lookup(table, self.id) {
            Some(k) => {
                let ok = table[k].accepts(self);
                proof {
                    if !ok && command_conforms(self@, table@) {
                        let w = choose|w: int|
                            is_entry_for(table@, self@.id, w) && (#[trigger] table@[w]).admits(self@);
                        crate::grammar::lemma_entry_unique(table@, self.id, k as int, w);
                    }
                }
                ok
            },
            None => false,
        }
    }
}

impl Input {
    /// An input without commands.
    pub fn new() -> (input: Input)
        ensures
            input@.commands.len() == 0,
    {
        Input { commands: Vec::new() }
    }

    /// Tells whether every command fits the table.
    pub fn conforms_to(&self, table: &[CommandSpec]) -> (ok: bool)
        ensures
            ok == self@.conforms(table@),
    {
        let mut i: usize = 0;
        while i < self.commands.len()
            invariant
                i <= self.commands@.len(),
                forall|j: int| 0 <= j < i ==> command_conforms(#[trigger] self@.commands[j], table@),
            decreases self.commands@.len() - i,
        {
            if !self.commands[i].conforms_to(table) {
                assert(self@.commands[i as int] == self.commands@[i as int]@);
                return false;
            }
            assert(self@.commands[i as int] == self.commands@[i as int]@);
            i += 1;
        }
        true
    }
}

impl Default for Input {
    fn default() -> (input: Input)
        ensures
            input@.commands.len() == 0,
    {
        Input::new()
    }
}

} // verus!
