//! The babynotes target: its command grammar, its seed input, and the two
//! byte-level operations that a host plugin performs on every input.

use vstd::prelude::*;
use crate::codec::{parse_input, DecodeError};
use crate::engine::{Fuzzer, FuzzerBuilder};
use crate::grammar::{CommandDataSpec, CommandSpec};
use crate::input::{Command, CommandView, Input, InputView};
use crate::scalar::IntWalk;
use crate::structural::is_structural_outcome;

verus! {

/// Opcode of "add note".
pub const CMD_ADD_NOTE: i32 = 1;

/// Opcode of "show note".
pub const CMD_SHOW_NOTE: i32 = 2;

/// Opcode of "delete note".
pub const CMD_DELETE_NOTE: i32 = 3;

/// Opcode of "edit note".
pub const CMD_EDIT_NOTE: i32 = 4;

/// Opcode of "reset".
pub const CMD_RESET: i32 = 5;

/// Opcode of "check".
pub const CMD_CHECK: i32 = 6;

/// Opcode of "exit".
pub const CMD_EXIT: i32 = 7;

/// Why a host buffer could not be mutated.
#[derive(Clone, Copy, Debug, PartialEq, Eq, Structural)]
pub enum FuzzError {
    /// The buffer is not the encoding of an input.
    Decode(DecodeError),
    /// The buffer decodes to an input that does not fit the command table.
    Grammar,
}

/// The table entry carries this opcode and these fields.
pub open spec fn entry_is(entry: CommandSpec, id: i32, fields: Seq<CommandDataSpec>) -> bool {
    entry.id == id && entry.data@ == fields
}

/// The table is the grammar of the target: seven commands, in opcode order.
pub open spec fn is_grammar(table: Seq<CommandSpec>) -> bool {
    &&& table.len() == 7
    &&& entry_is(
        table[0],
        CMD_ADD_NOTE,
        seq![
            CommandDataSpec::UInt { min: 0, max: 5 },
            CommandDataSpec::UInt { min: 0, max: 256 },
        ],
    )
    &&& entry_is(table[1], CMD_SHOW_NOTE, seq![CommandDataSpec::UInt { min: 0, max: 5 }])
    &&& entry_is(
        table[2],
        CMD_DELETE_NOTE,
        seq![CommandDataSpec::SInt { min: i64::MIN, max: 3 }],
    )
    &&& entry_is(
        table[3],
        CMD_EDIT_NOTE,
        seq![
            CommandDataSpec::UInt { min: 0, max: 3 },
            CommandDataSpec::Binary { min_len: 1, max_len: 512 },
        ],
    )
    &&& entry_is(table[4], CMD_RESET, Seq::empty())
    &&& entry_is(table[5], CMD_CHECK, Seq::empty())
    &&& entry_is(table[6], CMD_EXIT, Seq::empty())
}

/// The command that ends a run of the target.
pub open spec fn exit_view() -> CommandView {
    CommandView { id: CMD_EXIT, data: Seq::empty() }
}

/// Builds the engine for the target: the grammar above, a stream seeded
/// with `seed`, and integers walking by unit steps.
pub fn new_fuzzer(afl: usize, seed: u32) -> (fuzzer: Box<Fuzzer>)
    ensures
        is_grammar(fuzzer.table()),
        fuzzer.handle() == afl,
        fuzzer.walk() == IntWalk::UnitStep,
        fuzzer.fuzz_bytes().len() == 0,
        fuzzer.post_bytes().len() == 0,
{
    let add_note = CommandSpec {
        id: CMD_ADD_NOTE,
        data: vec![
            CommandDataSpec::UInt { min: 0, max: 5 },
            CommandDataSpec::UInt { min: 0, max: 256 },
        ],
    };
    let show_note = CommandSpec {
        id: CMD_SHOW_NOTE,
        data: vec![CommandDataSpec::UInt { min: 0, max: 5 }],
    };
    let delete_note = CommandSpec {
        id: CMD_DELETE_NOTE,
        data: vec![CommandDataSpec::SInt { min: i64::MIN, max: 3 }],
    };
    let edit_note = CommandSpec {
        id: CMD_EDIT_NOTE,
        data: vec![
            CommandDataSpec::UInt { min: 0, max: 3 },
            CommandDataSpec::Binary { min_len: 1, max_len: 512 },
        ],
    };
    let reset = CommandSpec { id: CMD_RESET, data: Vec::new() };
    let check = CommandSpec { id: CMD_CHECK, data: Vec::new() };
    let exit = CommandSpec { id: CMD_EXIT, data: Vec::new() };
    proof {
        assert(add_note.data@ =~= seq![
            CommandDataSpec::UInt { min: 0, max: 5 },
            CommandDataSpec::UInt { min: 0, max: 256 },
        ]);
        assert(show_note.data@ =~= seq![CommandDataSpec::UInt { min: 0, max: 5 }]);
        assert(delete_note.data@ =~= seq![CommandDataSpec::SInt { min: i64::MIN, max: 3 }]);
        assert(edit_note.data@ =~= seq![
            CommandDataSpec::UInt { min: 0, max: 3 },
            CommandDataSpec::Binary { min_len: 1, max_len: 512 },
        ]);
    }
    let builder = FuzzerBuilder::new(afl, seed);
    let builder = builder.add_spec(add_note);
    let builder = builder.add_spec(show_note);
    let builder = builder.add_spec(delete_note);
    let builder = builder.add_spec(edit_note);
    let builder = builder.add_spec(reset);
    let builder = builder.add_spec(check);
    let builder = builder.add_spec(exit);
    builder.build()
}

/// The seed input: nothing but the exit command.
pub fn seed() -> (input: Input)
    ensures
        input@.commands == seq![exit_view()],
{
    let mut input = Input::new();
    input.commands.push(exit_command());
    assert(input@.commands =~= seq![exit_view()]);
    input
}

/// The exit command.
pub fn exit_command() -> (command: Command)
    ensures
        command@ == exit_view(),
{
    let command = Command { id: CMD_EXIT, data: Vec::new() };
    assert(command@.data =~= Seq::empty());
    command
}

/// Mutates an encoded input: decodes `buf`, applies one structural mutation
/// and leaves the encoding of the result in the engine's first scratch
/// buffer. Where the bytes do not decode, or decode to an input outside the
/// grammar, nothing is drawn and the scratch buffer is left alone.
pub fn fuzz(fuzzer: &mut Fuzzer, buf: &[u8]) -> (r: Result<(), FuzzError>)
    ensures
        final(fuzzer).table() == old(fuzzer).table(),
        final(fuzzer).handle() == old(fuzzer).handle(),
        final(fuzzer).walk() == old(fuzzer).walk(),
        final(fuzzer).post_bytes() == old(fuzzer).post_bytes(),
        match r {
            Ok(()) => match parse_input(buf@) {
                Ok(before) => before.conforms(old(fuzzer).table()) && exists|after: InputView|
                    {
                        &&& after.conforms(old(fuzzer).table())
                        &&& is_structural_outcome(
                            before.commands,
                            after.commands,
                            old(fuzzer).table(),
                        )
                        &&& final(fuzzer).fuzz_bytes() == #[trigger] after.encoding()
                    },
                Err(_) => false,
            },
            Err(FuzzError::Decode(e)) => parse_input(buf@) == Err::<InputView, _>(e),
            Err(FuzzError::Grammar) => match parse_input(buf@) {
                Ok(before) => !before.conforms(old(fuzzer).table()),
                Err(_) => false,
            },
        },
        r is Err ==> final(fuzzer).fuzz_bytes() == old(fuzzer).fuzz_bytes(),
{
    let mut input: Input = match Input::decode(buf) {
        Ok(input) => input,
        Err(e) => { return Err(FuzzError::Decode(e)); },
    };
    if !input.conforms_to(fuzzer.spec()) {
        return Err(FuzzError::Grammar);
    }
    fuzzer.mutate(&mut input);
    input.encode_into(fuzzer.alloc_fuzz_buf());
    assert(fuzzer.fuzz_bytes() == input@.encoding());
    Ok(())
}

/// Renders an encoded input for the target: decodes `buf`, appends the exit
/// command and leaves the text in the engine's second scratch buffer. Where
/// the bytes do not decode, the scratch buffer is left alone.
pub fn post_process(fuzzer: &mut Fuzzer, buf: &[u8]) -> (r: Result<(), DecodeError>)
    ensures
        final(fuzzer).table() == old(fuzzer).table(),
        final(fuzzer).handle() == old(fuzzer).handle(),
        final(fuzzer).walk() == old(fuzzer).walk(),
        final(fuzzer).fuzz_bytes() == old(fuzzer).fuzz_bytes(),
        match r {
            Ok(()) => match parse_input(buf@) {
                Ok(input) => final(fuzzer).post_bytes() == (InputView {
                    commands: input.commands.push(exit_view()),
                }).synthesis(),
                Err(_) => false,
            },
            Err(e) => parse_input(buf@) == Err::<InputView, _>(e),
        },
        r is Err ==> final(fuzzer).post_bytes() == old(fuzzer).post_bytes(),
{
    let mut input: Input = match Input::decode(buf) {
        Ok(input) => input,
        Err(e) => { return Err(e); },
    };
    let ghost decoded = input@;
    input.commands.push(exit_command());
    assert(input@.commands =~= decoded.commands.push(exit_view()));
    input.synthesis_into(fuzzer.alloc_post_buf());
    assert(fuzzer.post_bytes() == input@.synthesis());
    Ok(())
}

} // verus!
