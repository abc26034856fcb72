//! Inputs that carry a fixed-layout profile header ahead of the command
//! sequence: two fixed-size byte fields and a signed scalar.

use vstd::prelude::*;
use crate::babynotes::{exit_command, exit_view, FuzzError};
use crate::buffer::{is_nudge, mutate_bytes};
use crate::codec::{
    get_u64, holds_at, le64, lemma_encodable, lemma_holds_at_join, lemma_holds_at_split,
    lemma_holds_at_start, lemma_input_is_encoding, lemma_parse_input_at, lemma_read64_bytes,
    lemma_read64, parse_input_at, put_i64, read64, signed64, to_i64, unsigned64, DecodeError,
};
use crate::engine::Fuzzer;
use crate::grammar::CommandSpec;
use crate::input::InputView;
use crate::scalar::mutate_signed_int_with;
use crate::stream::{draw_fraction, is_limit_for, uniform_i32};
use crate::structural::{is_structural_outcome, lemma_structural_outcome_conforms};
use crate::synthesis::{decimal, push_signed, NEWLINE};

verus! {

/// Size of the name field, in bytes.
pub const NAME_LEN: usize = 24;

/// Size of the motto field, in bytes.
pub const MOTTO_LEN: usize = 32;

/// Size of the encoded header: name, motto and the eight bytes of the age.
pub const HEADER_LEN: usize = 64;

/// A probability draw of at most this much, one tenth, sends the mutation to
/// the header instead of the command sequence.
pub const MUTATE_HEADER_LIMIT: u64 = 900_719_925_474_099;

/// The limit stands for the probability 1/10.
pub proof fn lemma_header_limit()
    ensures
        is_limit_for(MUTATE_HEADER_LIMIT, 1, 10),
{
}

/// An input with a profile header.
#[derive(Clone, Debug, PartialEq, Eq)]
pub struct Input {
    pub name: [u8; 24],
    pub motto: [u8; 32],
    pub age: i64,
    pub commands: crate::input::Input,
}

/// The mathematical value of an input with a profile header.
pub struct ProfileView {
    pub name: Seq<u8>,
    pub motto: Seq<u8>,
    pub age: i64,
    pub commands: InputView,
}

impl View for Input {
    type V = ProfileView;

    open spec fn view(&self) -> ProfileView {
        ProfileView {
            name: self.name@,
            motto: self.motto@,
            age: self.age,
            commands: self.commands@,
        }
    }
}

/// The header fields that a mutation can target.
#[derive(Clone, Copy, Debug, PartialEq, Eq, Structural)]
pub enum HeaderField {
    Name,
    Motto,
    Age,
}

/// Which header field a uniform draw from `0..3` selects.
pub open spec fn header_field_for(target: i32) -> HeaderField {
    if target == 0 {
        HeaderField::Name
    } else if target == 1 {
        HeaderField::Motto
    } else {
        HeaderField::Age
    }
}

/// Tells whether a probability draw sends the mutation to the header.
pub fn targets_header(draw: u64) -> (yes: bool)
    ensures
        yes == (draw <= MUTATE_HEADER_LIMIT),
{
    draw <= MUTATE_HEADER_LIMIT
}

/// Selects the header field for a uniform draw from `0..3`.
pub fn choose_header_field(target: i32) -> (field: HeaderField)
    requires
        0 <= target < 3,
    ensures
        field == header_field_for(target),
{
    if target == 0 {
        HeaderField::Name
    } else if target == 1 {
        HeaderField::Motto
    } else {
        HeaderField::Age
    }
}

/// Everything one mutation can make of an input with a header: one byte of
/// the name or of the motto nudged, the age replaced, or the command
/// sequence mutated structurally, everything else staying as it was.
pub open spec fn is_profile_outcome(
    before: ProfileView,
    after: ProfileView,
    table: Seq<CommandSpec>,
) -> bool {
    ||| after == (ProfileView { name: after.name, ..before }) && is_nudge(before.name, after.name)
    ||| after == (ProfileView { motto: after.motto, ..before }) && is_nudge(
        before.motto,
        after.motto,
    )
    ||| after == (ProfileView { age: after.age, ..before })
    ||| after == (ProfileView { commands: after.commands, ..before }) && is_structural_outcome(
        before.commands.commands,
        after.commands.commands,
        table,
    )
}

/// The commands keep fitting the table through every mutation of an input
/// with a header, and the header fields keep their sizes.
pub proof fn lemma_profile_outcome_conforms(
    before: ProfileView,
    after: ProfileView,
    table: Seq<CommandSpec>,
)
    requires
        before.commands.conforms(table),
        is_profile_outcome(before, after, table),
    ensures
        after.commands.conforms(table),
        before.commands.commands.len() >= 1 ==> after.commands.commands.len() >= 1,
        after.name.len() == before.name.len(),
        after.motto.len() == before.motto.len(),
{
    if after == (ProfileView { commands: after.commands, ..before }) && is_structural_outcome(
        before.commands.commands,
        after.commands.commands,
        table,
    ) {
        lemma_structural_outcome_conforms(before.commands, after.commands, table);
    }
}

impl ProfileView {
    /// The text that the target reads: the raw name and motto, the age as a
    /// decimal line, then the command records.
    pub open spec fn synthesis(self) -> Seq<u8> {
        self.name + self.motto + decimal(self.age as int).push(NEWLINE) + self.commands.synthesis()
    }

    /// The encoding: the raw name and motto, the age in two's complement,
    /// then the encoding of the command sequence.
    pub open spec fn encoding(self) -> Seq<u8> {
        self.name + self.motto + le64(unsigned64(self.age as int)) + self.commands.encoding()
    }

    /// The header fields have their sizes and the command sequence is
    /// encodable.
    pub open spec fn encodable(self) -> bool {
        &&& self.name.len() == NAME_LEN
        &&& self.motto.len() == MOTTO_LEN
        &&& self.commands.encodable()
    }
}

/// What a byte string decodes to: the header at its start and the command
/// sequence right after it. Bytes after that are not looked at.
pub open spec fn parse_profile(bytes: Seq<u8>) -> Result<ProfileView, DecodeError> {
    if bytes.len() < HEADER_LEN {
        Err(DecodeError::UnexpectedEnd)
    } else {
        match parse_input_at(bytes, HEADER_LEN as int) {
            Err(e) => Err(e),
            Ok((commands, _)) => Ok(
                ProfileView {
                    name: bytes.subrange(0, NAME_LEN as int),
                    motto: bytes.subrange(NAME_LEN as int, NAME_LEN + MOTTO_LEN),
                    age: signed64(read64(bytes, NAME_LEN + MOTTO_LEN).unwrap()) as i64,
                    commands,
                },
            ),
        }
    }
}

impl Input {
    /// An input with a zeroed header and no commands.
    pub fn new() -> (input: Input)
        ensures
            input@.name == Seq::new(NAME_LEN as nat, |i: int| 0u8),
            input@.motto == Seq::new(MOTTO_LEN as nat, |i: int| 0u8),
            input@.age == 0,
            input@.commands.commands.len() == 0,
    {
        let input = Input {
            name: [0u8; 24],
            motto: [0u8; 32],
            age: 0,
            commands: crate::input::Input::new(),
        };
        assert(input@.name =~= Seq::new(NAME_LEN as nat, |i: int| 0u8));
        assert(input@.motto =~= Seq::new(MOTTO_LEN as nat, |i: int| 0u8));
        input
    }

    /// Applies one mutation. With probability 0.1 it goes to the header: one
    /// of name, motto and age is chosen uniformly, a byte field has one byte
    /// nudged and the age is mutated as an integer over its whole range,
    /// walking as the engine's integers do.
    /// Otherwise the command sequence is mutated structurally, exactly as
    /// the engine does it without a header.
    pub fn mutate(&mut self, fz: &mut Fuzzer)
        requires
            old(self)@.commands.conforms(old(fz).table()),
        ensures
            final(fz).table() == old(fz).table(),
            final(fz).handle() == old(fz).handle(),
            final(fz).walk() == old(fz).walk(),
            final(fz).fuzz_bytes() == old(fz).fuzz_bytes(),
            final(fz).post_bytes() == old(fz).post_bytes(),
            final(self)@.commands.conforms(old(fz).table()),
            old(self)@.commands.commands.len() >= 1 ==> final(self)@.commands.commands.len() >= 1,
            is_profile_outcome(old(self)@, final(self)@, old(fz).table()),
    {
        let draw: u64 = draw_fraction(fz.rng_mut());
        if targets_header(draw) {
            let target: i32 = uniform_i32(fz.rng_mut(), 0, 3);
            match choose_header_field(target) {
                HeaderField::Name => {
                    mutate_bytes(&mut self.name, fz.rng_mut());
                },
                HeaderField::Motto => {
                    mutate_bytes(&mut self.motto, fz.rng_mut());
                },
                HeaderField::Age => {
                    let walk = fz.int_walk();
                    mutate_signed_int_with(&mut self.age, i64::MIN, i64::MAX, walk, fz.rng_mut());
                },
            }
        } else {
            fz.mutate(&mut self.commands);
        }
    }

    /// Appends the text that the target reads.
    pub fn synthesis_into(&self, output: &mut Vec<u8>)
        ensures
            final(output)@ == old(output)@ + self@.synthesis(),
    {
        output.extend_from_slice(&self.name);
        output.extend_from_slice(&self.motto);
        push_signed(output, self.age);
        output.push(NEWLINE);
        self.commands.synthesis_into(output);
    }

    /// Appends the encoding of this input.
    pub fn encode_into(&self, output: &mut Vec<u8>)
        ensures
            final(output)@ == old(output)@ + self@.encoding(),
    {
        output.extend_from_slice(&self.name);
        output.extend_from_slice(&self.motto);
        put_i64(output, self.age);
        self.commands.encode_into(output);
    }
}

impl Input {
    /// The encoding of this input. Decoding it gives the input back.
    pub fn encode(&self) -> (bytes: Vec<u8>)
        ensures
            bytes@ == self@.encoding(),
            parse_profile(bytes@) == Ok::<_, DecodeError>(self@),
    {
        let mut bytes: Vec<u8> = Vec::new();
        self.encode_into(&mut bytes);
        proof {
            lemma_encodable(&self.commands);
            lemma_profile_round_trip(self@, Seq::empty());
            assert(self@.encoding() + Seq::<u8>::empty() == self@.encoding());
        }
        bytes
    }

    /// Decodes the input at the start of `bytes`. Bytes after it are not
    /// looked at. Fails where the bytes end too early or a field has an
    /// unknown kind; what succeeds is the input whose encoding the bytes
    /// start with.
    pub fn decode(bytes: &[u8]) -> (r: Result<Input, DecodeError>)
        ensures
            match r {
                Ok(input) => parse_profile(bytes@) == Ok::<_, DecodeError>(input@) && holds_at(
                    bytes@,
                    0,
                    input@.encoding(),
                ),
                Err(e) => parse_profile(bytes@) == Err::<ProfileView, _>(e),
            },
            bytes@.len() < HEADER_LEN + 8 ==> r == Err::<Input, _>(DecodeError::UnexpectedEnd),
    {
        if bytes.len() < HEADER_LEN {
            return Err(DecodeError::UnexpectedEnd);
        }
        let mut name: [u8; 24] = [0u8; 24];
        let mut i: usize = 0;
        while i < NAME_LEN
            invariant
                i <= NAME_LEN,
                HEADER_LEN <= bytes@.len(),
                forall|j: int| 0 <= j < i ==> name@[j] == bytes@[j],
            decreases NAME_LEN - i,
        {
            name[i] = bytes[i];
            i += 1;
        }
        let mut motto: [u8; 32] = [0u8; 32];
        let mut i: usize = 0;
        while i < MOTTO_LEN
            invariant
                i <= MOTTO_LEN,
                HEADER_LEN <= bytes@.len(),
                forall|j: int| 0 <= j < i ==> motto@[j] == bytes@[NAME_LEN + j],
            decreases MOTTO_LEN - i,
        {
            motto[i] = bytes[NAME_LEN + i];
            i += 1;
        }
        let age: i64 = match get_u64(bytes, NAME_LEN + MOTTO_LEN) {
            Some(word) => to_i64(word),
            None => { return Err(DecodeError::UnexpectedEnd); },
        };
        match crate::codec::decode_input_at(bytes, HEADER_LEN) {
            Ok((commands, _)) => {
                let input = Input { name, motto, age, commands };
                assert(input@.name =~= bytes@.subrange(0, NAME_LEN as int));
                assert(input@.motto =~= bytes@.subrange(NAME_LEN as int, NAME_LEN + MOTTO_LEN));
                proof {
                    lemma_profile_decodes_iff_encoded(bytes@, input@);
                }
                Ok(input)
            },
            Err(e) => Err(e),
        }
    }
}

/// Where the parts of an encoding stand in it: the name at 0, the motto at
/// 24, the age at 56 and the command sequence at 64.
proof fn lemma_profile_layout(input: ProfileView, rest: Seq<u8>)
    requires
        input.encodable(),
    ensures
        holds_at(input.encoding() + rest, 0, input.name),
        holds_at(input.encoding() + rest, 24, input.motto),
        holds_at(input.encoding() + rest, 56, le64(unsigned64(input.age as int))),
        holds_at(input.encoding() + rest, 64, input.commands.encoding()),
{
    let bytes = input.encoding() + rest;
    let head = input.name + input.motto;
    let age = le64(unsigned64(input.age as int));
    lemma_holds_at_start(input.encoding(), rest);
    lemma_holds_at_split(bytes, 0, head + age, input.commands.encoding());
    lemma_holds_at_split(bytes, 0, head, age);
    lemma_holds_at_split(bytes, 0, input.name, input.motto);
}

/// Decoding undoes encoding: the encoding of any encodable input, with
/// whatever bytes after it, parses to that input.
pub proof fn lemma_profile_round_trip(input: ProfileView, rest: Seq<u8>)
    requires
        input.encodable(),
    ensures
        parse_profile(input.encoding() + rest) == Ok::<_, DecodeError>(input),
{
    let bytes = input.encoding() + rest;
    assert(bytes.len() >= 64 && bytes.subrange(0, 24) == input.name) by {
        lemma_profile_layout(input, rest);
        assert(bytes.subrange(0, 24) =~= input.name);
    }
    assert(bytes.subrange(24, 56) == input.motto) by {
        lemma_profile_layout(input, rest);
        assert(bytes.subrange(24, 56) =~= input.motto);
    }
    assert(read64(bytes, 56) == Some(unsigned64(input.age as int))) by {
        lemma_profile_layout(input, rest);
        lemma_read64(bytes, 56, unsigned64(input.age as int));
    }
    assert(parse_input_at(bytes, 64) == Ok::<(InputView, int), DecodeError>(
        (input.commands, 64int + input.commands.encoding().len()),
    )) by {
        lemma_profile_layout(input, rest);
        lemma_parse_input_at(bytes, 64, input.commands);
    }
}

/// What parses as an input is the encoding of that input.
proof fn lemma_profile_is_encoding(bytes: Seq<u8>, input: ProfileView)
    requires
        parse_profile(bytes) == Ok::<_, DecodeError>(input),
    ensures
        input.encodable(),
        holds_at(bytes, 0, input.encoding()),
{
    let age = le64(unsigned64(input.age as int));
    assert(bytes.len() >= 64);
    assert(input.name == bytes.subrange(0, 24));
    assert(input.motto == bytes.subrange(24, 56));
    assert(input.age == signed64(read64(bytes, 56).unwrap()) as i64);
    assert(parse_input_at(bytes, 64) is Ok && parse_input_at(bytes, 64).unwrap().0
        == input.commands);
    assert(holds_at(bytes, 0, input.name) && input.name.len() == 24);
    assert(holds_at(bytes, 24, input.motto) && input.motto.len() == 32);
    assert(holds_at(bytes, 56, age) && age.len() == 8) by {
        lemma_read64_bytes(bytes, 56);
    }
    assert(input.commands.encodable() && holds_at(bytes, 64, input.commands.encoding())) by {
        lemma_input_is_encoding(bytes, 64);
    }
    assert(holds_at(bytes, 0, input.encoding())) by {
        lemma_holds_at_join(bytes, 0, input.name, input.motto);
        lemma_holds_at_join(bytes, 0, input.name + input.motto, age);
        lemma_holds_at_join(
            bytes,
            0,
            input.name + input.motto + age,
            input.commands.encoding(),
        );
    }
}

/// Decoding accepts nothing but encodings: a byte string decodes to an input
/// exactly when it starts with the encoding of that input.
pub proof fn lemma_profile_decodes_iff_encoded(bytes: Seq<u8>, input: ProfileView)
    ensures
        parse_profile(bytes) == Ok::<_, DecodeError>(input) <==> input.encodable() && holds_at(
            bytes,
            0,
            input.encoding(),
        ),
{
    if parse_profile(bytes) == Ok::<_, DecodeError>(input) {
        lemma_profile_is_encoding(bytes, input);
    }
    if input.encodable() && holds_at(bytes, 0, input.encoding()) {
        let rest = bytes.subrange(input.encoding().len() as int, bytes.len() as int);
        assert(bytes =~= input.encoding() + rest);
        lemma_profile_round_trip(input, rest);
    }
}

/// The seed input: a zeroed header and nothing but the exit command.
pub fn seed() -> (input: Input)
    ensures
        input@.name == Seq::new(NAME_LEN as nat, |i: int| 0u8),
        input@.motto == Seq::new(MOTTO_LEN as nat, |i: int| 0u8),
        input@.age == 0,
        input@.commands.commands == seq![exit_view()],
{
    let mut input = Input::new();
    input.commands.commands.push(exit_command());
    assert(input@.commands.commands =~= seq![exit_view()]);
    input
}

/// Mutates an encoded input: decodes `buf`, applies one mutation and leaves
/// the encoding of the result in the engine's first scratch buffer. Where
/// the bytes do not decode, or decode to commands outside the grammar,
/// nothing is drawn and the scratch buffer is left alone.
pub fn fuzz(fuzzer: &mut Fuzzer, buf: &[u8]) -> (r: Result<(), FuzzError>)
    ensures
        final(fuzzer).table() == old(fuzzer).table(),
        final(fuzzer).handle() == old(fuzzer).handle(),
        final(fuzzer).walk() == old(fuzzer).walk(),
        final(fuzzer).post_bytes() == old(fuzzer).post_bytes(),
        match r {
            Ok(()) => match parse_profile(buf@) {
                Ok(before) => before.commands.conforms(old(fuzzer).table()) && exists|
                    after: ProfileView,
                |
                    {
                        &&& after.commands.conforms(old(fuzzer).table())
                        &&& is_profile_outcome(before, after, old(fuzzer).table())
                        &&& final(fuzzer).fuzz_bytes() == #[trigger] after.encoding()
                    },
                Err(_) => false,
            },
            Err(FuzzError::Decode(e)) => parse_profile(buf@) == Err::<ProfileView, _>(e),
            Err(FuzzError::Grammar) => match parse_profile(buf@) {
                Ok(before) => !before.commands.conforms(old(fuzzer).table()),
                Err(_) => false,
            },
        },
        r is Err ==> final(fuzzer).fuzz_bytes() == old(fuzzer).fuzz_bytes(),
{
    let mut input: Input = match Input::decode(buf) {
        Ok(input) => input,
        Err(e) => { return Err(FuzzError::Decode(e)); },
    };
    if !input.commands.conforms_to(fuzzer.spec()) {
        return Err(FuzzError::Grammar);
    }
    input.mutate(fuzzer);
    input.encode_into(fuzzer.alloc_fuzz_buf());
    assert(fuzzer.fuzz_bytes() == input@.encoding());
    Ok(())
}

/// Renders an encoded input for the target: decodes `buf`, appends the exit
/// command and leaves the text in the engine's second scratch buffer. Where
/// the bytes do not decode, the scratch buffer is left alone.
pub fn post_process(fuzzer: &mut Fuzzer, buf: &[u8]) -> (r: Result<(), DecodeError>)
    ensures
        final(fuzzer).table() == old(fuzzer).table(),
        final(fuzzer).handle() == old(fuzzer).handle(),
        final(fuzzer).walk() == old(fuzzer).walk(),
        final(fuzzer).fuzz_bytes() == old(fuzzer).fuzz_bytes(),
        match r {
            Ok(()) => match parse_profile(buf@) {
                Ok(input) => final(fuzzer).post_bytes() == (ProfileView {
                    commands: InputView { commands: input.commands.commands.push(exit_view()) },
                    ..input
                }).synthesis(),
                Err(_) => false,
            },
            Err(e) => parse_profile(buf@) == Err::<ProfileView, _>(e),
        },
        r is Err ==> final(fuzzer).post_bytes() == old(fuzzer).post_bytes(),
{
    let mut input: Input = match Input::decode(buf) {
        Ok(input) => input,
        Err(e) => { return Err(e); },
    };
    let ghost decoded = input@;
    input.commands.commands.push(exit_command());
    assert(input@.commands.commands =~= decoded.commands.commands.push(exit_view()));
    input.synthesis_into(fuzzer.alloc_post_buf());
    assert(fuzzer.post_bytes() == input@.synthesis());
    Ok(())
}

} // verus!
