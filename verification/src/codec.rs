//! The durable byte encoding of an input, and its decoder.
//!
//! All integers are fixed-width and little-endian. A sequence is its length
//! as a 64-bit integer followed by its elements; a field value is a 32-bit
//! kind tag followed by its payload. Signed integers travel in two's
//! complement.

use vstd::prelude::*;
use crate::input::{Command, CommandData, CommandView, DataView, Input, InputView};

verus! {

/// Why a byte string is not the encoding of an input.
#[derive(Clone, Copy, Debug, PartialEq, Eq, Structural)]
pub enum DecodeError {
    /// The bytes end before the value does.
    UnexpectedEnd,
    /// A field carries a kind tag that no field kind has.
    UnknownKind(u32),
}

impl DecodeError {
    /// A one-line description of the error.
    pub fn describe(&self) -> (text: &'static str)
        ensures
            text@ == (match *self {
                DecodeError::UnexpectedEnd => "unexpected end of input"@,
                DecodeError::UnknownKind(_) => "unknown field kind"@,
            }),
    {
        match self {
            DecodeError::UnexpectedEnd => "unexpected end of input",
            DecodeError::UnknownKind(_) => "unknown field kind",
        }
    }
}

/// Kind tag of a signed integer field.
pub const TAG_SINT: u32 = 0;

/// Kind tag of an unsigned integer field.
pub const TAG_UINT: u32 = 1;

/// Kind tag of a buffer field.
pub const TAG_BINARY: u32 = 2;

/// The four little-endian bytes of `v`, for `0 <= v < 2^32`.
pub open spec fn le32(v: int) -> Seq<u8> {
    seq![
        (v % 256) as u8,
        (v / 0x100 % 256) as u8,
        (v / 0x1_0000 % 256) as u8,
        (v / 0x100_0000 % 256) as u8,
    ]
}

/// The eight little-endian bytes of `v`, for `0 <= v < 2^64`.
pub open spec fn le64(v: int) -> Seq<u8> {
    seq![
        (v % 256) as u8,
        (v / 0x100 % 256) as u8,
        (v / 0x1_0000 % 256) as u8,
        (v / 0x100_0000 % 256) as u8,
        (v / 0x1_0000_0000 % 256) as u8,
        (v / 0x100_0000_0000 % 256) as u8,
        (v / 0x1_0000_0000_0000 % 256) as u8,
        (v / 0x100_0000_0000_0000 % 256) as u8,
    ]
}

/// The number that four little-endian bytes at `at` stand for, if there are
/// four.
pub open spec fn read32(bytes: Seq<u8>, at: int) -> Option<int> {
    if 0 <= at && at + 4 <= bytes.len() {
        Some(
            bytes[at] + bytes[at + 1] * 0x100 + bytes[at + 2] * 0x1_0000 + bytes[at + 3]
                * 0x100_0000,
        )
    } else {
        None
    }
}

/// The number that eight little-endian bytes at `at` stand for, if there are
/// eight.
pub open spec fn read64(bytes: Seq<u8>, at: int) -> Option<int> {
    if 0 <= at && at + 8 <= bytes.len() {
        Some(
            bytes[at] + bytes[at + 1] * 0x100 + bytes[at + 2] * 0x1_0000 + bytes[at + 3]
                * 0x100_0000 + bytes[at + 4] * 0x1_0000_0000 + bytes[at + 5] * 0x100_0000_0000
                + bytes[at + 6] * 0x1_0000_0000_0000 + bytes[at + 7] * 0x100_0000_0000_0000,
        )
    } else {
        None
    }
}

/// The two's complement of a signed 32-bit integer.
pub open spec fn unsigned32(v: int) -> int {
    if v < 0 {
        v + 0x1_0000_0000
    } else {
        v
    }
}

/// The signed integer that a 32-bit two's complement stands for.
pub open spec fn signed32(u: int) -> int {
    if u >= 0x8000_0000 {
        u - 0x1_0000_0000
    } else {
        u
    }
}

/// The two's complement of a signed 64-bit integer.
pub open spec fn unsigned64(v: int) -> int {
    if v < 0 {
        v + 0x1_0000_0000_0000_0000
    } else {
        v
    }
}

/// The signed integer that a 64-bit two's complement stands for.
pub open spec fn signed64(u: int) -> int {
    if u >= 0x8000_0000_0000_0000 {
        u - 0x1_0000_0000_0000_0000
    } else {
        u
    }
}

/// Appends the four little-endian bytes of `v`.
pub fn put_u32(output: &mut Vec<u8>, v: u32)
    ensures
        final(output)@ == old(output)@ + le32(v as int),
{
    output.push((v % 256) as u8);
    output.push((v / 0x100 % 256) as u8);
    output.push((v / 0x1_0000 % 256) as u8);
    output.push((v / 0x100_0000 % 256) as u8);
}

/// Appends the eight little-endian bytes of `v`.
pub fn put_u64(output: &mut Vec<u8>, v: u64)
    ensures
        final(output)@ == old(output)@ + le64(v as int),
{
    output.push((v % 256) as u8);
    output.push((v / 0x100 % 256) as u8);
    output.push((v / 0x1_0000 % 256) as u8);
    output.push((v / 0x100_0000 % 256) as u8);
    output.push((v / 0x1_0000_0000 % 256) as u8);
    output.push((v / 0x100_0000_0000 % 256) as u8);
    output.push((v / 0x1_0000_0000_0000 % 256) as u8);
    output.push((v / 0x100_0000_0000_0000 % 256) as u8);
}

/// Appends a signed 32-bit integer in two's complement.
pub fn put_i32(output: &mut Vec<u8>, v: i32)
    ensures
        final(output)@ == old(output)@ + le32(unsigned32(v as int)),
{
    let u: u32 = if v < 0 {
        (v - i32::MIN) as u32 + 0x8000_0000
    } else {
        v as u32
    };
    put_u32(output, u);
}

/// Appends a signed 64-bit integer in two's complement.
pub fn put_i64(output: &mut Vec<u8>, v: i64)
    ensures
        final(output)@ == old(output)@ + le64(unsigned64(v as int)),
{
    let u: u64 = if v < 0 {
        (v - i64::MIN) as u64 + 0x8000_0000_0000_0000
    } else {
        v as u64
    };
    put_u64(output, u);
}

/// Reads four little-endian bytes at `at`.
pub fn get_u32(bytes: &[u8], at: usize) -> (value: Option<u32>)
    ensures
        match value {
            Some(v) => read32(bytes@, at as int) == Some(v as int),
            None => read32(bytes@, at as int) is None,
        },
        value is Some <==> at + 4 <= bytes.len(),
{
    if at > bytes.len() || bytes.len() - at < 4 {
        return None;
    }
    let v: u32 = bytes[at] as u32 + bytes[at + 1] as u32 * 0x100 + bytes[at + 2] as u32 * 0x1_0000
        + bytes[at + 3] as u32 * 0x100_0000;
    Some(v)
}

/// Reads eight little-endian bytes at `at`.
pub fn get_u64(bytes: &[u8], at: usize) -> (value: Option<u64>)
    ensures
        match value {
            Some(v) => read64(bytes@, at as int) == Some(v as int),
            None => read64(bytes@, at as int) is None,
        },
        value is Some <==> at + 8 <= bytes.len(),
{
    if at > bytes.len() || bytes.len() - at < 8 {
        return None;
    }
    let v: u64 = bytes[at] as u64 + bytes[at + 1] as u64 * 0x100 + bytes[at + 2] as u64
        * 0x1_0000 + bytes[at + 3] as u64 * 0x100_0000 + bytes[at + 4] as u64 * 0x1_0000_0000
        + bytes[at + 5] as u64 * 0x100_0000_0000 + bytes[at + 6] as u64 * 0x1_0000_0000_0000
        + bytes[at + 7] as u64 * 0x100_0000_0000_0000;
    Some(v)
}

/// Turns a 32-bit two's complement into the signed integer it stands for.
pub fn to_i32(u: u32) -> (v: i32)
    ensures
        v == signed32(u as int),
{
    if u >= 0x8000_0000 {
        (u - 0x8000_0000) as i32 + i32::MIN
    } else {
        u as i32
    }
}

/// Turns a 64-bit two's complement into the signed integer it stands for.
pub fn to_i64(u: u64) -> (v: i64)
    ensures
        v == signed64(u as int),
{
    if u >= 0x8000_0000_0000_0000 {
        (u - 0x8000_0000_0000_0000) as i64 + i64::MIN
    } else {
        u as i64
    }
}

impl DataView {
    /// The encoding of a field value: its kind tag, then the integer, or the
    /// buffer's length and bytes.
    pub open spec fn encoding(self) -> Seq<u8> {
        match self {
            DataView::SInt(v) => le32(TAG_SINT as int) + le64(unsigned64(v as int)),
            DataView::UInt(v) => le32(TAG_UINT as int) + le64(v as int),
            DataView::Binary(bytes) => le32(TAG_BINARY as int) + le64(bytes.len() as int) + bytes,
        }
    }

    /// The value can be encoded: a buffer's length fits in 64 bits.
    pub open spec fn encodable(self) -> bool {
        match self {
            DataView::Binary(bytes) => bytes.len() <= u64::MAX,
            _ => true,
        }
    }
}

/// The encodings of a run of field values, one after the other.
pub open spec fn fields_encoding(data: Seq<DataView>) -> Seq<u8>
    decreases data.len(),
{
    if data.len() == 0 {
        Seq::empty()
    } else {
        fields_encoding(data.drop_last()) + data.last().encoding()
    }
}

impl CommandView {
    /// The encoding of a command: opcode, field count, fields.
    pub open spec fn encoding(self) -> Seq<u8> {
        le32(unsigned32(self.id as int)) + le64(self.data.len() as int) + fields_encoding(
            self.data,
        )
    }

    /// The command can be encoded: every length in it fits in 64 bits.
    pub open spec fn encodable(self) -> bool {
        &&& self.data.len() <= u64::MAX
        &&& forall|i: int| 0 <= i < self.data.len() ==> (#[trigger] self.data[i]).encodable()
    }
}

/// The encodings of a run of commands, one after the other.
pub open spec fn commands_encoding(commands: Seq<CommandView>) -> Seq<u8>
    decreases commands.len(),
{
    if commands.len() == 0 {
        Seq::empty()
    } else {
        commands_encoding(commands.drop_last()) + commands.last().encoding()
    }
}

impl InputView {
    /// The encoding of an input: command count, commands.
    pub open spec fn encoding(self) -> Seq<u8> {
        le64(self.commands.len() as int) + commands_encoding(self.commands)
    }

    /// The input can be encoded: every length in it fits in 64 bits.
    pub open spec fn encodable(self) -> bool {
        &&& self.commands.len() <= u64::MAX
        &&& forall|i: int|
            0 <= i < self.commands.len() ==> (#[trigger] self.commands[i]).encodable()
    }
}

/// Reads one field value at `at`: the value and the position after it.
pub open spec fn parse_data(bytes: Seq<u8>, at: int) -> Result<(DataView, int), DecodeError> {
    match (read32(bytes, at), read64(bytes, at + 4)) {
        (None, _) => Err(DecodeError::UnexpectedEnd),
        (Some(tag), payload) => {
            if tag > TAG_BINARY {
                Err(DecodeError::UnknownKind(tag as u32))
            } else {
                match payload {
                    None => Err(DecodeError::UnexpectedEnd),
                    Some(word) => {
                        if tag == TAG_SINT {
                            Ok((DataView::SInt(signed64(word) as i64), at + 12))
                        } else if tag == TAG_UINT {
                            Ok((DataView::UInt(word as u64), at + 12))
                        } else if at + 12 + word <= bytes.len() {
                            Ok(
                                (
                                    DataView::Binary(bytes.subrange(at + 12, at + 12 + word)),
                                    at + 12 + word,
                                ),
                            )
                        } else {
                            Err(DecodeError::UnexpectedEnd)
                        }
                    },
                }
            }
        },
    }
}

/// Reads `count` field values from `at` on: the values and the position
/// after the last. The first value that cannot be read gives the error.
pub open spec fn parse_fields(bytes: Seq<u8>, at: int, count: nat) -> Result<
    (Seq<DataView>, int),
    DecodeError,
>
    decreases count,
{
    if count == 0 {
        Ok((Seq::empty(), at))
    } else {
        match parse_fields(bytes, at, (count - 1) as nat) {
            Err(e) => Err(e),
            Ok((data, mid)) => match parse_data(bytes, mid) {
                Err(e) => Err(e),
                Ok((value, next)) => Ok((data.push(value), next)),
            },
        }
    }
}

/// Reads one command at `at`: the command and the position after it.
pub open spec fn parse_command(bytes: Seq<u8>, at: int) -> Result<(CommandView, int), DecodeError> {
    match (read32(bytes, at), read64(bytes, at + 4)) {
        (Some(id), Some(count)) => match parse_fields(bytes, at + 12, count as nat) {
            Err(e) => Err(e),
            Ok((data, next)) => Ok((CommandView { id: signed32(id) as i32, data }, next)),
        },
        _ => Err(DecodeError::UnexpectedEnd),
    }
}

/// Reads `count` commands from `at` on: the commands and the position after
/// the last. The first command that cannot be read gives the error.
pub open spec fn parse_commands(bytes: Seq<u8>, at: int, count: nat) -> Result<
    (Seq<CommandView>, int),
    DecodeError,
>
    decreases count,
{
    if count == 0 {
        Ok((Seq::empty(), at))
    } else {
        match parse_commands(bytes, at, (count - 1) as nat) {
            Err(e) => Err(e),
            Ok((commands, mid)) => match parse_command(bytes, mid) {
                Err(e) => Err(e),
                Ok((command, next)) => Ok((commands.push(command), next)),
            },
        }
    }
}

/// Reads an input at `at`: the input and the position after it.
pub open spec fn parse_input_at(bytes: Seq<u8>, at: int) -> Result<(InputView, int), DecodeError> {
    match read64(bytes, at) {
        None => Err(DecodeError::UnexpectedEnd),
        Some(count) => match parse_commands(bytes, at + 8, count as nat) {
            Err(e) => Err(e),
            Ok((commands, next)) => Ok((InputView { commands }, next)),
        },
    }
}

/// What a byte string decodes to: the input at its start. Bytes after the
/// input are not looked at.
pub open spec fn parse_input(bytes: Seq<u8>) -> Result<InputView, DecodeError> {
    match parse_input_at(bytes, 0) {
        Err(e) => Err(e),
        Ok((input, _)) => Ok(input),
    }
}

/// Once a run of fields fails to parse, every longer run fails the same way.
proof fn lemma_fields_error_stays(bytes: Seq<u8>, at: int, short: nat, long: nat, e: DecodeError)
    requires
        short <= long,
        parse_fields(bytes, at, short) == Err::<(Seq<DataView>, int), _>(e),
    ensures
        parse_fields(bytes, at, long) == Err::<(Seq<DataView>, int), _>(e),
    decreases long,
{
    if short < long {
        lemma_fields_error_stays(bytes, at, short, (long - 1) as nat, e);
    }
}

/// Once a run of commands fails to parse, every longer run fails the same
/// way.
proof fn lemma_commands_error_stays(
    bytes: Seq<u8>,
    at: int,
    short: nat,
    long: nat,
    e: DecodeError,
)
    requires
        short <= long,
        parse_commands(bytes, at, short) == Err::<(Seq<CommandView>, int), _>(e),
    ensures
        parse_commands(bytes, at, long) == Err::<(Seq<CommandView>, int), _>(e),
    decreases long,
{
    if short < long {
        lemma_commands_error_stays(bytes, at, short, (long - 1) as nat, e);
    }
}

impl CommandData {
    /// Appends the encoding of this field value.
    pub fn encode_into(&self, output: &mut Vec<u8>)
        ensures
            final(output)@ == old(output)@ + self@.encoding(),
    {
        match self {
            CommandData::SInt(value) => {
                put_u32(output, TAG_SINT);
                put_i64(output, *value);
            },
            CommandData::UInt(value) => {
                put_u32(output, TAG_UINT);
                put_u64(output, *value);
            },
            CommandData::Binary(value) => {
                put_u32(output, TAG_BINARY);
                put_u64(output, value.len() as u64);
                output.extend_from_slice(value);
            },
        }
    }
}

impl Command {
    /// Appends the encoding of this command.
    pub fn encode_into(&self, output: &mut Vec<u8>)
        ensures
            final(output)@ == old(output)@ + self@.encoding(),
    {
        put_i32(output, self.id);
        put_u64(output, self.data.len() as u64);
        let ghost head = output@;
        let mut i: usize = 0;
        while i < self.data.len()
            invariant
                i <= self.data@.len(),
                output@ == head + fields_encoding(self@.data.take(i as int)),
            decreases self.data@.len() - i,
        {
            self.data[i].encode_into(output);
            proof {
                let next = self@.data.take(i + 1);
                assert(next.drop_last() == self@.data.take(i as int));
                assert(next.last() == self.data@[i as int]@);
            }
            i += 1;
        }
        assert(self@.data.take(i as int) == self@.data);
    }
}

impl Input {
    /// Appends the encoding of this input.
    pub fn encode_into(&self, output: &mut Vec<u8>)
        ensures
            final(output)@ == old(output)@ + self@.encoding(),
    {
        put_u64(output, self.commands.len() as u64);
        let ghost head = output@;
        let mut i: usize = 0;
        while i < self.commands.len()
            invariant
                i <= self.commands@.len(),
                output@ == head + commands_encoding(self@.commands.take(i as int)),
            decreases self.commands@.len() - i,
        {
            self.commands[i].encode_into(output);
            proof {
                let next = self@.commands.take(i + 1);
                assert(next.drop_last() == self@.commands.take(i as int));
                assert(next.last() == self.commands@[i as int]@);
            }
            i += 1;
        }
        assert(self@.commands.take(i as int) == self@.commands);
    }

    /// The encoding of this input. Decoding it gives the input back.
    pub fn encode(&self) -> (bytes: Vec<u8>)
        ensures
            bytes@ == self@.encoding(),
            parse_input(bytes@) == Ok::<_, DecodeError>(self@),
    {
        let mut bytes: Vec<u8> = Vec::new();
        self.encode_into(&mut bytes);
        proof {
            lemma_encodable(self);
            lemma_round_trip(self@, Seq::empty());
            assert(self@.encoding() + Seq::<u8>::empty() == self@.encoding());
        }
        bytes
    }
}

/// Reads one field value at `at`.
pub fn decode_data(bytes: &[u8], at: usize) -> (r: Result<(CommandData, usize), DecodeError>)
    ensures
        match r {
            Ok((value, next)) => parse_data(bytes@, at as int) == Ok::<_, DecodeError>(
                (value@, next as int),
            ) && at <= next <= bytes.len(),
            Err(e) => parse_data(bytes@, at as int) == Err::<(DataView, int), _>(e),
        },
{
    let tag: u32 = match get_u32(bytes, at) {
        Some(tag) => tag,
        None => { return Err(DecodeError::UnexpectedEnd); },
    };
    if tag > TAG_BINARY {
        return Err(DecodeError::UnknownKind(tag));
    }
    let word: u64 = match get_u64(bytes, at + 4) {
        Some(word) => word,
        None => { return Err(DecodeError::UnexpectedEnd); },
    };
    let start: usize = at + 12;
    if tag == TAG_SINT {
        return Ok((CommandData::SInt(to_i64(word)), start));
    }
    if tag == TAG_UINT {
        return Ok((CommandData::UInt(word), start));
    }
    if word > (bytes.len() - start) as u64 {
        return Err(DecodeError::UnexpectedEnd);
    }
    let end: usize = start + word as usize;
    let mut payload: Vec<u8> = Vec::new();
    let mut i: usize = start;
    while i < end
        invariant
            start <= i <= end <= bytes@.len(),
            payload@ == bytes@.subrange(start as int, i as int),
        decreases end - i,
    {
        payload.push(bytes[i]);
        i += 1;
    }
    Ok((CommandData::Binary(payload), end))
}

/// Reads one command at `at`.
pub fn decode_command(bytes: &[u8], at: usize) -> (r: Result<(Command, usize), DecodeError>)
    ensures
        match r {
            Ok((command, next)) => parse_command(bytes@, at as int) == Ok::<_, DecodeError>(
                (command@, next as int),
            ) && at <= next <= bytes.len(),
            Err(e) => parse_command(bytes@, at as int) == Err::<(CommandView, int), _>(e),
        },
{
    let id: u32 = match get_u32(bytes, at) {
        Some(id) => id,
        None => { return Err(DecodeError::UnexpectedEnd); },
    };
    let count: u64 = match get_u64(bytes, at + 4) {
        Some(count) => count,
        None => { return Err(DecodeError::UnexpectedEnd); },
    };
    let start: usize = at + 12;
    let mut data: Vec<CommandData> = Vec::new();
    let mut pos: usize = start;
    let mut n: u64 = 0;
    assert(data@.map_values(|d: CommandData| d@) == Seq::<DataView>::empty());
    while n < count
        invariant
            n <= count,
            start == at + 12,
            start <= pos <= bytes@.len(),
            read32(bytes@, at as int) == Some(id as int),
            read64(bytes@, at + 4) == Some(count as int),
            parse_fields(bytes@, start as int, n as nat) == Ok::<_, DecodeError>(
                (data@.map_values(|d: CommandData| d@), pos as int),
            ),
        decreases count - n,
    {
        match decode_data(bytes, pos) {
            Ok((value, next)) => {
                proof {
                    assert(data@.push(value).map_values(|d: CommandData| d@) == data@.map_values(
                        |d: CommandData| d@,
                    ).push(value@));
                }
                data.push(value);
                pos = next;
            },
            Err(e) => {
                proof {
                    assert(parse_fields(bytes@, start as int, (n + 1) as nat) == Err::<
                        (Seq<DataView>, int),
                        _,
                    >(e));
                    lemma_fields_error_stays(
                        bytes@,
                        start as int,
                        (n + 1) as nat,
                        count as nat,
                        e,
                    );
                }
                return Err(e);
            },
        }
        n += 1;
    }
    Ok((Command { id: to_i32(id), data }, pos))
}

/// Reads an input at `at`.
pub fn decode_input_at(bytes: &[u8], at: usize) -> (r: Result<(Input, usize), DecodeError>)
    ensures
        match r {
            Ok((input, next)) => parse_input_at(bytes@, at as int) == Ok::<_, DecodeError>(
                (input@, next as int),
            ) && at <= next <= bytes.len(),
            Err(e) => parse_input_at(bytes@, at as int) == Err::<(InputView, int), _>(e),
        },
{
    let count: u64 = match get_u64(bytes, at) {
        Some(count) => count,
        None => { return Err(DecodeError::UnexpectedEnd); },
    };
    let start: usize = at + 8;
    let mut commands: Vec<Command> = Vec::new();
    let mut pos: usize = start;
    let mut n: u64 = 0;
    assert(commands@.map_values(|c: Command| c@) == Seq::<CommandView>::empty());
    while n < count
        invariant
            n <= count,
            start == at + 8,
            start <= pos <= bytes@.len(),
            read64(bytes@, at as int) == Some(count as int),
            parse_commands(bytes@, start as int, n as nat) == Ok::<_, DecodeError>(
                (commands@.map_values(|c: Command| c@), pos as int),
            ),
        decreases count - n,
    {
        match decode_command(bytes, pos) {
            Ok((command, next)) => {
                proof {
                    assert(commands@.push(command).map_values(|c: Command| c@)
                        == commands@.map_values(|c: Command| c@).push(command@));
                }
                commands.push(command);
                pos = next;
            },
            Err(e) => {
                proof {
                    assert(parse_commands(bytes@, start as int, (n + 1) as nat) == Err::<
                        (Seq<CommandView>, int),
                        _,
                    >(e));
                    lemma_commands_error_stays(
                        bytes@,
                        start as int,
                        (n + 1) as nat,
                        count as nat,
                        e,
                    );
                }
                return Err(e);
            },
        }
        n += 1;
    }
    Ok((Input { commands }, pos))
}

impl Input {
    /// Decodes the input at the start of `bytes`. Bytes after it are not
    /// looked at. Fails where the bytes end too early or a field has an
    /// unknown kind; what succeeds is the input whose encoding the bytes
    /// start with.
    pub fn decode(bytes: &[u8]) -> (r: Result<Input, DecodeError>)
        ensures
            match r {
                Ok(input) => parse_input(bytes@) == Ok::<_, DecodeError>(input@) && holds_at(
                    bytes@,
                    0,
                    input@.encoding(),
                ),
                Err(e) => parse_input(bytes@) == Err::<InputView, _>(e),
            },
            bytes@.len() < 8 ==> r == Err::<Input, _>(DecodeError::UnexpectedEnd),
    {
        match decode_input_at(bytes, 0) {
            Ok((input, _)) => {
                proof {
                    lemma_decodes_iff_encoded(bytes@, input@);
                }
                Ok(input)
            },
            Err(e) => Err(e),
        }
    }
}

/// The bytes of `part` stand in `bytes` from position `at` on.
pub open spec fn holds_at(bytes: Seq<u8>, at: int, part: Seq<u8>) -> bool {
    &&& 0 <= at
    &&& at + part.len() <= bytes.len()
    &&& forall|i: int| 0 <= i < part.len() ==> bytes[at + i] == #[trigger] part[i]
}

/// A byte string stands at the start of whatever it is the start of.
pub proof fn lemma_holds_at_start(part: Seq<u8>, rest: Seq<u8>)
    ensures
        holds_at(part + rest, 0, part),
{
    assert forall|i: int| 0 <= i < part.len() implies (part + rest)[0 + i] == #[trigger] part[i] by {}
}

/// Where a concatenation stands, its two halves stand one after the other.
pub proof fn lemma_holds_at_split(bytes: Seq<u8>, at: int, a: Seq<u8>, b: Seq<u8>)
    requires
        holds_at(bytes, at, a + b),
    ensures
        holds_at(bytes, at, a),
        holds_at(bytes, at + a.len(), b),
{
    assert forall|i: int| 0 <= i < a.len() implies bytes[at + i] == #[trigger] a[i] by {
        assert((a + b)[i] == a[i]);
    }
    assert forall|i: int| 0 <= i < b.len() implies bytes[at + a.len() + i] == #[trigger] b[i] by {
        assert((a + b)[a.len() + i] == b[i]);
    }
}

/// Reading back four little-endian bytes gives the number they were made
/// from.
proof fn lemma_read32(bytes: Seq<u8>, at: int, v: int)
    requires
        0 <= v < 0x1_0000_0000,
        holds_at(bytes, at, le32(v)),
    ensures
        read32(bytes, at) == Some(v),
{
    let part = le32(v);
    assert(bytes[at + 0] == part[0]);
    assert(bytes[at + 1] == part[1]);
    assert(bytes[at + 2] == part[2]);
    assert(bytes[at + 3] == part[3]);
}

/// The eight base-256 digits of a 64-bit number add up to it.
proof fn lemma_digits64(v: int)
    requires
        0 <= v < 0x1_0000_0000_0000_0000,
    ensures
        v == v % 256 + (v / 0x100 % 256) * 0x100 + (v / 0x1_0000 % 256) * 0x1_0000 + (v
            / 0x100_0000 % 256) * 0x100_0000 + (v / 0x1_0000_0000 % 256) * 0x1_0000_0000 + (v
            / 0x100_0000_0000 % 256) * 0x100_0000_0000 + (v / 0x1_0000_0000_0000 % 256)
            * 0x1_0000_0000_0000 + (v / 0x100_0000_0000_0000 % 256) * 0x100_0000_0000_0000,
{
    let q1 = v / 0x100;
    let q2 = q1 / 0x100;
    let q3 = q2 / 0x100;
    let q4 = q3 / 0x100;
    let q5 = q4 / 0x100;
    let q6 = q5 / 0x100;
    let q7 = q6 / 0x100;
    assert(v / 0x1_0000 == q2);
    assert(v / 0x100_0000 == q3);
    assert(v / 0x1_0000_0000 == q4);
    assert(v / 0x100_0000_0000 == q5);
    assert(v / 0x1_0000_0000_0000 == q6);
    assert(v / 0x100_0000_0000_0000 == q7);
    assert(q7 < 256);
}

/// Reading back eight little-endian bytes gives the number they were made
/// from.
pub proof fn lemma_read64(bytes: Seq<u8>, at: int, v: int)
    requires
        0 <= v < 0x1_0000_0000_0000_0000,
        holds_at(bytes, at, le64(v)),
    ensures
        read64(bytes, at) == Some(v),
{
    let part = le64(v);
    assert(bytes[at + 0] == part[0]);
    assert(bytes[at + 1] == part[1]);
    assert(bytes[at + 2] == part[2]);
    assert(bytes[at + 3] == part[3]);
    assert(bytes[at + 4] == part[4]);
    assert(bytes[at + 5] == part[5]);
    assert(bytes[at + 6] == part[6]);
    assert(bytes[at + 7] == part[7]);
    lemma_digits64(v);
}

/// Where a 32-bit number and a 64-bit number stand one after the other,
/// both read back.
proof fn lemma_read_pair(bytes: Seq<u8>, at: int, first: int, second: int)
    requires
        0 <= first < 0x1_0000_0000,
        0 <= second < 0x1_0000_0000_0000_0000,
        holds_at(bytes, at, le32(first) + le64(second)),
    ensures
        read32(bytes, at) == Some(first),
        read64(bytes, at + 4) == Some(second),
{
    lemma_holds_at_split(bytes, at, le32(first), le64(second));
    lemma_read32(bytes, at, first);
    lemma_read64(bytes, at + 4, second);
}

/// Where the encoding of a field value stands, parsing gives the value back
/// and ends right after it.
proof fn lemma_parse_data(bytes: Seq<u8>, at: int, value: DataView)
    requires
        value.encodable(),
        holds_at(bytes, at, value.encoding()),
    ensures
        parse_data(bytes, at) == Ok::<_, DecodeError>((value, at + value.encoding().len())),
{
    match value {
        DataView::SInt(v) => {
            lemma_read_pair(bytes, at, TAG_SINT as int, unsigned64(v as int));
        },
        DataView::UInt(v) => {
            lemma_read_pair(bytes, at, TAG_UINT as int, v as int);
        },
        DataView::Binary(payload) => {
            let head = le32(TAG_BINARY as int) + le64(payload.len() as int);
            lemma_holds_at_split(bytes, at, head, payload);
            lemma_read_pair(bytes, at, TAG_BINARY as int, payload.len() as int);
            assert(bytes.subrange(at + 12, at + 12 + payload.len()) =~= payload);
        },
    }
}

/// Where the encodings of a run of field values stand, parsing as many
/// fields gives the values back and ends right after them.
proof fn lemma_parse_fields(bytes: Seq<u8>, at: int, data: Seq<DataView>)
    requires
        forall|i: int| 0 <= i < data.len() ==> (#[trigger] data[i]).encodable(),
        holds_at(bytes, at, fields_encoding(data)),
    ensures
        parse_fields(bytes, at, data.len()) == Ok::<_, DecodeError>(
            (data, at + fields_encoding(data).len()),
        ),
    decreases data.len(),
{
    if data.len() == 0 {
        assert(data =~= Seq::empty());
    } else {
        let front = data.drop_last();
        lemma_holds_at_split(bytes, at, fields_encoding(front), data.last().encoding());
        lemma_parse_fields(bytes, at, front);
        lemma_parse_data(bytes, at + fields_encoding(front).len(), data.last());
        assert(front.push(data.last()) =~= data);
    }
}

/// Where the encoding of a command stands, parsing gives the command back
/// and ends right after it.
proof fn lemma_parse_command(bytes: Seq<u8>, at: int, command: CommandView)
    requires
        command.encodable(),
        holds_at(bytes, at, command.encoding()),
    ensures
        parse_command(bytes, at) == Ok::<_, DecodeError>(
            (command, at + command.encoding().len()),
        ),
{
    let id = le32(unsigned32(command.id as int));
    let count = le64(command.data.len() as int);
    lemma_holds_at_split(bytes, at, id + count, fields_encoding(command.data));
    lemma_read_pair(bytes, at, unsigned32(command.id as int), command.data.len() as int);
    lemma_parse_fields(bytes, at + 12, command.data);
}

/// Where the encodings of a run of commands stand, parsing as many commands
/// gives them back and ends right after them.
proof fn lemma_parse_commands(bytes: Seq<u8>, at: int, commands: Seq<CommandView>)
    requires
        forall|i: int| 0 <= i < commands.len() ==> (#[trigger] commands[i]).encodable(),
        holds_at(bytes, at, commands_encoding(commands)),
    ensures
        parse_commands(bytes, at, commands.len()) == Ok::<_, DecodeError>(
            (commands, at + commands_encoding(commands).len()),
        ),
    decreases commands.len(),
{
    if commands.len() == 0 {
        assert(commands =~= Seq::empty());
    } else {
        let front = commands.drop_last();
        lemma_holds_at_split(bytes, at, commands_encoding(front), commands.last().encoding());
        lemma_parse_commands(bytes, at, front);
        lemma_parse_command(bytes, at + commands_encoding(front).len(), commands.last());
        assert(front.push(commands.last()) =~= commands);
    }
}

/// Where the encoding of an input stands, parsing gives the input back and
/// ends right after it.
pub proof fn lemma_parse_input_at(bytes: Seq<u8>, at: int, input: InputView)
    requires
        input.encodable(),
        holds_at(bytes, at, input.encoding()),
    ensures
        parse_input_at(bytes, at) == Ok::<_, DecodeError>((input, at + input.encoding().len())),
{
    lemma_holds_at_split(
        bytes,
        at,
        le64(input.commands.len() as int),
        commands_encoding(input.commands),
    );
    lemma_read64(bytes, at, input.commands.len() as int);
    lemma_parse_commands(bytes, at + 8, input.commands);
}

/// Decoding undoes encoding: the encoding of any encodable input, with
/// whatever bytes after it, parses to that input.
pub proof fn lemma_round_trip(input: InputView, rest: Seq<u8>)
    requires
        input.encodable(),
    ensures
        parse_input(input.encoding() + rest) == Ok::<_, DecodeError>(input),
{
    lemma_holds_at_start(input.encoding(), rest);
    lemma_parse_input_at(input.encoding() + rest, 0, input);
}

/// Every input that a program can hold is encodable.
pub proof fn lemma_encodable(input: &Input)
    ensures
        input@.encodable(),
{
    assert(input.commands.len() <= usize::MAX);
    assert forall|i: int| 0 <= i < input@.commands.len() implies (
    #[trigger] input@.commands[i]).encodable() by {
        let command = input.commands@[i];
        assert(input@.commands[i] == command@);
        assert(command.data.len() <= usize::MAX);
        assert forall|j: int| 0 <= j < command@.data.len() implies (
        #[trigger] command@.data[j]).encodable() by {
            let value = command.data@[j];
            assert(command@.data[j] == value@);
            match value {
                CommandData::Binary(payload) => {
                    assert(payload.len() <= usize::MAX);
                },
                _ => {},
            }
        }
    }
}

/// Two byte strings that stand one after the other stand there as their
/// concatenation.
pub proof fn lemma_holds_at_join(bytes: Seq<u8>, at: int, a: Seq<u8>, b: Seq<u8>)
    requires
        holds_at(bytes, at, a),
        holds_at(bytes, at + a.len(), b),
    ensures
        holds_at(bytes, at, a + b),
{
    assert forall|i: int| 0 <= i < (a + b).len() implies bytes[at + i] == #[trigger] (a + b)[i] by {
        if i < a.len() {
            assert((a + b)[i] == a[i]);
        } else {
            assert((a + b)[i] == b[i - a.len()]);
            assert(bytes[at + a.len() + (i - a.len())] == b[i - a.len()]);
        }
    }
}

/// The base-256 digits of a number that is put together from four bytes are
/// those bytes.
proof fn lemma_bytes32(b0: int, b1: int, b2: int, b3: int)
    requires
        0 <= b0 < 256,
        0 <= b1 < 256,
        0 <= b2 < 256,
        0 <= b3 < 256,
    ensures
        ({
            let v = b0 + b1 * 0x100 + b2 * 0x1_0000 + b3 * 0x100_0000;
            &&& 0 <= v < 0x1_0000_0000
            &&& v % 256 == b0
            &&& v / 0x100 % 256 == b1
            &&& v / 0x1_0000 % 256 == b2
            &&& v / 0x100_0000 % 256 == b3
        }),
{
    let v3 = b3;
    let v2 = b2 + 256 * v3;
    let v1 = b1 + 256 * v2;
    let v = b0 + 256 * v1;
    assert(v / 0x100 == v1);
    assert(v1 / 0x100 == v2);
    assert(v2 / 0x100 == v3);
    assert(v / 0x1_0000 == v2);
    assert(v / 0x100_0000 == v3);
}

/// Four bytes that read as a number are the little-endian bytes of that
/// number.
proof fn lemma_read32_bytes(bytes: Seq<u8>, at: int)
    requires
        read32(bytes, at) is Some,
    ensures
        0 <= read32(bytes, at).unwrap() < 0x1_0000_0000,
        holds_at(bytes, at, le32(read32(bytes, at).unwrap())),
{
    let v = read32(bytes, at).unwrap();
    let part = le32(v);
    lemma_bytes32(
        bytes[at] as int,
        bytes[at + 1] as int,
        bytes[at + 2] as int,
        bytes[at + 3] as int,
    );
    assert(part[0] == bytes[at + 0]);
    assert(part[1] == bytes[at + 1]);
    assert(part[2] == bytes[at + 2]);
    assert(part[3] == bytes[at + 3]);
    assert forall|i: int| 0 <= i < part.len() implies bytes[at + i] == #[trigger] part[i] by {}
}

/// The base-256 digits of a number that is put together from eight bytes are
/// those bytes.
proof fn lemma_bytes64(
    b0: int,
    b1: int,
    b2: int,
    b3: int,
    b4: int,
    b5: int,
    b6: int,
    b7: int,
)
    requires
        0 <= b0 < 256,
        0 <= b1 < 256,
        0 <= b2 < 256,
        0 <= b3 < 256,
        0 <= b4 < 256,
        0 <= b5 < 256,
        0 <= b6 < 256,
        0 <= b7 < 256,
    ensures
        ({
            let v = b0 + b1 * 0x100 + b2 * 0x1_0000 + b3 * 0x100_0000 + b4 * 0x1_0000_0000 + b5
                * 0x100_0000_0000 + b6 * 0x1_0000_0000_0000 + b7 * 0x100_0000_0000_0000;
            &&& 0 <= v < 0x1_0000_0000_0000_0000
            &&& v % 256 == b0
            &&& v / 0x100 % 256 == b1
            &&& v / 0x1_0000 % 256 == b2
            &&& v / 0x100_0000 % 256 == b3
            &&& v / 0x1_0000_0000 % 256 == b4
            &&& v / 0x100_0000_0000 % 256 == b5
            &&& v / 0x1_0000_0000_0000 % 256 == b6
            &&& v / 0x100_0000_0000_0000 % 256 == b7
        }),
{
    let v7 = b7;
    let v6 = b6 + 256 * v7;
    let v5 = b5 + 256 * v6;
    let v4 = b4 + 256 * v5;
    let v3 = b3 + 256 * v4;
    let v2 = b2 + 256 * v3;
    let v1 = b1 + 256 * v2;
    let v = b0 + 256 * v1;
    assert(v / 0x100 == v1);
    assert(v1 / 0x100 == v2);
    assert(v2 / 0x100 == v3);
    assert(v3 / 0x100 == v4);
    assert(v4 / 0x100 == v5);
    assert(v5 / 0x100 == v6);
    assert(v6 / 0x100 == v7);
    assert(v / 0x1_0000 == v2);
    assert(v / 0x100_0000 == v3);
    assert(v / 0x1_0000_0000 == v4);
    assert(v / 0x100_0000_0000 == v5);
    assert(v / 0x1_0000_0000_0000 == v6);
    assert(v / 0x100_0000_0000_0000 == v7);
}

/// Eight bytes that read as a number are the little-endian bytes of that
/// number.
pub proof fn lemma_read64_bytes(bytes: Seq<u8>, at: int)
    requires
        read64(bytes, at) is Some,
    ensures
        0 <= read64(bytes, at).unwrap() < 0x1_0000_0000_0000_0000,
        holds_at(bytes, at, le64(read64(bytes, at).unwrap())),
{
    let v = read64(bytes, at).unwrap();
    let part = le64(v);
    lemma_bytes64(
        bytes[at] as int,
        bytes[at + 1] as int,
        bytes[at + 2] as int,
        bytes[at + 3] as int,
        bytes[at + 4] as int,
        bytes[at + 5] as int,
        bytes[at + 6] as int,
        bytes[at + 7] as int,
    );
    assert(part[0] == bytes[at + 0]);
    assert(part[1] == bytes[at + 1]);
    assert(part[2] == bytes[at + 2]);
    assert(part[3] == bytes[at + 3]);
    assert(part[4] == bytes[at + 4]);
    assert(part[5] == bytes[at + 5]);
    assert(part[6] == bytes[at + 6]);
    assert(part[7] == bytes[at + 7]);
    assert forall|i: int| 0 <= i < part.len() implies bytes[at + i] == #[trigger] part[i] by {}
}

/// What parses as a field value is the encoding of that value, and the
/// parser ends right after it.
proof fn lemma_data_is_encoding(bytes: Seq<u8>, at: int)
    requires
        parse_data(bytes, at) is Ok,
    ensures
        ({
            let (value, next) = parse_data(bytes, at).unwrap();
            &&& value.encodable()
            &&& next == at + value.encoding().len()
            &&& holds_at(bytes, at, value.encoding())
        }),
{
    let (value, next) = parse_data(bytes, at).unwrap();
    lemma_read32_bytes(bytes, at);
    lemma_read64_bytes(bytes, at + 4);
    let tag = le32(read32(bytes, at).unwrap());
    let word = le64(read64(bytes, at + 4).unwrap());
    lemma_holds_at_join(bytes, at, tag, word);
    match value {
        DataView::Binary(payload) => {
            assert(holds_at(bytes, at + 12, payload));
            lemma_holds_at_join(bytes, at, tag + word, payload);
        },
        _ => {},
    }
}

/// What parses as a run of field values is the encodings of those values,
/// one after the other, and the parser ends right after them.
proof fn lemma_fields_is_encoding(bytes: Seq<u8>, at: int, count: nat)
    requires
        0 <= at <= bytes.len(),
        parse_fields(bytes, at, count) is Ok,
    ensures
        ({
            let (data, next) = parse_fields(bytes, at, count).unwrap();
            &&& data.len() == count
            &&& forall|i: int| 0 <= i < data.len() ==> (#[trigger] data[i]).encodable()
            &&& next == at + fields_encoding(data).len()
            &&& holds_at(bytes, at, fields_encoding(data))
        }),
    decreases count,
{
    if count > 0 {
        lemma_fields_is_encoding(bytes, at, (count - 1) as nat);
        let (front, mid) = parse_fields(bytes, at, (count - 1) as nat).unwrap();
        lemma_data_is_encoding(bytes, mid);
        let (value, next) = parse_data(bytes, mid).unwrap();
        let data = front.push(value);
        assert(data.drop_last() =~= front);
        lemma_holds_at_join(bytes, at, fields_encoding(front), value.encoding());
    }
}

/// What parses as a command is the encoding of that command, and the parser
/// ends right after it.
proof fn lemma_command_is_encoding(bytes: Seq<u8>, at: int)
    requires
        parse_command(bytes, at) is Ok,
    ensures
        ({
            let (command, next) = parse_command(bytes, at).unwrap();
            &&& command.encodable()
            &&& next == at + command.encoding().len()
            &&& holds_at(bytes, at, command.encoding())
        }),
{
    lemma_read32_bytes(bytes, at);
    lemma_read64_bytes(bytes, at + 4);
    let count = read64(bytes, at + 4).unwrap();
    lemma_fields_is_encoding(bytes, at + 12, count as nat);
    let (command, next) = parse_command(bytes, at).unwrap();
    let id = le32(read32(bytes, at).unwrap());
    lemma_holds_at_join(bytes, at, id, le64(count));
    lemma_holds_at_join(bytes, at, id + le64(count), fields_encoding(command.data));
}

/// What parses as a run of commands is the encodings of those commands, one
/// after the other, and the parser ends right after them.
proof fn lemma_commands_is_encoding(bytes: Seq<u8>, at: int, count: nat)
    requires
        0 <= at <= bytes.len(),
        parse_commands(bytes, at, count) is Ok,
    ensures
        ({
            let (commands, next) = parse_commands(bytes, at, count).unwrap();
            &&& commands.len() == count
            &&& forall|i: int| 0 <= i < commands.len() ==> (#[trigger] commands[i]).encodable()
            &&& next == at + commands_encoding(commands).len()
            &&& holds_at(bytes, at, commands_encoding(commands))
        }),
    decreases count,
{
    if count > 0 {
        lemma_commands_is_encoding(bytes, at, (count - 1) as nat);
        let (front, mid) = parse_commands(bytes, at, (count - 1) as nat).unwrap();
        lemma_command_is_encoding(bytes, mid);
        let (command, next) = parse_command(bytes, mid).unwrap();
        let commands = front.push(command);
        assert(commands.drop_last() =~= front);
        lemma_holds_at_join(bytes, at, commands_encoding(front), command.encoding());
    }
}

/// What parses as an input is the encoding of that input, and the parser
/// ends right after it.
pub proof fn lemma_input_is_encoding(bytes: Seq<u8>, at: int)
    requires
        parse_input_at(bytes, at) is Ok,
    ensures
        ({
            let (input, next) = parse_input_at(bytes, at).unwrap();
            &&& input.encodable()
            &&& next == at + input.encoding().len()
            &&& holds_at(bytes, at, input.encoding())
        }),
{
    lemma_read64_bytes(bytes, at);
    let count = read64(bytes, at).unwrap();
    lemma_commands_is_encoding(bytes, at + 8, count as nat);
    let (input, next) = parse_input_at(bytes, at).unwrap();
    lemma_holds_at_join(bytes, at, le64(count), commands_encoding(input.commands));
}

/// Decoding accepts nothing but encodings: a byte string decodes to an input
/// exactly when it starts with the encoding of that input.
pub proof fn lemma_decodes_iff_encoded(bytes: Seq<u8>, input: InputView)
    ensures
        parse_input(bytes) == Ok::<_, DecodeError>(input) <==> input.encodable() && holds_at(
            bytes,
            0,
            input.encoding(),
        ),
{
    if parse_input(bytes) == Ok::<_, DecodeError>(input) {
        lemma_input_is_encoding(bytes, 0);
    }
    if input.encodable() && holds_at(bytes, 0, input.encoding()) {
        lemma_parse_input_at(bytes, 0, input);
    }
}

} // verus!
