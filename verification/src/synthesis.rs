//! The one-way textual rendering of an input that the fuzzed program reads:
//! one line for the opcode of each command, then one line per field.

use vstd::prelude::*;
use crate::input::{Command, CommandData, CommandView, DataView, Input, InputView};

verus! {

/// The line terminator.
pub const NEWLINE: u8 = 10;

/// The decimal digits of `n` in ASCII, most significant first, without
/// leading zeros.
pub open spec fn digits(n: nat) -> Seq<u8>
    decreases n,
{
    if n < 10 {
        seq![(48 + n) as u8]
    } else {
        digits(n / 10).push((48 + n % 10) as u8)
    }
}

/// The decimal rendering of an integer: a minus sign for a negative number,
/// then the digits of its magnitude.
pub open spec fn decimal(v: int) -> Seq<u8> {
    if v < 0 {
        seq![45u8] + digits((-v) as nat)
    } else {
        digits(v as nat)
    }
}

impl DataView {
    /// The line of one field: a decimal number for an integer, the raw
    /// bytes for a buffer.
    pub open spec fn synthesis(self) -> Seq<u8> {
        match self {
            DataView::SInt(v) => decimal(v as int).push(NEWLINE),
            DataView::UInt(v) => decimal(v as int).push(NEWLINE),
            DataView::Binary(bytes) => bytes.push(NEWLINE),
        }
    }
}

/// The lines of a run of fields, in order.
pub open spec fn fields_synthesis(data: Seq<DataView>) -> Seq<u8>
    decreases data.len(),
{
    if data.len() == 0 {
        Seq::empty()
    } else {
        fields_synthesis(data.drop_last()) + data.last().synthesis()
    }
}

impl CommandView {
    /// The opcode line followed by the field lines.
    pub open spec fn synthesis(self) -> Seq<u8> {
        decimal(self.id as int).push(NEWLINE) + fields_synthesis(self.data)
    }
}

/// The records of a run of commands, in order.
pub open spec fn commands_synthesis(commands: Seq<CommandView>) -> Seq<u8>
    decreases commands.len(),
{
    if commands.len() == 0 {
        Seq::empty()
    } else {
        commands_synthesis(commands.drop_last()) + commands.last().synthesis()
    }
}

impl InputView {
    /// The records of all commands, in order.
    pub open spec fn synthesis(self) -> Seq<u8> {
        commands_synthesis(self.commands)
    }
}

/// Appends the decimal digits of `n`.
pub fn push_digits(output: &mut Vec<u8>, n: u64)
    ensures
        final(output)@ == old(output)@ + digits(n as nat),
    decreases n,
{
    if n >= 10 {
        push_digits(output, n / 10);
    }
    output.push(48 + (n % 10) as u8);
}

/// Appends the decimal rendering of an unsigned integer.
pub fn push_unsigned(output: &mut Vec<u8>, v: u64)
    ensures
        final(output)@ == old(output)@ + decimal(v as int),
{
    push_digits(output, v);
}

/// Appends the decimal rendering of a signed integer.
pub fn push_signed(output: &mut Vec<u8>, v: i64)
    ensures
        final(output)@ == old(output)@ + decimal(v as int),
{
    if v < 0 {
        output.push(45);
        let magnitude: u64 = (-(v + 1)) as u64 + 1;
        push_digits(output, magnitude);
    } else {
        push_digits(output, v as u64);
    }
}

impl CommandData {
    /// Appends the line of this field.
    pub fn synthesis_into(&self, output: &mut Vec<u8>)
        ensures
            final(output)@ == old(output)@ + self@.synthesis(),
    {
        match self {
            CommandData::SInt(value) => {
                push_signed(output, *value);
            },
            CommandData::UInt(value) => {
                push_unsigned(output, *value);
            },
            CommandData::Binary(value) => {
                output.extend_from_slice(value);
            },
        }
        output.push(NEWLINE);
    }
}

impl Command {
    /// Appends the record of this command: the opcode line, then one line
    /// per field.
    pub fn synthesis_into(&self, output: &mut Vec<u8>)
        ensures
            final(output)@ == old(output)@ + self@.synthesis(),
    {
        push_signed(output, self.id as i64);
        output.push(NEWLINE);
        let ghost head = output@;
        let mut i: usize = 0;
        while i < self.data.len()
            invariant
                i <= self.data@.len(),
                output@ == head + fields_synthesis(self@.data.take(i as int)),
            decreases self.data@.len() - i,
        {
            self.data[i].synthesis_into(output);
            proof {
                let next = self@.data.take(i + 1);
                assert(next.drop_last() == self@.data.take(i as int));
                assert(next.last() == self.data@[i as int]@);
            }
            i += 1;
        }
        assert(self@.data.take(i as int) == self@.data);
    }
}

impl Input {
    /// Appends the records of all commands, in order.
    pub fn synthesis_into(&self, output: &mut Vec<u8>)
        ensures
            final(output)@ == old(output)@ + self@.synthesis(),
    {
        let ghost head = output@;
        let mut i: usize = 0;
        while i < self.commands.len()
            invariant
                i <= self.commands@.len(),
                output@ == head + commands_synthesis(self@.commands.take(i as int)),
            decreases self.commands@.len() - i,
        {
            self.commands[i].synthesis_into(output);
            proof {
                let next = self@.commands.take(i + 1);
                assert(next.drop_last() == self@.commands.take(i as int));
                assert(next.last() == self.commands@[i as int]@);
            }
            i += 1;
        }
        assert(self@.commands.take(i as int) == self@.commands);
    }
}

} // verus!
