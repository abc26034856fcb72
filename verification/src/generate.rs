//! Generation of fresh commands from the grammar.

use vstd::prelude::*;
use crate::grammar::{CommandDataSpec, CommandSpec};
use crate::input::{Command, CommandData};
use crate::stream::{fill_bytes, uniform_i64, uniform_len, uniform_u64, Pcg32};

verus! {

impl CommandDataSpec {
    /// Draws one value uniformly from the field's domain: an integer from
    /// `[min, max]`, or a buffer of a length drawn from `[min_len, max_len]`
    /// and filled with random bytes.
    pub fn create(&self, rng: &mut Pcg32) -> (value: CommandData)
        requires
            self.well_formed(),
        ensures
            self.admits(value@),
    {
        match *self {
            CommandDataSpec::SInt { min, max } => CommandData::SInt(uniform_i64(rng, min, max)),
            CommandDataSpec::UInt { min, max } => CommandData::UInt(uniform_u64(rng, min, max)),
            CommandDataSpec::Binary { min_len, max_len } => {
                let len: usize = uniform_len(rng, min_len, max_len);
                let mut buf: Vec<u8> = vec![0u8; len];
                fill_bytes(rng, &mut buf);
                CommandData::Binary(buf)
            },
        }
    }
}

impl CommandSpec {
    /// Instantiates the command: one fresh value for each field, drawn in
    /// field order.
    pub fn create(&self, rng: &mut Pcg32) -> (command: Command)
        requires
            self.well_formed(),
        ensures
            self.admits(command@),
    {
        let mut data: Vec<CommandData> = Vec::new();
        let mut i: usize = 0;
        while i < self.data.len()
            invariant
                i <= self.data@.len(),
                data@.len() == i,
                self.well_formed(),
                forall|j: int| 0 <= j < i ==> (#[trigger] self.data@[j]).admits(data@[j]@),
            decreases self.data@.len() - i,
        {
            let value: CommandData = self.data[i].create(rng);
            data.push(value);
            i += 1;
        }
        Command { id: self.id, data }
    }
}

} // verus!
