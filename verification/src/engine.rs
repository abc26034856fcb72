//! The mutation engine: the command table and the pseudo-random stream that
//! every mutation draws from.

use vstd::prelude::*;
use crate::grammar::{table_knows, table_well_formed, CommandSpec, CommandTable};
use crate::input::Input;
use crate::scalar::IntWalk;
use crate::stream::{seeded, Pcg32};
use crate::structural::is_structural_outcome;

verus! {

/// The mutation engine. It owns the command table, which is fixed once the
/// engine is built, the pseudo-random stream, which is seeded once and then
/// only advances, and two scratch buffers that callers fill with the results
/// of encoding.
pub struct Fuzzer {
    afl: usize,
    spec: CommandTable,
    rng: Pcg32,
    walk: IntWalk,
    fuzz_buf: Vec<u8>,
    post_buf: Vec<u8>,
}

impl Fuzzer {
    /// The command table.
    pub closed spec fn table(&self) -> Seq<CommandSpec> {
        self.spec@
    }

    /// The host's handle.
    pub closed spec fn handle(&self) -> usize {
        self.afl
    }

    /// How integer fields walk.
    pub closed spec fn walk(&self) -> IntWalk {
        self.walk
    }

    /// The state of the pseudo-random stream.
    pub closed spec fn stream(&self) -> Pcg32 {
        self.rng
    }

    /// What the first scratch buffer holds.
    pub closed spec fn fuzz_bytes(&self) -> Seq<u8> {
        self.fuzz_buf@
    }

    /// What the second scratch buffer holds.
    pub closed spec fn post_bytes(&self) -> Seq<u8> {
        self.post_buf@
    }

    /// The opaque handle of the host that the engine was built for.
    pub fn afl(&self) -> (handle: usize)
        ensures
            handle == self.handle(),
    {
        self.afl
    }

    /// The command table. It is well formed.
    pub fn spec(&self) -> (table: &[CommandSpec])
        ensures
            table@ == self.table(),
            table_well_formed(table@),
    {
        self.spec.as_slice()
    }

    /// How integer fields walk when they are not regenerated.
    pub fn int_walk(&self) -> (walk: IntWalk)
        ensures
            walk == self.walk(),
    {
        self.walk
    }

    /// The pseudo-random stream.
    pub fn rng(&self) -> (rng: &Pcg32)
        ensures
            *rng == self.stream(),
    {
        &self.rng
    }

    /// The pseudo-random stream, to draw from. Nothing else of the engine
    /// changes through it.
    pub fn rng_mut(&mut self) -> (rng: &mut Pcg32)
        ensures
            *rng == old(self).stream(),
            final(self).stream() == *final(rng),
            final(self).table() == old(self).table(),
            final(self).handle() == old(self).handle(),
            final(self).walk() == old(self).walk(),
            final(self).fuzz_bytes() == old(self).fuzz_bytes(),
            final(self).post_bytes() == old(self).post_bytes(),
    {
        &mut self.rng
    }

    /// Applies one structural mutation to `input`, drawing from the engine's
    /// stream. The input keeps fitting the table, and a non-empty input
    /// never becomes empty.
    pub fn mutate(&mut self, input: &mut Input)
        requires
            old(input)@.conforms(old(self).table()),
        ensures
            final(self).table() == old(self).table(),
            final(self).handle() == old(self).handle(),
            final(self).walk() == old(self).walk(),
            final(self).fuzz_bytes() == old(self).fuzz_bytes(),
            final(self).post_bytes() == old(self).post_bytes(),
            final(input)@.conforms(old(self).table()),
            old(input)@.commands.len() >= 1 ==> final(input)@.commands.len() >= 1,
            is_structural_outcome(old(input)@.commands, final(input)@.commands, old(self).table()),
    {
        input.mutate_with(self.spec.as_slice(), self.walk, &mut self.rng);
    }

    /// The first scratch buffer.
    pub fn fuzz_buf(&self) -> (bytes: &[u8])
        ensures
            bytes@ == self.fuzz_bytes(),
    {
        self.fuzz_buf.as_slice()
    }

    /// The second scratch buffer.
    pub fn post_buf(&self) -> (bytes: &[u8])
        ensures
            bytes@ == self.post_bytes(),
    {
        self.post_buf.as_slice()
    }

    /// Empties the first scratch buffer and hands it out for filling. What
    /// it held before is gone.
    pub fn alloc_fuzz_buf(&mut self) -> (buf: &mut Vec<u8>)
        ensures
            buf@.len() == 0,
            final(self).fuzz_bytes() == final(buf)@,
            final(self).post_bytes() == old(self).post_bytes(),
            final(self).stream() == old(self).stream(),
            final(self).table() == old(self).table(),
            final(self).handle() == old(self).handle(),
            final(self).walk() == old(self).walk(),
    {
        self.fuzz_buf.clear();
        &mut self.fuzz_buf
    }

    /// Empties the second scratch buffer and hands it out for filling. What
    /// it held before is gone.
    pub fn alloc_post_buf(&mut self) -> (buf: &mut Vec<u8>)
        ensures
            buf@.len() == 0,
            final(self).post_bytes() == final(buf)@,
            final(self).fuzz_bytes() == old(self).fuzz_bytes(),
            final(self).stream() == old(self).stream(),
            final(self).table() == old(self).table(),
            final(self).handle() == old(self).handle(),
            final(self).walk() == old(self).walk(),
    {
        self.post_buf.clear();
        &mut self.post_buf
    }
}

/// Collects the command table and the seed of an engine.
pub struct FuzzerBuilder {
    afl: usize,
    spec: CommandTable,
    rng_seed: u32,
    walk: IntWalk,
}

impl FuzzerBuilder {
    /// The command table collected so far.
    pub closed spec fn table(&self) -> Seq<CommandSpec> {
        self.spec@
    }

    /// The host's handle.
    pub closed spec fn handle(&self) -> usize {
        self.afl
    }

    /// The seed of the pseudo-random stream.
    pub closed spec fn seed(&self) -> u32 {
        self.rng_seed
    }

    /// How integer fields will walk.
    pub closed spec fn walk(&self) -> IntWalk {
        self.walk
    }

    /// Starts an engine for the host behind `afl`, with an empty command
    /// table, the given seed, and integers walking by unit steps.
    pub fn new(afl: usize, rng_seed: u32) -> (builder: FuzzerBuilder)
        ensures
            builder.table().len() == 0,
            builder.handle() == afl,
            builder.seed() == rng_seed,
            builder.walk() == IntWalk::UnitStep,
    {
        FuzzerBuilder { afl, spec: CommandTable::new(), rng_seed, walk: IntWalk::UnitStep }
    }

    /// Sets how integer fields walk when they are not regenerated.
    pub fn int_walk(self, walk: IntWalk) -> (builder: FuzzerBuilder)
        ensures
            builder.table() == self.table(),
            builder.handle() == self.handle(),
            builder.seed() == self.seed(),
            builder.walk() == walk,
    {
        FuzzerBuilder { afl: self.afl, spec: self.spec, rng_seed: self.rng_seed, walk }
    }

    /// Tells whether the table already has an entry for the opcode.
    pub fn knows(&self, id: i32) -> (yes: bool)
        ensures
            yes == table_knows(self.table(), id),
    {
        self.spec.knows(id)
    }

    /// Appends a command to the table. Its bounds must be in order and its
    /// opcode new to the table.
    pub fn add_spec(self, spec: CommandSpec) -> (builder: FuzzerBuilder)
        requires
            spec.well_formed(),
            !table_knows(self.table(), spec.id),
        ensures
            builder.table() == self.table().push(spec),
            builder.handle() == self.handle(),
            builder.seed() == self.seed(),
            builder.walk() == self.walk(),
    {
        FuzzerBuilder {
            afl: self.afl,
            spec: self.spec.with_spec(spec),
            rng_seed: self.rng_seed,
            walk: self.walk,
        }
    }

    /// Builds the engine: the table as collected, the stream seeded with the
    /// seed, and both scratch buffers empty.
    pub fn build(self) -> (fuzzer: Box<Fuzzer>)
        ensures
            fuzzer.table() == self.table(),
            fuzzer.handle() == self.handle(),
            fuzzer.walk() == self.walk(),
            fuzzer.fuzz_bytes().len() == 0,
            fuzzer.post_bytes().len() == 0,
    {
        Box::new(
            Fuzzer {
                afl: self.afl,
                spec: self.spec,
                rng: seeded(self.rng_seed as u64),
                walk: self.walk,
                fuzz_buf: Vec::new(),
                post_buf: Vec::new(),
            },
        )
    }
}

} // verus!
