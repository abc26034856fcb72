//! The command grammar: which opcodes exist and what each field may hold.

use vstd::prelude::*;

verus! {

/// The type and the valid domain of one command field.
#[derive(Clone, Copy, Debug, PartialEq, Eq)]
#[allow(inconsistent_fields)]
pub enum CommandDataSpec {
    /// A signed integer in the closed range `[min, max]`.
    SInt { min: i64, max: i64 },
    /// An unsigned integer in the closed range `[min, max]`.
    UInt { min: u64, max: u64 },
    /// A byte buffer whose length lies in `[min_len, max_len]`.
    Binary { min_len: usize, max_len: usize },
}

impl CommandDataSpec {
    /// The bounds are not inverted.
    pub open spec fn well_formed(&self) -> bool {
        match *self {
            CommandDataSpec::SInt { min, max } => min <= max,
            CommandDataSpec::UInt { min, max } => min <= max,
            CommandDataSpec::Binary { min_len, max_len } => min_len <= max_len,
        }
    }

    /// Tells whether the bounds are in order.
    pub fn is_well_formed(&self) -> (ok: bool)
        ensures
            ok == self.well_formed(),
    {
        match *self {
            CommandDataSpec::SInt { min, max } => min <= max,
            CommandDataSpec::UInt { min, max } => min <= max,
            CommandDataSpec::Binary { min_len, max_len } => min_len <= max_len,
        }
    }
}

/// One command of the grammar: its opcode and the fields it carries, in
/// order.
#[derive(Clone, Debug, PartialEq, Eq)]
pub struct CommandSpec {
    pub id: i32,
    pub data: Vec<CommandDataSpec>,
}

impl CommandSpec {
    /// Every field of the command has its bounds in order.
    pub open spec fn well_formed(&self) -> bool {
        forall|i: int| 0 <= i < self.data@.len() ==> (#[trigger] self.data@[i]).well_formed()
    }

    /// Tells whether every field has its bounds in order.
    pub fn is_well_formed(&self) -> (ok: bool)
        ensures
            ok == self.well_formed(),
    {
        let mut i: usize = 0;
        while i < self.data.len()
            invariant
                i <= self.data@.len(),
                forall|j: int| 0 <= j < i ==> (#[trigger] self.data@[j]).well_formed(),
            decreases self.data@.len() - i,
        {
            if !self.data[i].is_well_formed() {
                return false;
            }
            i += 1;
        }
        true
    }
}

/// Every command of the table is well formed, and no opcode occurs twice.
pub open spec fn table_well_formed(table: Seq<CommandSpec>) -> bool {
    &&& forall|k: int| 0 <= k < table.len() ==> (#[trigger] table[k]).well_formed()
    &&& forall|j: int, k: int|
        0 <= j < k < table.len() ==> (#[trigger] table[j]).id != (#[trigger] table[k]).id
}

/// Some entry of the table carries the opcode `id`.
pub open spec fn table_knows(table: Seq<CommandSpec>, id: i32) -> bool {
    exists|k: int| 0 <= k < table.len() && (#[trigger] table[k]).id == id
}

/// Entry `k` is the one that a lookup of `id` finds: the first with that
/// opcode.
pub open spec fn is_entry_for(table: Seq<CommandSpec>, id: i32, k: int) -> bool {
    &&& 0 <= k < table.len()
    &&& table[k].id == id
    &&& forall|j: int| 0 <= j < k ==> (#[trigger] table[j]).id != id
}

/// Finds the table entry for an opcode: the first whose `id` matches, or
/// `None` when the table has no such command.
pub fn lookup(table: &[CommandSpec], id: i32) -> (found: Option<usize>)
    ensures
        match found {
            Some(k) => is_entry_for(table@, id, k as int),
            None => !table_knows(table@, id),
        },
{
    let mut k: usize = 0;
    while k < table.len()
        invariant
            k <= table@.len(),
            forall|j: int| 0 <= j < k ==> (#[trigger] table@[j]).id != id,
        decreases table@.len() - k,
    {
        if table[k].id == id {
            return Some(k);
        }
        k += 1;
    }
    None
}

/// Tells whether a table is well formed: every entry has its bounds in order
/// and no opcode occurs twice.
pub fn is_table_well_formed(table: &[CommandSpec]) -> (ok: bool)
    ensures
        ok == table_well_formed(table@),
{
    let mut k: usize = 0;
    while k < table.len()
        invariant
            k <= table@.len(),
            forall|i: int| 0 <= i < k ==> (#[trigger] table@[i]).well_formed(),
            forall|i: int, j: int|
                0 <= i < j < k ==> (#[trigger] table@[i]).id != (#[trigger] table@[j]).id,
        decreases table@.len() - k,
    {
        if !table[k].is_well_formed() {
            return false;
        }
        let mut i: usize = 0;
        while i < k
            invariant
                i <= k < table@.len(),
                forall|h: int| 0 <= h < i ==> (#[trigger] table@[h]).id != table@[k as int].id,
            decreases k - i,
        {
            if table[i].id == table[k].id {
                return false;
            }
            i += 1;
        }
        k += 1;
    }
    true
}

/// A lookup finds at most one entry.
pub proof fn lemma_entry_unique(table: Seq<CommandSpec>, id: i32, a: int, b: int)
    requires
        is_entry_for(table, id, a),
        is_entry_for(table, id, b),
    ensures
        a == b,
{
    if a < b {
        assert(table[a].id != id);
    } else if b < a {
        assert(table[b].id != id);
    }
}

/// A command table that is well formed by construction: entries are only
/// ever appended, each with its bounds in order and an opcode that the table
/// does not hold yet.
pub struct CommandTable {
    entries: Vec<CommandSpec>,
}

impl View for CommandTable {
    type V = Seq<CommandSpec>;

    closed spec fn view(&self) -> Seq<CommandSpec> {
        self.entries@
    }
}

impl CommandTable {
    #[verifier::type_invariant]
    spec fn in_order(self) -> bool {
        table_well_formed(self.entries@)
    }

    /// A table without entries.
    pub fn new() -> (table: CommandTable)
        ensures
            table@.len() == 0,
    {
        CommandTable { entries: Vec::new() }
    }

    /// Tells whether the table has an entry for the opcode.
    pub fn knows(&self, id: i32) -> (yes: bool)
        ensures
            yes == table_knows(self@, id),
    {
        lookup(self.entries.as_slice(), id).is_some()
    }

    /// The table with one more entry at its end.
    pub fn with_spec(self, spec: CommandSpec) -> (table: CommandTable)
        requires
            spec.well_formed(),
            !table_knows(self@, spec.id),
        ensures
            table@ == self@.push(spec),
    {
        proof {
            use_type_invariant(&self);
        }
        let mut entries: Vec<CommandSpec> = self.entries;
        entries.push(spec);
        CommandTable { entries }
    }

    /// The entries, in the order in which they were appended.
    pub fn as_slice(&self) -> (entries: &[CommandSpec])
        ensures
            entries@ == self@,
            table_well_formed(entries@),
    {
        proof {
            use_type_invariant(self);
        }
        self.entries.as_slice()
    }
}

} // verus!
