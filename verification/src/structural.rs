//! Structural mutation: insert a command, remove one, or edit one in place.

use vstd::prelude::*;
use crate::buffer::{is_buffer_outcome, mutate_buf};
use crate::grammar::{
    is_entry_for, lemma_entry_unique, lookup, table_well_formed, CommandDataSpec, CommandSpec,
};
use crate::input::{
    command_conforms, Command, CommandData, CommandView, DataView, Input, InputView,
};
use crate::scalar::{mutate_signed_int_with, mutate_unsigned_int_with, IntWalk};
use crate::stream::{draw_fraction, is_limit_for, uniform_index, uniform_len, Pcg32};

verus! {

/// Everything one mutation can make of a field: a value of the same kind,
/// inside the field's domain, and for a buffer one of the buffer outcomes.
pub open spec fn is_field_outcome(field: CommandDataSpec, before: DataView, after: DataView) -> bool {
    match (field, before, after) {
        (CommandDataSpec::SInt { min, max }, DataView::SInt(_), DataView::SInt(v)) => min <= v
            <= max,
        (CommandDataSpec::UInt { min, max }, DataView::UInt(_), DataView::UInt(v)) => min <= v
            <= max,
        (
            CommandDataSpec::Binary { min_len, max_len },
            DataView::Binary(old_bytes),
            DataView::Binary(new_bytes),
        ) => {
            &&& min_len <= new_bytes.len() <= max_len
            &&& is_buffer_outcome(old_bytes, new_bytes, min_len as int, max_len as int)
        },
        _ => false,
    }
}

/// Everything one field-level mutation can make of a command: nothing when
/// it has no fields, else exactly one field takes a new value.
pub open spec fn is_command_outcome(spec: CommandSpec, before: CommandView, after: CommandView) -> bool {
    &&& after.id == before.id
    &&& if before.data.len() == 0 {
        after.data == before.data
    } else {
        exists|at: int|
            {
                &&& 0 <= at < before.data.len()
                &&& after.data == #[trigger] before.data.update(at, after.data[at])
                &&& is_field_outcome(spec.data@[at], before.data[at], after.data[at])
            }
    }
}

/// A probability draw of at most this much, three tenths, inserts a fresh
/// command.
pub const ADD_COMMAND_LIMIT: u64 = 2_702_159_776_422_297;

/// A probability draw above [`ADD_COMMAND_LIMIT`] and of at most this much,
/// six tenths, removes a command, where more than one is left: removal
/// weighs three tenths as well.
pub const REMOVE_COMMAND_LIMIT: u64 = 5_404_319_552_844_595;

/// The two limits stand for the probabilities 3/10 and 6/10.
pub proof fn lemma_structural_limits()
    ensures
        is_limit_for(ADD_COMMAND_LIMIT, 3, 10),
        is_limit_for(REMOVE_COMMAND_LIMIT, 6, 10),
{
}

/// The three kinds of structural edit.
#[derive(Clone, Copy, Debug, PartialEq, Eq, Structural)]
pub enum StructuralEdit {
    /// Insert a freshly generated command.
    Insert,
    /// Remove one command.
    Remove,
    /// Mutate one field of one command.
    Edit,
}

/// Which edit a probability draw selects for an input of `count` commands.
/// Removal is off the table while at most one command is left.
pub open spec fn structural_edit_for(draw: u64, count: int) -> StructuralEdit {
    if draw <= ADD_COMMAND_LIMIT {
        StructuralEdit::Insert
    } else if count > 1 && draw <= REMOVE_COMMAND_LIMIT {
        StructuralEdit::Remove
    } else {
        StructuralEdit::Edit
    }
}

/// Removal is only ever selected where more than one command is left.
pub proof fn lemma_removal_needs_two(draw: u64, count: int)
    ensures
        structural_edit_for(draw, count) == StructuralEdit::Remove ==> count > 1,
{
}

/// Selects the structural edit for a probability draw.
pub fn choose_structural_edit(draw: u64, count: usize) -> (edit: StructuralEdit)
    ensures
        edit == structural_edit_for(draw, count as int),
{
    if draw <= ADD_COMMAND_LIMIT {
        StructuralEdit::Insert
    } else if count > 1 && draw <= REMOVE_COMMAND_LIMIT {
        StructuralEdit::Remove
    } else {
        StructuralEdit::Edit
    }
}

/// `after` is `before` with one command inserted that fits the table.
pub open spec fn is_insertion(
    before: Seq<CommandView>,
    after: Seq<CommandView>,
    table: Seq<CommandSpec>,
) -> bool {
    exists|at: int|
        {
            &&& 0 <= at <= before.len()
            &&& after == #[trigger] before.insert(at, after[at])
            &&& command_conforms(after[at], table)
        }
}

/// `after` is `before` with one command removed, `before` holding more than
/// one.
pub open spec fn is_removal(before: Seq<CommandView>, after: Seq<CommandView>) -> bool {
    &&& before.len() > 1
    &&& exists|at: int| 0 <= at < before.len() && after == #[trigger] before.remove(at)
}

/// `after` is `before` with one command mutated in place against its table
/// entry.
pub open spec fn is_edit(
    before: Seq<CommandView>,
    after: Seq<CommandView>,
    table: Seq<CommandSpec>,
) -> bool {
    exists|at: int, k: int|
        {
            &&& 0 <= at < before.len()
            &&& is_entry_for(table, before[at].id, k)
            &&& after == #[trigger] before.update(at, after[at])
            &&& #[trigger] is_command_outcome(table[k], before[at], after[at])
        }
}

/// Everything one structural mutation can make of a command sequence. It
/// stays as it is only where the selected edit has nothing to work on: no
/// table entry to instantiate, or no command to edit.
pub open spec fn is_structural_outcome(
    before: Seq<CommandView>,
    after: Seq<CommandView>,
    table: Seq<CommandSpec>,
) -> bool {
    ||| is_insertion(before, after, table)
    ||| is_removal(before, after)
    ||| is_edit(before, after, table)
    ||| (table.len() == 0 || before.len() == 0) && after == before
}

/// A field keeps to its domain through every mutation.
pub proof fn lemma_field_outcome_admitted(field: CommandDataSpec, before: DataView, after: DataView)
    requires
        is_field_outcome(field, before, after),
    ensures
        field.admits(after),
{
}

/// A command stays an instance of its table entry through every field-level
/// mutation.
pub proof fn lemma_command_outcome_admitted(
    spec: CommandSpec,
    before: CommandView,
    after: CommandView,
)
    requires
        spec.admits(before),
        is_command_outcome(spec, before, after),
    ensures
        spec.admits(after),
{
    if before.data.len() > 0 {
        let at = choose|at: int|
            {
                &&& 0 <= at < before.data.len()
                &&& after.data == #[trigger] before.data.update(at, after.data[at])
                &&& is_field_outcome(spec.data@[at], before.data[at], after.data[at])
            };
        assert forall|i: int| 0 <= i < spec.data@.len() implies (#[trigger] spec.data@[i]).admits(
            after.data[i],
        ) by {
            if i != at {
                assert(after.data[i] == before.data[i]);
            }
        }
    }
}

/// A removal only happens where more than one command is left, and leaves
/// at least one.
pub proof fn lemma_removal_leaves_one(before: Seq<CommandView>, after: Seq<CommandView>)
    requires
        is_removal(before, after),
    ensures
        after.len() == before.len() - 1,
        after.len() >= 1,
{
}

/// An input keeps fitting the table through every structural mutation, and
/// one that holds a command never becomes empty.
pub proof fn lemma_structural_outcome_conforms(
    before: InputView,
    after: InputView,
    table: Seq<CommandSpec>,
)
    requires
        before.conforms(table),
        is_structural_outcome(before.commands, after.commands, table),
    ensures
        after.conforms(table),
        before.commands.len() >= 1 ==> after.commands.len() >= 1,
{
    let old_commands = before.commands;
    let new_commands = after.commands;
    if is_insertion(old_commands, new_commands, table) {
        let at = choose|at: int|
            {
                &&& 0 <= at <= old_commands.len()
                &&& new_commands == #[trigger] old_commands.insert(at, new_commands[at])
                &&& command_conforms(new_commands[at], table)
            };
        assert forall|i: int| 0 <= i < new_commands.len() implies command_conforms(
            #[trigger] new_commands[i],
            table,
        ) by {
            if i < at {
                assert(new_commands[i] == old_commands[i]);
            } else if i > at {
                assert(new_commands[i] == old_commands[i - 1]);
            }
        }
    } else if is_removal(old_commands, new_commands) {
        let at = choose|at: int|
            0 <= at < old_commands.len() && new_commands == #[trigger] old_commands.remove(at);
        assert forall|i: int| 0 <= i < new_commands.len() implies command_conforms(
            #[trigger] new_commands[i],
            table,
        ) by {
            if i < at {
                assert(new_commands[i] == old_commands[i]);
            } else {
                assert(new_commands[i] == old_commands[i + 1]);
            }
        }
    } else if is_edit(old_commands, new_commands, table) {
        let (at, k) = choose|at: int, k: int|
            {
                &&& 0 <= at < old_commands.len()
                &&& is_entry_for(table, old_commands[at].id, k)
                &&& new_commands == #[trigger] old_commands.update(at, new_commands[at])
                &&& #[trigger] is_command_outcome(table[k], old_commands[at], new_commands[at])
            };
        assert(command_conforms(old_commands[at], table));
        let w = choose|w: int|
            is_entry_for(table, old_commands[at].id, w) && (#[trigger] table[w]).admits(
                old_commands[at],
            );
        lemma_entry_unique(table, old_commands[at].id, k, w);
        lemma_command_outcome_admitted(table[k], old_commands[at], new_commands[at]);
        assert forall|i: int| 0 <= i < new_commands.len() implies command_conforms(
            #[trigger] new_commands[i],
            table,
        ) by {
            if i != at {
                assert(new_commands[i] == old_commands[i]);
            }
        }
    }
}

impl Command {
    /// Mutates one field, chosen uniformly, according to its kind, integers
    /// walking by unit steps. A command without fields is left alone, and
    /// nothing is drawn for it.
    pub fn mutate(&mut self, spec: &CommandSpec, rng: &mut Pcg32)
        requires
            spec.well_formed(),
            spec.admits(old(self)@),
        ensures
            spec.admits(final(self)@),
            is_command_outcome(*spec, old(self)@, final(self)@),
    {
        self.mutate_with(spec, IntWalk::UnitStep, rng);
    }

    /// Mutates one field as [`Command::mutate`] does, integers walking as
    /// `walk` says.
    pub fn mutate_with(&mut self, spec: &CommandSpec, walk: IntWalk, rng: &mut Pcg32)
        requires
            spec.well_formed(),
            spec.admits(old(self)@),
        ensures
            spec.admits(final(self)@),
            is_command_outcome(*spec, old(self)@, final(self)@),
    {
        if self.data.len() == 0 {
            return;
        }
        let at: usize = uniform_index(rng, 0, self.data.len());
        match (&mut self.data[at], &spec.data[at]) {
            (CommandData::SInt(value), CommandDataSpec::SInt { min, max }) => {
                mutate_signed_int_with(value, *min, *max, walk, rng);
            },
            (CommandData::UInt(value), CommandDataSpec::UInt { min, max }) => {
                mutate_unsigned_int_with(value, *min, *max, walk, rng);
            },
            (CommandData::Binary(value), CommandDataSpec::Binary { min_len, max_len }) => {
                mutate_buf(value, *min_len, *max_len, rng);
            },
            _ => {},
        }
        proof {
            let before = old(self)@;
            let after = self@;
            assert(spec.data@[at as int].admits(before.data[at as int]));
            assert(after.data =~= before.data.update(at as int, after.data[at as int]));
            assert(is_field_outcome(
                spec.data@[at as int],
                before.data[at as int],
                after.data[at as int],
            ));
        }
    }
}

impl Input {
    /// Applies one structural mutation.
    ///
    /// A single draw selects the kind of edit (see [`structural_edit_for`]).
    /// An insertion instantiates a table entry chosen uniformly and places it
    /// at a position chosen uniformly, the end included. A removal drops a
    /// command chosen uniformly. An edit picks a command uniformly and
    /// mutates one of its fields against its table entry.
    ///
    /// The input keeps fitting the table, and a non-empty input never becomes
    /// empty. An empty table offers nothing to insert and an empty input
    /// nothing to edit: such a step leaves the input as it is.
    pub fn mutate(&mut self, table: &[CommandSpec], rng: &mut Pcg32)
        requires
            table_well_formed(table@),
            old(self)@.conforms(table@),
        ensures
            final(self)@.conforms(table@),
            old(self)@.commands.len() >= 1 ==> final(self)@.commands.len() >= 1,
            is_structural_outcome(old(self)@.commands, final(self)@.commands, table@),
    {
        self.mutate_with(table, IntWalk::UnitStep, rng);
    }

    /// Applies one structural mutation as [`Input::mutate`] does, integers
    /// walking as `walk` says.
    pub fn mutate_with(&mut self, table: &[CommandSpec], walk: IntWalk, rng: &mut Pcg32)
        requires
            table_well_formed(table@),
            old(self)@.conforms(table@),
        ensures
            final(self)@.conforms(table@),
            old(self)@.commands.len() >= 1 ==> final(self)@.commands.len() >= 1,
            is_structural_outcome(old(self)@.commands, final(self)@.commands, table@),
    {
        let draw: u64 = draw_fraction(rng);
        match choose_structural_edit(draw, self.commands.len()) {
            StructuralEdit::Insert => {
                if table.len() == 0 {
                    return;
                }
                let k: usize = uniform_index(rng, 0, table.len());
                let command: Command = table[k].create(rng);
                let at: usize = uniform_len(rng, 0, self.commands.len());
                self.commands.insert(at, command);
                proof {
                    let before = old(self)@.commands;
                    let after = self@.commands;
                    assert(is_entry_for(table@, command@.id, k as int));
                    assert(after =~= before.insert(at as int, command@));
                    assert(after[at as int] == command@);
                    assert(is_insertion(before, after, table@));
                }
            },
            StructuralEdit::Remove => {
                let at: usize = uniform_index(rng, 0, self.commands.len());
                self.commands.remove(at);
                proof {
                    let before = old(self)@.commands;
                    let after = self@.commands;
                    assert(after =~= before.remove(at as int));
                    assert(is_removal(before, after));
                }
            },
            StructuralEdit::Edit => {
                if self.commands.len() == 0 {
                    return;
                }
                let at: usize = uniform_index(rng, 0, self.commands.len());
                let found: Option<usize> = lookup(table, self.commands[at].id);
                proof {
                    assert(command_conforms(old(self)@.commands[at as int], table@));
                }
                if let Some(k) = found {
                    proof {
                        let w = choose|w: int|
                            is_entry_for(table@, self.commands@[at as int]@.id, w) && (
                            #[trigger] table@[w]).admits(self.commands@[at as int]@);
                        lemma_entry_unique(
                            table@,
                            self.commands@[at as int].id,
                            k as int,
                            w,
                        );
                    }
                    self.commands[at].mutate_with(&table[k], walk, rng);
                    proof {
                        let before = old(self)@.commands;
                        let after = self@.commands;
                        assert(after =~= before.update(at as int, after[at as int]));
                        assert(is_command_outcome(
                            table@[k as int],
                            before[at as int],
                            after[at as int],
                        ));
                        assert(is_edit(before, after, table@));
                    }
                }
            },
        }
        proof {
            lemma_structural_outcome_conforms(old(self)@, self@, table@);
        }
    }
}

} // verus!
