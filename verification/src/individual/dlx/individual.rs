//! A program as a genome: a sequence of instructions of bounded length, with
//! the labels that name positions in it, and the edits that the search makes.

use super::instruction::{
    instruction_of, instruction_text, Instruction, InstructionView, ParseError,
    MAX_IMMEDIATE_FOR_RAND, MAX_REGISTER_FOR_RAND,
};
use super::opcode::{Opcode, OpcodeType};
use super::register::Register;
use crate::text::{
    chars_of, find_char, find_char_from, slice_of, string_of, trim_bounds, trimmed,
};
use crate::random::{
    random_below, random_bool, random_i32_between, sample_indices, total_weight, weighted_choice,
};
use vstd::prelude::*;

verus! {

/// The capacity of a genome: every genome holds so many instructions, and no
/// program has more.
pub const DLX_INDIV_MAX_SIZE: usize = 90;

/// A name for a position in a program.
#[derive(Debug)]
pub struct Label {
    pub name: String,
    pub location: usize,
}

/// What a label is.
pub struct LabelView {
    pub name: Seq<char>,
    pub location: int,
}

impl View for Label {
    type V = LabelView;

    open spec fn view(&self) -> LabelView {
        LabelView { name: self.name@, location: self.location as int }
    }
}

impl Clone for Label {
    fn clone(&self) -> (copy: Self)
        ensures
            copy == *self,
    {
        Label { name: self.name.clone(), location: self.location }
    }
}

/// What a genome is: its instructions and its labels, each in order.
pub struct IndividualView {
    pub instructions: Seq<InstructionView>,
    pub labels: Seq<LabelView>,
}

/// The instruction `NOP`, which pads every program.
pub open spec fn no_op() -> InstructionView {
    InstructionView { opcode: Opcode::NOP, registers: Seq::empty(), immediate: 0 }
}

/// The active length of a program: one more than the index of its last
/// instruction that is no `NOP`, and zero where it has none.
pub open spec fn active_length(instructions: Seq<InstructionView>) -> nat
    decreases instructions.len(),
{
    if instructions.len() == 0 {
        0
    } else if instructions.last().opcode != Opcode::NOP {
        instructions.len()
    } else {
        active_length(instructions.drop_last())
    }
}

/// The labels after an instruction went in: each label at or after `from` moves
/// up by one, and one that would leave the genome is dropped.
pub open spec fn shifted_up(labels: Seq<LabelView>, from: int) -> Seq<LabelView>
    decreases labels.len(),
{
    if labels.len() == 0 {
        labels
    } else {
        let rest = shifted_up(labels.drop_last(), from);
        let l = labels.last();
        if l.location < from {
            rest.push(l)
        } else if l.location + 1 < DLX_INDIV_MAX_SIZE {
            rest.push(LabelView { name: l.name, location: l.location + 1 })
        } else {
            rest
        }
    }
}

/// The labels after the instruction at `position` went out: each label after it
/// moves down by one.
pub open spec fn shifted_down(labels: Seq<LabelView>, position: int) -> Seq<LabelView> {
    Seq::new(
        labels.len(),
        |i: int|
            if labels[i].location > position {
                LabelView { name: labels[i].name, location: labels[i].location - 1 }
            } else {
                labels[i]
            },
    )
}

/// Whether every label names a position below the capacity.
pub open spec fn labels_in_range(labels: Seq<LabelView>) -> bool {
    forall|i: int| 0 <= i < labels.len() ==> 0 <= (#[trigger] labels[i]).location < DLX_INDIV_MAX_SIZE
}

impl IndividualView {
    /// What holds of every genome: it has `DLX_INDIV_MAX_SIZE` instructions,
    /// and every label names one of their positions.
    pub open spec fn well_formed(self) -> bool {
        &&& self.instructions.len() == DLX_INDIV_MAX_SIZE
        &&& labels_in_range(self.labels)
    }

    /// The active length of the genome.
    pub open spec fn active_length(self) -> nat {
        active_length(self.instructions)
    }

    /// The genome after `instruction` went in at `position` and the last
    /// instruction was dropped, with the labels at or after `from` moved up.
    pub open spec fn inserted(self, position: int, instruction: InstructionView, from: int) -> Self {
        IndividualView {
            instructions: self.instructions.insert(position, instruction).drop_last(),
            labels: shifted_up(self.labels, from),
        }
    }

    /// The genome after the instruction at `position` went out and a `NOP` was
    /// put at the end, with the labels after `position` moved down.
    pub open spec fn removed(self, position: int) -> Self {
        IndividualView {
            instructions: self.instructions.remove(position).push(no_op()),
            labels: shifted_down(self.labels, position),
        }
    }

    /// The genome with the instruction at `position` replaced.
    pub open spec fn replaced(self, position: int, instruction: InstructionView) -> Self {
        IndividualView {
            instructions: self.instructions.update(position, instruction),
            labels: self.labels,
        }
    }
}

/// Whether `i` is an instruction that `Instruction::get_rand` may return.
pub open spec fn is_random_instruction(i: InstructionView) -> bool {
    &&& i.opcode.is_random_choice()
    &&& i.registers.len() == 3
    &&& forall|k: int| 0 <= k < 3 ==> (#[trigger] i.registers[k]).number() <= MAX_REGISTER_FOR_RAND
    &&& i.immediate % 4 == 0
    &&& -4 * MAX_IMMEDIATE_FOR_RAND <= i.immediate < 4 * MAX_IMMEDIATE_FOR_RAND
}

/// Whether `after` is `before` with one register operand set to a register
/// numbered at most `MAX_REGISTER_FOR_RAND`; an instruction without registers
/// stays as it is.
pub open spec fn register_tweaked(before: InstructionView, after: InstructionView) -> bool {
    &&& after.opcode == before.opcode
    &&& after.immediate == before.immediate
    &&& if before.registers.len() == 0 {
        after.registers == before.registers
    } else {
        exists|k: int, r: Register|
            0 <= k < before.registers.len() && r.number() <= MAX_REGISTER_FOR_RAND
                && after.registers == #[trigger] before.registers.update(k, r)
    }
}

/// Whether `after` is `before` with its immediate set to a number from
/// `-MAX_IMMEDIATE_FOR_RAND` up to, and without, `MAX_IMMEDIATE_FOR_RAND`.
pub open spec fn immediate_tweaked(before: InstructionView, after: InstructionView) -> bool {
    &&& after.opcode == before.opcode
    &&& after.registers == before.registers
    &&& -MAX_IMMEDIATE_FOR_RAND <= after.immediate < MAX_IMMEDIATE_FOR_RAND
}

/// Whether `after` is `before` with one operand changed as its opcode's class
/// allows: a register for an opcode of registers only, a register or the
/// immediate for one with an immediate, nothing for a jump.
pub open spec fn operand_tweaked(before: InstructionView, after: InstructionView) -> bool {
    match before.opcode.class() {
        OpcodeType::RType => register_tweaked(before, after),
        OpcodeType::IType => register_tweaked(before, after) || immediate_tweaked(before, after),
        OpcodeType::JType => after == before,
    }
}

/// Whether `b` is what adding a random instruction may make of `a`: nothing
/// where the active length is the capacity, else a random instruction put in at
/// a position up to the active length, with the labels at or after it moved up.
pub open spec fn added(a: IndividualView, b: IndividualView) -> bool {
    if a.active_length() >= DLX_INDIV_MAX_SIZE {
        b == a
    } else {
        exists|p: int, i: InstructionView|
            0 <= p <= a.active_length() && is_random_instruction(i) && b == #[trigger] a.inserted(
                p,
                i,
                p,
            )
    }
}

/// Whether the instruction at `p` is an active one that is no branch.
pub open spec fn is_movable(a: IndividualView, p: int) -> bool {
    0 <= p < a.active_length() && !a.instructions[p].opcode.is_branch()
}

/// Whether the instruction at `p` is an active one that is a branch.
pub open spec fn is_active_branch(a: IndividualView, p: int) -> bool {
    0 <= p < a.active_length() && a.instructions[p].opcode.is_branch()
}

/// Whether `b` is what removing a random instruction may make of `a`: an
/// active instruction that is no branch taken out, or nothing, which happens
/// only where no instruction is active or a branch is among them.
pub open spec fn removed_one(a: IndividualView, b: IndividualView) -> bool {
    ||| exists|p: int| is_movable(a, p) && b == #[trigger] a.removed(p)
    ||| b == a && (a.active_length() == 0 || exists|q: int| #[trigger] is_active_branch(a, q))
}

/// The genome after the instruction at `p` moved to `q`: it is taken out, so
/// that the labels after `p` move down, and put in at `q`, so that the labels
/// at or after `q` move up.
pub open spec fn moved_to(a: IndividualView, p: int, q: int) -> IndividualView {
    a.removed(p).inserted(q, a.instructions[p], q)
}

/// Whether `b` is what moving a random instruction may make of `a`: nothing
/// with fewer than two active instructions; else one active instruction is
/// drawn and, unless it is a branch, moved to another active position.
pub open spec fn moved(a: IndividualView, b: IndividualView) -> bool {
    if a.active_length() < 2 {
        b == a
    } else {
        ||| exists|p: int, q: int|
            is_movable(a, p) && 0 <= q < a.active_length() && p != q && b == #[trigger] moved_to(
                a,
                p,
                q,
            )
        ||| b == a && exists|q: int| #[trigger] is_active_branch(a, q)
    }
}

/// The genome after the instruction at `p` was copied into the position before
/// it: the labels after `p` move up.
pub open spec fn duplicated_at(a: IndividualView, p: int) -> IndividualView {
    a.inserted(p, a.instructions[p], p + 1)
}

/// Whether `b` is what duplicating a random instruction may make of `a`:
/// nothing where no instruction is active or the active length is the
/// capacity; else one active instruction is drawn and, unless it is a branch,
/// copied.
pub open spec fn duplicated(a: IndividualView, b: IndividualView) -> bool {
    if a.active_length() == 0 || a.active_length() >= DLX_INDIV_MAX_SIZE {
        b == a
    } else {
        ||| exists|p: int| is_movable(a, p) && b == #[trigger] duplicated_at(a, p)
        ||| b == a && exists|q: int| #[trigger] is_active_branch(a, q)
    }
}

/// Whether `b` is what replacing a random instruction may make of `a`: nothing
/// where no instruction is active, else a random instruction in the place of
/// an active one.
pub open spec fn replaced_one(a: IndividualView, b: IndividualView) -> bool {
    if a.active_length() == 0 {
        b == a
    } else {
        exists|p: int, i: InstructionView|
            0 <= p < a.active_length() && is_random_instruction(i) && b == #[trigger] a.replaced(
                p,
                i,
            )
    }
}

/// Whether `b` is what changing a random operand may make of `a`: nothing
/// where no instruction is active, else one operand of an active instruction
/// changed.
pub open spec fn tweaked_one(a: IndividualView, b: IndividualView) -> bool {
    if a.active_length() == 0 {
        b == a
    } else {
        exists|p: int, i: InstructionView|
            0 <= p < a.active_length() && operand_tweaked(a.instructions[p], i) && b
                == #[trigger] a.replaced(p, i)
    }
}

/// Whether `b` is what one mutation may make of `a`: an instruction added where
/// none is active, else one removed, moved or duplicated.
pub open spec fn mutated(a: IndividualView, b: IndividualView) -> bool {
    if a.active_length() == 0 {
        added(a, b)
    } else {
        removed_one(a, b) || moved(a, b) || duplicated(a, b)
    }
}

/// Why a text is not a program.
#[derive(Debug, Clone, Copy, PartialEq, Eq, Structural)]
pub enum ProgramError {
    /// The line with this index, from zero, holds no instruction.
    Line { line: usize, error: ParseError },
    /// The program has more instructions than a genome holds.
    TooLong { lines: usize },
    /// The label with this index names a position beyond the capacity.
    LabelOutOfRange { label: usize },
}

/// `instructions` with `NOP` put at the end until the capacity is reached.
pub open spec fn padded(instructions: Seq<InstructionView>) -> Seq<InstructionView> {
    instructions + Seq::new(
        (DLX_INDIV_MAX_SIZE - instructions.len()) as nat,
        |i: int| no_op(),
    )
}

/// The index of the first label out of range, or the number of labels.
pub open spec fn first_label_out_of_range(labels: Seq<LabelView>, i: int) -> int
    decreases labels.len() - i,
{
    if 0 <= i < labels.len() && labels[i].location < DLX_INDIV_MAX_SIZE {
        first_label_out_of_range(labels, i + 1)
    } else {
        i
    }
}

/// The genome that instructions and labels make: the instructions, padded to
/// the capacity, and the labels as they are.
pub open spec fn assembled(instructions: Seq<InstructionView>, labels: Seq<LabelView>) -> Result<
    IndividualView,
    ProgramError,
> {
    if instructions.len() > DLX_INDIV_MAX_SIZE {
        Err(ProgramError::TooLong { lines: instructions.len() as usize })
    } else if first_label_out_of_range(labels, 0) < labels.len() {
        Err(ProgramError::LabelOutOfRange { label: first_label_out_of_range(labels, 0) as usize })
    } else {
        Ok(IndividualView { instructions: padded(instructions), labels })
    }
}

/// The lines of `text` from `i` on: each ends before a line feed or at the end
/// of the text, and a line feed at the very end starts no further line.
pub open spec fn split_lines(text: Seq<char>, i: int) -> Seq<Seq<char>>
    decreases text.len() - i,
{
    if 0 <= i < text.len() {
        let end = find_char(text, '\n', i);
        if i <= end < text.len() {
            seq![text.subrange(i, end)] + split_lines(text, end + 1)
        } else {
            seq![text.skip(i)]
        }
    } else {
        Seq::empty()
    }
}

/// The name of the label that a line starts with: what stands before its first
/// colon, trimmed.
pub open spec fn label_part(line: Seq<char>) -> Option<Seq<char>> {
    let colon = find_char(line, ':', 0);
    if 0 <= colon < line.len() {
        Some(trimmed(line.take(colon)))
    } else {
        None
    }
}

/// The part of a line that holds its instruction: what follows its first
/// colon, or all of it.
pub open spec fn instruction_part(line: Seq<char>) -> Seq<char> {
    let colon = find_char(line, ':', 0);
    if 0 <= colon < line.len() {
        line.skip(colon + 1)
    } else {
        line
    }
}

/// The instructions and labels of the first `n` lines, unless one of them
/// holds no instruction; the first such line is then reported.
pub open spec fn parsed_lines(lines: Seq<Seq<char>>, n: int) -> Result<IndividualView, ProgramError>
    decreases n,
{
    if n <= 0 {
        Ok(IndividualView { instructions: Seq::empty(), labels: Seq::empty() })
    } else {
        match parsed_lines(lines, n - 1) {
            Ok(v) => match instruction_of(instruction_part(lines[n - 1])) {
                Ok(i) => Ok(
                    IndividualView {
                        instructions: v.instructions.push(i),
                        labels: match label_part(lines[n - 1]) {
                            Some(name) => v.labels.push(LabelView { name, location: n - 1 }),
                            None => v.labels,
                        },
                    },
                ),
                Err(error) => Err(ProgramError::Line { line: (n - 1) as usize, error }),
            },
            Err(e) => Err(e),
        }
    }
}

/// The genome that a program text denotes.
pub open spec fn parsed_program(text: Seq<char>) -> Result<IndividualView, ProgramError> {
    let lines = split_lines(text, 0);
    if lines.len() > DLX_INDIV_MAX_SIZE {
        Err(ProgramError::TooLong { lines: lines.len() as usize })
    } else {
        match parsed_lines(lines, lines.len() as int) {
            Ok(v) => Ok(IndividualView { instructions: padded(v.instructions), labels: v.labels }),
            Err(e) => Err(e),
        }
    }
}

/// The index of the first label at `position`, from `i` on, or the number of
/// labels.
pub open spec fn label_index_at(labels: Seq<LabelView>, position: int, i: int) -> int
    decreases labels.len() - i,
{
    if 0 <= i < labels.len() && labels[i].location != position {
        label_index_at(labels, position, i + 1)
    } else {
        i
    }
}

/// One line of a program's text: the name of the first label at `position`
/// with a colon and a space, if there is one, then the instruction and a line
/// feed.
pub open spec fn line_text(v: IndividualView, position: int) -> Seq<char> {
    let l = label_index_at(v.labels, position, 0);
    let head = if 0 <= l < v.labels.len() {
        v.labels[l].name + seq![':', ' ']
    } else {
        Seq::empty()
    };
    head + instruction_text(v.instructions[position]).push('\n')
}

/// The text of the first `n` lines of a program.
pub open spec fn lines_text(v: IndividualView, n: int) -> Seq<char>
    decreases n,
{
    if n <= 0 {
        Seq::empty()
    } else {
        lines_text(v, n - 1) + line_text(v, n - 1)
    }
}

/// The text of a program: one line for each instruction.
pub open spec fn program_text(v: IndividualView) -> Seq<char> {
    lines_text(v, v.instructions.len() as int)
}

/// The child of two genomes: the first half of the active part of `a`, then
/// `b` from the middle of its active part on, cut at the capacity where that is
/// more and padded with `NOP` to the capacity where it is less; the labels are
/// those of `a`.
pub open spec fn crossed(a: IndividualView, b: IndividualView) -> IndividualView {
    let joined = a.instructions.take((a.active_length() / 2) as int) + b.instructions.skip(
        (b.active_length() / 2) as int,
    );
    IndividualView {
        instructions: if joined.len() > DLX_INDIV_MAX_SIZE {
            joined.take(DLX_INDIV_MAX_SIZE as int)
        } else {
            padded(joined)
        },
        labels: a.labels,
    }
}

/// The model of a result that holds a genome.
pub open spec fn program_result_view(r: Result<Individual, ProgramError>) -> Result<
    IndividualView,
    ProgramError,
> {
    match r {
        Ok(g) => Ok(g@),
        Err(e) => Err(e),
    }
}

/// A candidate program.
#[derive(Debug)]
pub struct Individual {
    instructions: Vec<Instruction>,
    labels: Vec<Label>,
}

/// The models of a sequence of instructions.
pub open spec fn instruction_views(instructions: Seq<Instruction>) -> Seq<InstructionView> {
    Seq::new(instructions.len(), |i: int| instructions[i]@)
}

/// The models of a sequence of labels.
pub open spec fn label_views(labels: Seq<Label>) -> Seq<LabelView> {
    Seq::new(labels.len(), |i: int| labels[i]@)
}

impl View for Individual {
    type V = IndividualView;

    closed spec fn view(&self) -> IndividualView {
        IndividualView {
            instructions: instruction_views(self.instructions@),
            labels: label_views(self.labels@),
        }
    }
}

/// Computes `shifted_up`.
fn shift_labels_up(labels: &Vec<Label>, from: usize) -> (out: Vec<Label>)
    ensures
        label_views(out@) == shifted_up(label_views(labels@), from as int),
{
    let mut out: Vec<Label> = Vec::new();
    let mut i: usize = 0;
    while i < labels.len()
        invariant
            i <= labels.len(),
            label_views(out@) == shifted_up(label_views(labels@).take(i as int), from as int),
        decreases labels.len() - i,
    {
        let ghost before = label_views(out@);
        let ghost prefix = label_views(labels@).take(i + 1);
        assert(prefix.drop_last() =~= label_views(labels@).take(i as int));
        assert(prefix.last() == labels@[i as int]@);
        let l = &labels[i];
        if l.location < from {
            out.push(l.clone());
            assert(label_views(out@) =~= before.push(l@));
        } else if l.location < DLX_INDIV_MAX_SIZE - 1 {
            out.push(Label { name: l.name.clone(), location: l.location + 1 });
            assert(label_views(out@) =~= before.push(
                LabelView { name: l@.name, location: l@.location + 1 },
            ));
        }
        i += 1;
    }
    assert(label_views(labels@).take(i as int) =~= label_views(labels@));
    out
}

/// Computes `shifted_down`.
fn shift_labels_down(labels: &Vec<Label>, position: usize) -> (out: Vec<Label>)
    ensures
        label_views(out@) == shifted_down(label_views(labels@), position as int),
{
    let mut out: Vec<Label> = Vec::new();
    let mut i: usize = 0;
    while i < labels.len()
        invariant
            i <= labels.len(),
            out.len() == i,
            forall|k: int|
                0 <= k < i ==> (#[trigger] out@[k])@ == shifted_down(
                    label_views(labels@),
                    position as int,
                )[k],
        decreases labels.len() - i,
    {
        let l = &labels[i];
        if l.location > position {
            out.push(Label { name: l.name.clone(), location: l.location - 1 });
        } else {
            out.push(l.clone());
        }
        i += 1;
    }
    assert(label_views(out@) =~= shifted_down(label_views(labels@), position as int));
    out
}

/// The active length never exceeds the length.
pub proof fn lemma_active_length_bounds(instructions: Seq<InstructionView>)
    ensures
        active_length(instructions) <= instructions.len(),
        active_length(instructions) > 0 ==> instructions[active_length(instructions) - 1].opcode
            != Opcode::NOP,
        forall|i: int|
            active_length(instructions) <= i < instructions.len() ==> (#[trigger] instructions[i]).opcode
                == Opcode::NOP,
    decreases instructions.len(),
{
    if instructions.len() > 0 && instructions.last().opcode == Opcode::NOP {
        let shorter = instructions.drop_last();
        lemma_active_length_bounds(shorter);
        assert forall|i: int|
            active_length(instructions) <= i < instructions.len() implies (#[trigger] instructions[i]).opcode
            == Opcode::NOP by {
            if i < shorter.len() {
                assert(shorter[i] == instructions[i]);
            }
        }
        if active_length(instructions) > 0 {
            assert(shorter[active_length(instructions) - 1] == instructions[active_length(
                instructions,
            ) - 1]);
        }
    }
}

/// Moving labels up leaves none out of range, and drops none that stays in it.
pub proof fn lemma_shifted_up_in_range(labels: Seq<LabelView>, from: int)
    requires
        labels_in_range(labels),
    ensures
        labels_in_range(shifted_up(labels, from)),
        shifted_up(labels, from).len() <= labels.len(),
    decreases labels.len(),
{
    if labels.len() > 0 {
        let shorter = labels.drop_last();
        assert forall|i: int| 0 <= i < shorter.len() implies 0 <= (#[trigger] shorter[i]).location
            < DLX_INDIV_MAX_SIZE by {
            assert(shorter[i] == labels[i]);
        }
        lemma_shifted_up_in_range(shorter, from);
        let rest = shifted_up(shorter, from);
        let out = shifted_up(labels, from);
        assert forall|i: int| 0 <= i < out.len() implies 0 <= (#[trigger] out[i]).location
            < DLX_INDIV_MAX_SIZE by {
            if i < rest.len() {
                assert(out[i] == rest[i]);
            }
        }
    }
}

/// Moving labels down leaves none out of range.
pub proof fn lemma_shifted_down_in_range(labels: Seq<LabelView>, position: int)
    requires
        labels_in_range(labels),
        0 <= position,
    ensures
        labels_in_range(shifted_down(labels, position)),
        shifted_down(labels, position).len() == labels.len(),
{
    let out = shifted_down(labels, position);
    assert forall|i: int| 0 <= i < out.len() implies 0 <= (#[trigger] out[i]).location
        < DLX_INDIV_MAX_SIZE by {
        assert(0 <= labels[i].location < DLX_INDIV_MAX_SIZE);
    }
}

impl Individual {
    #[verifier::type_invariant]
    spec fn within_capacity(self) -> bool {
        self@.well_formed()
    }

    /// The minimal genome: `DLX_INDIV_MAX_SIZE` times `NOP`, without labels.
    pub fn generate() -> (g: Self)
        ensures
            g@.instructions == Seq::new(DLX_INDIV_MAX_SIZE as nat, |i: int| no_op()),
            g@.labels.len() == 0,
    {
        let mut instructions: Vec<Instruction> = Vec::new();
        while instructions.len() < DLX_INDIV_MAX_SIZE
            invariant
                instructions.len() <= DLX_INDIV_MAX_SIZE,
                forall|i: int| 0 <= i < instructions.len() ==> (#[trigger] instructions@[i])@ == no_op(),
            decreases DLX_INDIV_MAX_SIZE - instructions.len(),
        {
            instructions.push(Instruction::default());
        }
        let g = Individual { instructions, labels: Vec::new() };
        assert(g@.instructions =~= Seq::new(DLX_INDIV_MAX_SIZE as nat, |i: int| no_op()));
        g
    }

    /// The number of instructions, which is the capacity.
    pub fn len(&self) -> (n: usize)
        ensures
            n == self@.instructions.len(),
            n == DLX_INDIV_MAX_SIZE,
            self@.well_formed(),
    {
        proof {
            use_type_invariant(self);
        }
        self.instructions.len()
    }

    /// The instructions, in order.
    pub fn instructions(&self) -> (v: &Vec<Instruction>)
        ensures
            v@.len() == self@.instructions.len(),
            forall|i: int| 0 <= i < v@.len() ==> (#[trigger] v@[i])@ == self@.instructions[i],
    {
        &self.instructions
    }

    /// The labels, in order.
    pub fn labels(&self) -> (v: &Vec<Label>)
        ensures
            v@.len() == self@.labels.len(),
            forall|i: int| 0 <= i < v@.len() ==> (#[trigger] v@[i])@ == self@.labels[i],
    {
        &self.labels
    }

    /// The active length: one more than the index of the last instruction that
    /// is no `NOP`, and zero where there is none.
    pub fn last_nop_index(&self) -> (n: usize)
        ensures
            n == self@.active_length(),
            n <= self@.instructions.len(),
    {
        let ghost all = self@.instructions;
        let mut n: usize = self.instructions.len();
        proof {
            assert(all.take(n as int) =~= all);
            lemma_active_length_bounds(all);
        }
        while n > 0 && self.instructions[n - 1].get_opcode().is_nop()
            invariant
                n <= self.instructions.len(),
                all == self@.instructions,
                active_length(all) == active_length(all.take(n as int)),
            decreases n,
        {
            assert(all.take(n as int).drop_last() =~= all.take(n - 1));
            n -= 1;
        }
        proof {
            lemma_active_length_bounds(all.take(n as int));
        }
        n
    }
    /// Puts `instruction` in at `position` and drops the last instruction, so
    /// that the length stays; the labels at or after `from` move up by one. A
    /// position beyond the end leaves the genome as it is.
    pub fn insert_instruction(&mut self, position: usize, instruction: Instruction, from: usize)
        ensures
            final(self)@ == if position <= old(self)@.instructions.len() {
                old(self)@.inserted(position as int, instruction@, from as int)
            } else {
                old(self)@
            },
    {
        proof {
            use_type_invariant(&*self);
        }
        let ghost before = self@;
        if position > self.instructions.len() {
            return ;
        }
        let labels = shift_labels_up(&self.labels, from);
        proof {
            lemma_shifted_up_in_range(before.labels, from as int);
        }
        self.labels = labels;
        if position < self.instructions.len() {
            let mut instructions: Vec<Instruction> = pad_with_no_ops(Vec::new());
            core::mem::swap(&mut self.instructions, &mut instructions);
            instructions.pop();
            instructions.insert(position, instruction);
            self.instructions = instructions;
        }
        assert(self@.instructions =~= before.instructions.insert(
            position as int,
            instruction@,
        ).drop_last());
    }

    /// Takes the instruction at `position` out and puts a `NOP` at the end, so
    /// that the length stays; the labels after `position` move down by one. A
    /// position beyond the last instruction leaves the genome as it is.
    pub fn remove_instruction(&mut self, position: usize)
        ensures
            final(self)@ == if position < old(self)@.instructions.len() {
                old(self)@.removed(position as int)
            } else {
                old(self)@
            },
    {
        proof {
            use_type_invariant(&*self);
        }
        let ghost before = self@;
        if position >= self.instructions.len() {
            return ;
        }
        let labels = shift_labels_down(&self.labels, position);
        proof {
            lemma_shifted_down_in_range(before.labels, position as int);
        }
        self.labels = labels;
        let mut instructions: Vec<Instruction> = pad_with_no_ops(Vec::new());
        core::mem::swap(&mut self.instructions, &mut instructions);
        instructions.remove(position);
        instructions.push(Instruction::default());
        self.instructions = instructions;
        assert(self@.instructions =~= before.instructions.remove(position as int).push(no_op()));
    }

    /// Puts `instruction` in the place of the one at `position`; the labels
    /// stay. A position beyond the last instruction leaves the genome as it is.
    pub fn replace_instruction(&mut self, position: usize, instruction: Instruction)
        ensures
            final(self)@ == if position < old(self)@.instructions.len() {
                old(self)@.replaced(position as int, instruction@)
            } else {
                old(self)@
            },
    {
        proof {
            use_type_invariant(&*self);
        }
        let ghost before = self@;
        if position < self.instructions.len() {
            self.instructions[position] = instruction;
            assert(self@.instructions =~= before.instructions.update(
                position as int,
                instruction@,
            ));
        }
    }
    /// Adds a random instruction within the active part.
    pub fn add_rand_instruction(&mut self)
        ensures
            added(old(self)@, final(self)@),
            final(self)@.instructions.len() == old(self)@.instructions.len(),
            labels_in_range(final(self)@.labels),
    {
        proof {
            use_type_invariant(&*self);
        }
        let active = self.last_nop_index();
        if active >= DLX_INDIV_MAX_SIZE {
            return ;
        }
        let position = random_below(active + 1);
        let instruction = Instruction::get_rand();
        let ghost instruction_view = instruction@;
        self.insert_instruction(position, instruction, position);
        assert(self@ == old(self)@.inserted(position as int, instruction_view, position as int));
        proof {
            lemma_edit_keeps_shape(old(self)@, self@);
        }
    }

    /// Removes an active instruction that is no branch. Up to five positions
    /// are drawn to find one.
    pub fn remove_rand_instruction(&mut self)
        ensures
            removed_one(old(self)@, final(self)@),
            final(self)@.instructions.len() == old(self)@.instructions.len(),
            labels_in_range(final(self)@.labels),
    {
        proof {
            use_type_invariant(&*self);
        }
        let active = self.last_nop_index();
        if active == 0 {
            return ;
        }
        let mut draws: usize = 0;
        while draws < 5
            invariant
                draws <= 5,
                0 < active == self@.active_length() <= self@.instructions.len(),
                self@ == old(self)@,
                old(self)@.well_formed(),
                draws > 0 ==> exists|q: int| #[trigger] is_active_branch(self@, q),
            decreases 5 - draws,
        {
            let position = random_below(active);
            if !self.instructions[position].get_opcode().branches() {
                assert(is_movable(self@, position as int));
                self.remove_instruction(position);
                assert(self@ == old(self)@.removed(position as int));
                proof {
                    lemma_edit_keeps_shape(old(self)@, self@);
                }
                return ;
            }
            assert(is_active_branch(self@, position as int));
            draws += 1;
        }
    }

    /// Moves an active instruction that is no branch to another active
    /// position.
    pub fn move_rand_instruction(&mut self)
        ensures
            moved(old(self)@, final(self)@),
            final(self)@.instructions.len() == old(self)@.instructions.len(),
            labels_in_range(final(self)@.labels),
    {
        proof {
            use_type_invariant(&*self);
        }
        let active = self.last_nop_index();
        if active < 2 {
            return ;
        }
        let picked = sample_indices(active, 2);
        let from = picked[0];
        let to = picked[1];
        if self.instructions[from].get_opcode().branches() {
            assert(is_active_branch(self@, from as int));
            return ;
        }
        assert(is_movable(self@, from as int));
        let instruction = self.instructions[from].clone();
        self.remove_instruction(from);
        self.insert_instruction(to, instruction, to);
        assert(self@ == moved_to(old(self)@, from as int, to as int));
        proof {
            lemma_edit_keeps_shape(old(self)@, self@);
        }
    }

    /// Copies an active instruction that is no branch into the position before
    /// it.
    pub fn duplicate_rand_instruction(&mut self)
        ensures
            duplicated(old(self)@, final(self)@),
            final(self)@.instructions.len() == old(self)@.instructions.len(),
            labels_in_range(final(self)@.labels),
    {
        proof {
            use_type_invariant(&*self);
        }
        let active = self.last_nop_index();
        if active == 0 || active >= DLX_INDIV_MAX_SIZE {
            return ;
        }
        let position = random_below(active);
        if self.instructions[position].get_opcode().branches() {
            assert(is_active_branch(self@, position as int));
            return ;
        }
        assert(is_movable(self@, position as int));
        let instruction = self.instructions[position].clone();
        self.insert_instruction(position, instruction, position + 1);
        assert(self@ == duplicated_at(old(self)@, position as int));
        proof {
            lemma_edit_keeps_shape(old(self)@, self@);
        }
    }

    /// Puts a random instruction in the place of an active one.
    pub fn change_rand_instruction(&mut self)
        ensures
            replaced_one(old(self)@, final(self)@),
            final(self)@.instructions.len() == old(self)@.instructions.len(),
            labels_in_range(final(self)@.labels),
    {
        proof {
            use_type_invariant(&*self);
        }
        let active = self.last_nop_index();
        if active == 0 {
            return ;
        }
        let position = random_below(active);
        let instruction = Instruction::get_rand();
        let ghost instruction_view = instruction@;
        self.replace_instruction(position, instruction);
        assert(self@ == old(self)@.replaced(position as int, instruction_view));
        proof {
            lemma_edit_keeps_shape(old(self)@, self@);
        }
    }

    /// Sets one register operand of the instruction at `index` to a random
    /// register. An index beyond the last instruction leaves the genome as it
    /// is.
    pub fn rand_change_reg_in_instruction(&mut self, index: usize)
        ensures
            index >= old(self)@.instructions.len() ==> final(self)@ == old(self)@,
            index < old(self)@.instructions.len() ==> exists|i: InstructionView|
                register_tweaked(old(self)@.instructions[index as int], i) && final(self)@
                    == #[trigger] old(self)@.replaced(index as int, i),
    {
        if index >= self.instructions.len() {
            return ;
        }
        let register = match Register::rand_up_to(MAX_REGISTER_FOR_RAND) {
            Some(register) => register,
            None => Register::R0,
        };
        let mut instruction = self.instructions[index].clone();
        instruction.set_register(None, register);
        let ghost instruction_view = instruction@;
        self.replace_instruction(index, instruction);
        assert(self@ == old(self)@.replaced(index as int, instruction_view));
    }

    /// Sets the immediate of the instruction at `index` to a random number. An
    /// index beyond the last instruction leaves the genome as it is.
    pub fn rand_change_imm_in_instruction(&mut self, index: usize)
        ensures
            index >= old(self)@.instructions.len() ==> final(self)@ == old(self)@,
            index < old(self)@.instructions.len() ==> exists|i: InstructionView|
                immediate_tweaked(old(self)@.instructions[index as int], i) && final(self)@
                    == #[trigger] old(self)@.replaced(index as int, i),
    {
        if index >= self.instructions.len() {
            return ;
        }
        let immediate = random_i32_between(-MAX_IMMEDIATE_FOR_RAND, MAX_IMMEDIATE_FOR_RAND);
        let mut instruction = self.instructions[index].clone();
        instruction.set_immidiate(immediate);
        let ghost instruction_view = instruction@;
        self.replace_instruction(index, instruction);
        assert(self@ == old(self)@.replaced(index as int, instruction_view));
    }

    /// Changes one operand of an active instruction: a register of an opcode
    /// of registers only; a register or the immediate, with equal chance, of an
    /// opcode with an immediate; nothing of a jump.
    pub fn change_operands(&mut self)
        ensures
            tweaked_one(old(self)@, final(self)@),
            final(self)@.instructions.len() == old(self)@.instructions.len(),
            labels_in_range(final(self)@.labels),
    {
        proof {
            use_type_invariant(&*self);
        }
        let active = self.last_nop_index();
        if active == 0 {
            return ;
        }
        let position = random_below(active);
        let ghost before = self@.instructions[position as int];
        match self.instructions[position].get_opcode().get_type() {
            OpcodeType::RType => {
                self.rand_change_reg_in_instruction(position);
            },
            OpcodeType::IType => {
                if random_bool() {
                    self.rand_change_reg_in_instruction(position);
                } else {
                    self.rand_change_imm_in_instruction(position);
                }
            },
            OpcodeType::JType => {
                assert(self@ =~= self@.replaced(position as int, before)) by {
                    assert(self@.instructions.update(position as int, before)
                        =~= self@.instructions);
                }
            },
        }
        proof {
            lemma_edit_keeps_shape(old(self)@, self@);
        }
    }

    /// One random edit: where no instruction is active, an instruction is
    /// added; else one is removed, moved or duplicated, with the chances 50, 50
    /// and 10 in 110.
    pub fn mutate(&mut self)
        ensures
            mutated(old(self)@, final(self)@),
            final(self)@.instructions.len() == old(self)@.instructions.len(),
            labels_in_range(final(self)@.labels),
    {
        proof {
            use_type_invariant(&*self);
        }
        let active = self.last_nop_index();
        let mut weights: Vec<u32> = Vec::new();
        if active == 0 {
            weights.push(1000);
            weights.push(0);
            weights.push(0);
            weights.push(0);
            weights.push(0);
            weights.push(0);
        } else {
            weights.push(0);
            weights.push(0);
            weights.push(0);
            weights.push(50);
            weights.push(50);
            weights.push(10);
        }
        proof {
            assert(weights@ =~= if active == 0 {
                seq![1000u32, 0u32, 0u32, 0u32, 0u32, 0u32]
            } else {
                seq![0u32, 0u32, 0u32, 50u32, 50u32, 10u32]
            });
            lemma_operator_weights();
        }
        match weighted_choice(&weights) {
            Some(0) => self.add_rand_instruction(),
            Some(1) => self.change_operands(),
            Some(2) => self.change_rand_instruction(),
            Some(3) => self.remove_rand_instruction(),
            Some(4) => self.move_rand_instruction(),
            Some(5) => self.duplicate_rand_instruction(),
            _ => {},
        }
    }
    /// The child of this genome and `other`.
    pub fn crossover(&self, other: &Self) -> (child: Self)
        ensures
            child@ == crossed(self@, other@),
            child@.instructions.len() == DLX_INDIV_MAX_SIZE,
            labels_in_range(child@.labels),
    {
        proof {
            use_type_invariant(self);
            use_type_invariant(other);
        }
        let mid = self.last_nop_index() / 2;
        let mid_other = other.last_nop_index() / 2;
        let ghost joined = self@.instructions.take(mid as int) + other@.instructions.skip(
            mid_other as int,
        );
        let mut instructions: Vec<Instruction> = Vec::new();
        let mut i: usize = 0;
        while i < mid
            invariant
                i <= mid <= self.instructions.len(),
                instruction_views(instructions@) == self@.instructions.take(i as int),
            decreases mid - i,
        {
            let ghost before = instruction_views(instructions@);
            let copy = self.instructions[i].clone();
            instructions.push(copy);
            i += 1;
            assert(instruction_views(instructions@) =~= before.push(copy@));
            assert(before.push(copy@) =~= self@.instructions.take(i as int));
        }
        let mut k: usize = mid_other;
        while k < other.instructions.len() && instructions.len() < DLX_INDIV_MAX_SIZE
            invariant
                mid_other <= k <= other.instructions.len(),
                mid <= self@.instructions.len() <= DLX_INDIV_MAX_SIZE,
                other@.instructions.len() == other.instructions.len(),
                instructions.len() == mid + (k - mid_other),
                instructions.len() <= DLX_INDIV_MAX_SIZE,
                joined == self@.instructions.take(mid as int) + other@.instructions.skip(
                    mid_other as int,
                ),
                instruction_views(instructions@) == joined.take(instructions.len() as int),
            decreases other.instructions.len() - k,
        {
            let ghost before = instruction_views(instructions@);
            let copy = other.instructions[k].clone();
            assert(joined[before.len() as int] == other@.instructions.skip(mid_other as int)[k
                - mid_other]);
            instructions.push(copy);
            k += 1;
            assert(instruction_views(instructions@) =~= before.push(copy@));
            assert(before.push(copy@) =~= joined.take(instructions.len() as int));
        }
        let ghost cut = instruction_views(instructions@);
        assert(cut =~= if joined.len() > DLX_INDIV_MAX_SIZE {
            joined.take(DLX_INDIV_MAX_SIZE as int)
        } else {
            joined
        });
        let instructions = pad_with_no_ops(instructions);
        proof {
            if joined.len() > DLX_INDIV_MAX_SIZE {
                assert(padded(cut) =~= cut);
            }
        }
        let labels = self.labels.clone();
        assert(label_views(labels@) =~= label_views(self.labels@));
        let child = Individual { instructions, labels };
        assert(child@.instructions =~= crossed(self@, other@).instructions);
        child
    }

    /// Makes a genome of instructions and labels: the instructions are padded
    /// with `NOP` to the capacity. More instructions than the capacity, or a
    /// label beyond it, are an error.
    pub fn from_parts(instructions: Vec<Instruction>, labels: Vec<Label>) -> (r: Result<
        Individual,
        ProgramError,
    >)
        ensures
            program_result_view(r) == assembled(
                instruction_views(instructions@),
                label_views(labels@),
            ),
    {
        if instructions.len() > DLX_INDIV_MAX_SIZE {
            return Err(ProgramError::TooLong { lines: instructions.len() });
        }
        let mut l: usize = 0;
        while l < labels.len()
            invariant
                l <= labels.len(),
                instructions.len() <= DLX_INDIV_MAX_SIZE,
                first_label_out_of_range(label_views(labels@), 0) == first_label_out_of_range(
                    label_views(labels@),
                    l as int,
                ),
                forall|k: int| 0 <= k < l ==> (#[trigger] labels@[k]).location < DLX_INDIV_MAX_SIZE,
            decreases labels.len() - l,
        {
            assert(label_views(labels@)[l as int].location == labels@[l as int].location);
            if labels[l].location >= DLX_INDIV_MAX_SIZE {
                assert(first_label_out_of_range(label_views(labels@), l as int) == l);
                assert(instruction_views(instructions@).len() <= DLX_INDIV_MAX_SIZE);
                return Err(ProgramError::LabelOutOfRange { label: l });
            }
            l += 1;
        }
        let ghost given = label_views(labels@);
        assert forall|k: int| 0 <= k < given.len() implies 0 <= (#[trigger] given[k]).location
            < DLX_INDIV_MAX_SIZE by {
            assert(labels@[k].location < DLX_INDIV_MAX_SIZE);
        }
        let instructions = pad_with_no_ops(instructions);
        Ok(Individual { instructions, labels })
    }

    /// The program's text: one line for each instruction, with the label that
    /// names its position in front.
    pub fn to_string(&self) -> (s: String)
        ensures
            s@ == program_text(self@),
    {
        let mut out = String::new();
        let mut i: usize = 0;
        while i < self.instructions.len()
            invariant
                i <= self.instructions.len(),
                out@ == lines_text(self@, i as int),
            decreases self.instructions.len() - i,
        {
            let ghost before = out@;
            let mut l: usize = 0;
            while l < self.labels.len() && self.labels[l].location != i
                invariant
                    l <= self.labels.len(),
                    label_index_at(self@.labels, i as int, 0) == label_index_at(
                        self@.labels,
                        i as int,
                        l as int,
                    ),
                decreases self.labels.len() - l,
            {
                l += 1;
            }
            if l < self.labels.len() {
                out.append(self.labels[l].name.as_str());
                out.push(':');
                out.push(' ');
            }
            let text = self.instructions[i].to_string();
            out.append(text.as_str());
            out.push('\n');
            assert(out@ =~= before + line_text(self@, i as int));
            i += 1;
        }
        out
    }

    /// Parses a program: one instruction on each line, which may start with a
    /// label and a colon. The instructions are padded with `NOP` to the
    /// capacity.
    pub fn parse(input: &str) -> (r: Result<Individual, ProgramError>)
        ensures
            program_result_view(r) == parsed_program(input@),
    {
        let chars = chars_of(input);
        let ghost lines = split_lines(chars@, 0);
        let mut count: usize = 0;
        let mut start: usize = 0;
        while start < chars.len()
            invariant
                count <= start <= chars.len(),
                lines.len() == count + split_lines(chars@, start as int).len(),
            decreases chars.len() - start,
        {
            let (end, next) = line_end(&chars, start);
            count += 1;
            start = next;
        }
        if count > DLX_INDIV_MAX_SIZE {
            return Err(ProgramError::TooLong { lines: count });
        }
        let mut instructions: Vec<Instruction> = Vec::new();
        let mut labels: Vec<Label> = Vec::new();
        start = 0;
        assert(instruction_views(instructions@) =~= Seq::empty());
        assert(label_views(labels@) =~= Seq::empty());
        assert(lines.skip(0) =~= lines);
        while start < chars.len()
            invariant
                start <= chars.len(),
                chars@ == input@,
                lines == split_lines(chars@, 0),
                lines.len() <= DLX_INDIV_MAX_SIZE,
                instructions.len() <= lines.len(),
                split_lines(chars@, start as int) == lines.skip(instructions.len() as int),
                parsed_lines(lines, instructions.len() as int) == Ok::<
                    IndividualView,
                    ProgramError,
                >(
                    IndividualView {
                        instructions: instruction_views(instructions@),
                        labels: label_views(labels@),
                    },
                ),
                forall|k: int| 0 <= k < labels.len() ==> (#[trigger] labels@[k]).location < lines.len(),
            decreases chars.len() - start,
        {
            let n = instructions.len();
            let (end, next) = line_end(&chars, start);
            let ghost line = chars@.subrange(start as int, end as int);
            assert(lines.skip(n as int).len() > 0);
            assert(lines.skip(n as int)[0] == line);
            assert(lines[n as int] == line);
            let ghost before_instructions = instruction_views(instructions@);
            let ghost before_labels = label_views(labels@);
            match parse_line(&chars, start, end, n) {
                Ok((instruction, label)) => {
                    instructions.push(instruction);
                    assert(instruction_views(instructions@) =~= before_instructions.push(
                        instruction@,
                    ));
                    match label {
                        Some(label) => {
                            labels.push(label);
                            assert(label_views(labels@) =~= before_labels.push(label@));
                        },
                        None => {},
                    }
                },
                Err(error) => {
                    proof {
                        assert(parsed_lines(lines, n + 1) == Err::<IndividualView, ProgramError>(
                            ProgramError::Line { line: n, error },
                        ));
                        lemma_parse_error_stays(lines, n + 1, lines.len() as int);
                    }
                    return Err(ProgramError::Line { line: n, error });
                },
            }
            assert(lines.skip(n as int).skip(1) =~= lines.skip(n + 1));
            assert(split_lines(chars@, next as int) =~= lines.skip(n as int).skip(1));
            start = next;
        }
        assert(instructions.len() == lines.len());
        let instructions = pad_with_no_ops(instructions);
        proof {
            let given = label_views(labels@);
            assert forall|k: int| 0 <= k < given.len() implies 0 <= (#[trigger] given[k]).location
                < DLX_INDIV_MAX_SIZE by {
                assert(labels@[k].location < lines.len());
            }
        }
        Ok(Individual { instructions, labels })
    }

    /// Parses a program, as `parse` does.
    pub fn new(input: &str) -> (r: Result<Individual, ProgramError>)
        ensures
            program_result_view(r) == parsed_program(input@),
    {
        Individual::parse(input)
    }
}

impl Clone for Individual {
    fn clone(&self) -> (copy: Self)
        ensures
            copy@ == self@,
    {
        proof {
            use_type_invariant(self);
        }
        let mut instructions: Vec<Instruction> = Vec::new();
        let mut i: usize = 0;
        while i < self.instructions.len()
            invariant
                i <= self.instructions.len(),
                instructions.len() == i,
                forall|k: int| 0 <= k < i ==> (#[trigger] instructions@[k])@ == self.instructions@[k]@,
            decreases self.instructions.len() - i,
        {
            instructions.push(self.instructions[i].clone());
            i += 1;
        }
        let labels = self.labels.clone();
        assert(label_views(labels@) =~= label_views(self.labels@));
        assert(instruction_views(instructions@) =~= instruction_views(self.instructions@));
        Individual { instructions, labels }
    }
}

impl Default for Individual {
    /// The minimal genome, as `generate` makes it.
    fn default() -> (g: Self)
        ensures
            g@.instructions == Seq::new(DLX_INDIV_MAX_SIZE as nat, |i: int| no_op()),
            g@.labels.len() == 0,
    {
        Individual::generate()
    }
}

/// Once a line is in error, so is every longer part of the program, with the
/// same error.
pub proof fn lemma_parse_error_stays(lines: Seq<Seq<char>>, n: int, m: int)
    requires
        n <= m,
        parsed_lines(lines, n) is Err,
    ensures
        parsed_lines(lines, m) == parsed_lines(lines, n),
    decreases m - n,
{
    if n < m {
        lemma_parse_error_stays(lines, n, m - 1);
    }
}

/// Parses the line `chars[start..end]`, which is the line with the index `n`.
fn parse_line(chars: &Vec<char>, start: usize, end: usize, n: usize) -> (r: Result<
    (Instruction, Option<Label>),
    ParseError,
>)
    requires
        start <= end <= chars.len(),
    ensures
        match instruction_of(instruction_part(chars@.subrange(start as int, end as int))) {
            Ok(i) => {
                &&& r matches Ok((instruction, label))
                &&& instruction@ == i
                &&& match label_part(chars@.subrange(start as int, end as int)) {
                    Some(name) => label matches Some(l) && l@ == (LabelView {
                        name,
                        location: n as int,
                    }),
                    None => label is None,
                }
            },
            Err(e) => r == Err::<(Instruction, Option<Label>), ParseError>(e),
        },
{
    let ghost line = chars@.subrange(start as int, end as int);
    assert(chars@.take(end as int).skip(start as int) =~= line);
    let colon = find_char_from(chars, ':', start, end);
    let text = if colon < end {
        string_of(chars, colon + 1, end)
    } else {
        string_of(chars, start, end)
    };
    assert(text@ =~= instruction_part(line));
    let instruction = match Instruction::parse_instr(text.as_str()) {
        Ok(instruction) => instruction,
        Err(error) => {
            return Err(error);
        },
    };
    if colon < end {
        let head = slice_of(chars, start, colon);
        assert(head@ =~= line.take(colon - start));
        let (from, to) = trim_bounds(&head);
        Ok((instruction, Some(Label { name: string_of(&head, from, to), location: n })))
    } else {
        Ok((instruction, None))
    }
}

/// Where the line that starts at `start` ends, and where the next one starts.
fn line_end(chars: &Vec<char>, start: usize) -> (r: (usize, usize))
    requires
        start < chars.len(),
    ensures
        start <= r.0 <= chars.len(),
        start < r.1 <= chars.len(),
        split_lines(chars@, start as int) == seq![chars@.subrange(start as int, r.0 as int)]
            + split_lines(chars@, r.1 as int),
{
    let end = find_char_from(chars, '\n', start, chars.len());
    proof {
        assert(chars@.take(chars.len() as int).skip(0) =~= chars@);
        if end == chars.len() {
            assert(chars@.skip(start as int) =~= chars@.subrange(start as int, end as int));
            assert(split_lines(chars@, end as int) =~= Seq::<Seq<char>>::empty());
        }
    }
    if end < chars.len() {
        (end, end + 1)
    } else {
        (end, end)
    }
}

/// Puts `NOP` at the end of `instructions` until the capacity is reached.
fn pad_with_no_ops(instructions: Vec<Instruction>) -> (out: Vec<Instruction>)
    requires
        instructions.len() <= DLX_INDIV_MAX_SIZE,
    ensures
        instruction_views(out@) == padded(instruction_views(instructions@)),
        out.len() == DLX_INDIV_MAX_SIZE,
{
    let ghost given = instruction_views(instructions@);
    let mut out = instructions;
    while out.len() < DLX_INDIV_MAX_SIZE
        invariant
            given.len() <= out.len() <= DLX_INDIV_MAX_SIZE,
            instruction_views(out@) == given + Seq::new(
                (out.len() - given.len()) as nat,
                |i: int| no_op(),
            ),
        decreases DLX_INDIV_MAX_SIZE - out.len(),
    {
        let ghost before = instruction_views(out@);
        out.push(Instruction::default());
        assert(instruction_views(out@) =~= before.push(no_op()));
        assert(before.push(no_op()) =~= given + Seq::new(
            (out.len() - given.len()) as nat,
            |i: int| no_op(),
        ));
    }
    out
}

/// The totals of the two weightings of the edits.
proof fn lemma_operator_weights()
    ensures
        total_weight(seq![1000u32, 0u32, 0u32, 0u32, 0u32, 0u32]) == 1000,
        total_weight(seq![0u32, 0u32, 0u32, 50u32, 50u32, 10u32]) == 110,
{
    let a = seq![1000u32, 0u32, 0u32, 0u32, 0u32, 0u32];
    let b = seq![0u32, 0u32, 0u32, 50u32, 50u32, 10u32];
    lemma_total_weight_of_six(a);
    lemma_total_weight_of_six(b);
}

/// The total of six weights is their sum.
proof fn lemma_total_weight_of_six(w: Seq<u32>)
    requires
        w.len() == 6,
    ensures
        total_weight(w) == w[0] + w[1] + w[2] + w[3] + w[4] + w[5],
{
    let w5 = w.drop_last();
    let w4 = w5.drop_last();
    let w3 = w4.drop_last();
    let w2 = w3.drop_last();
    let w1 = w2.drop_last();
    let w0 = w1.drop_last();
    assert(total_weight(w0) == 0);
    assert(total_weight(w1) == total_weight(w0) + w1.last());
    assert(total_weight(w2) == total_weight(w1) + w2.last());
    assert(total_weight(w3) == total_weight(w2) + w3.last());
    assert(total_weight(w4) == total_weight(w3) + w4.last());
    assert(total_weight(w5) == total_weight(w4) + w5.last());
    assert(total_weight(w) == total_weight(w5) + w.last());
}

/// Whether `b` is what one of the six edits may make of `a`.
pub open spec fn edited(a: IndividualView, b: IndividualView) -> bool {
    ||| added(a, b)
    ||| removed_one(a, b)
    ||| moved(a, b)
    ||| duplicated(a, b)
    ||| replaced_one(a, b)
    ||| tweaked_one(a, b)
}

/// Putting an instruction in keeps the length and leaves no label out of
/// range.
pub proof fn lemma_inserted_keeps_shape(
    a: IndividualView,
    position: int,
    instruction: InstructionView,
    from: int,
)
    requires
        a.well_formed(),
        0 <= position <= a.instructions.len(),
    ensures
        a.inserted(position, instruction, from).well_formed(),
        a.inserted(position, instruction, from).instructions.len() == a.instructions.len(),
{
    lemma_shifted_up_in_range(a.labels, from);
}

/// Taking an instruction out keeps the length and leaves no label out of
/// range.
pub proof fn lemma_removed_keeps_shape(a: IndividualView, position: int)
    requires
        a.well_formed(),
        0 <= position < a.instructions.len(),
    ensures
        a.removed(position).well_formed(),
        a.removed(position).instructions.len() == a.instructions.len(),
{
    lemma_shifted_down_in_range(a.labels, position);
}

/// Every edit keeps the number of instructions, and none leaves a label that
/// names a position beyond the capacity.
pub proof fn lemma_edit_keeps_shape(a: IndividualView, b: IndividualView)
    requires
        a.well_formed(),
        edited(a, b),
    ensures
        b.instructions.len() == a.instructions.len(),
        labels_in_range(b.labels),
        b.well_formed(),
{
    lemma_active_length_bounds(a.instructions);
    if b == a {
    } else if added(a, b) {
        let (p, i) = choose|p: int, i: InstructionView|
            0 <= p <= a.active_length() && is_random_instruction(i) && b == #[trigger] a.inserted(
                p,
                i,
                p,
            );
        lemma_inserted_keeps_shape(a, p, i, p);
    } else if removed_one(a, b) {
        let p = choose|p: int| is_movable(a, p) && b == #[trigger] a.removed(p);
        lemma_removed_keeps_shape(a, p);
    } else if moved(a, b) {
        let (p, q) = choose|p: int, q: int|
            is_movable(a, p) && 0 <= q < a.active_length() && p != q && b == #[trigger] moved_to(
                a,
                p,
                q,
            );
        lemma_removed_keeps_shape(a, p);
        lemma_inserted_keeps_shape(a.removed(p), q, a.instructions[p], q);
    } else if duplicated(a, b) {
        let p = choose|p: int| is_movable(a, p) && b == #[trigger] duplicated_at(a, p);
        lemma_inserted_keeps_shape(a, p, a.instructions[p], p + 1);
    } else if replaced_one(a, b) {
    } else {
    }
}

/// A mutation is one of the edits, so it keeps the number of instructions and
/// leaves no label out of range.
pub proof fn lemma_mutation_keeps_shape(a: IndividualView, b: IndividualView)
    requires
        a.well_formed(),
        mutated(a, b),
    ensures
        b.instructions.len() == a.instructions.len(),
        labels_in_range(b.labels),
{
    lemma_edit_keeps_shape(a, b);
}

/// A program that parses fills the capacity.
pub proof fn lemma_parsed_program_fills_capacity(text: Seq<char>)
    ensures
        parsed_program(text) matches Ok(v) ==> v.instructions.len() == DLX_INDIV_MAX_SIZE
            && labels_in_range(v.labels),
{
    let lines = split_lines(text, 0);
    if lines.len() <= DLX_INDIV_MAX_SIZE {
        lemma_parsed_lines_shape(lines, lines.len() as int);
    }
}

/// The first `n` lines give `n` instructions, and labels that name positions
/// below `n`.
pub proof fn lemma_parsed_lines_shape(lines: Seq<Seq<char>>, n: int)
    requires
        0 <= n,
    ensures
        parsed_lines(lines, n) matches Ok(v) ==> v.instructions.len() == n && forall|i: int|
            0 <= i < v.labels.len() ==> 0 <= (#[trigger] v.labels[i]).location < n,
    decreases n,
{
    if n > 0 {
        lemma_parsed_lines_shape(lines, n - 1);
    }
}

/// The child of two genomes has as many instructions as the capacity, and its
/// labels are those of the first, each naming one of its positions.
pub proof fn lemma_crossed_within_capacity(a: IndividualView, b: IndividualView)
    requires
        a.well_formed(),
        b.well_formed(),
    ensures
        crossed(a, b).instructions.len() == DLX_INDIV_MAX_SIZE,
        crossed(a, b).labels == a.labels,
        crossed(a, b).well_formed(),
{
}

} // verus!
