//! One instruction of a program: an opcode, its register operands and its
//! immediate, with the conversion to and from text.

use super::opcode::{opcode_named, Opcode};
use super::register::{parsed_register, register_text, Register};
use crate::pattern::{find_all, pattern_compiles, pattern_matches};
use crate::random::{random_below, random_i32_between};
use crate::text::{
    char_is_digit, chars_of, find_char, find_char_from, find_whitespace, first_word, hex_i32, is_digit, padded_hex_text,
    parse_hex_i32, push_padded_hex, string_of, trim_bounds, trimmed,
};
use vstd::prelude::*;

verus! {

/// The highest register number that a random instruction uses.
pub const MAX_REGISTER_FOR_RAND: usize = 10;

/// The bound of the immediates that random instructions are made from.
pub const MAX_IMMEDIATE_FOR_RAND: i32 = 200;

/// Why a text is not an instruction.
#[derive(Debug, Clone, Copy, PartialEq, Eq, Structural)]
pub enum ParseError {
    /// The text holds no word at all.
    MissingOpcode,
    /// The first word names no opcode.
    UnknownOpcode,
    /// The pattern that finds the operands does not compile.
    Pattern,
    /// The operand with this index stands where a register is due and is none.
    InvalidRegister { operand: usize },
    /// The operand with this index stands where an immediate is due and is no
    /// hexadecimal number of 32 bits.
    InvalidImmediate { operand: usize },
    /// The opcode takes `expected` operands and the text holds `actual`.
    OperandCount { expected: usize, actual: usize },
}

/// What an instruction is: the model that the contracts speak of.
pub struct InstructionView {
    pub opcode: Opcode,
    pub registers: Seq<Register>,
    pub immediate: int,
}

/// One decoded instruction.
#[derive(Debug)]
pub struct Instruction {
    opcode: Opcode,
    registers: Vec<Register>,
    immidiate: i32,
}

/// Whether a register operand starts at `i` in the template: an `r` and a digit
/// from 1 to 9.
pub open spec fn is_register_slot(template: Seq<char>, i: int) -> bool {
    &&& 0 <= i
    &&& i + 1 < template.len()
    &&& template[i] == 'r'
    &&& is_digit(template[i + 1])
    &&& template[i + 1] != '0'
}

/// The index, from zero, of the register operand that starts at `i`.
pub open spec fn slot_at(template: Seq<char>, i: int) -> int {
    template[i + 1] as int - '1' as int
}

/// Whether the immediate stands at `i` in the template.
pub open spec fn is_immediate_slot(template: Seq<char>, i: int) -> bool {
    0 <= i < template.len() && (template[i] == 'i' || template[i] == 'j')
}

/// Where the token after the one at `i` starts.
pub open spec fn next_token(template: Seq<char>, i: int) -> int {
    if 0 <= i < template.len() && template[i] == 'r' && i + 1 < template.len() {
        i + 2
    } else {
        i + 1
    }
}

/// How many registers an instruction needs for the part of the template from
/// `i` on: one more than the highest slot named there.
pub open spec fn registers_needed(template: Seq<char>, i: int) -> nat
    decreases template.len() - i,
{
    if 0 <= i < template.len() {
        let rest = registers_needed(template, next_token(template, i));
        if is_register_slot(template, i) && slot_at(template, i) + 1 > rest {
            (slot_at(template, i) + 1) as nat
        } else {
            rest
        }
    } else {
        0
    }
}

/// The immediate as the 32 bits that stand for it.
pub open spec fn immediate_bits(immediate: int) -> nat {
    if immediate < 0 {
        (immediate + 0x1_0000_0000) as nat
    } else {
        immediate as nat
    }
}

/// How the immediate is written: `0x` and at least four hexadecimal digits.
pub open spec fn immediate_text(immediate: int) -> Seq<char> {
    seq!['0', 'x'] + padded_hex_text(immediate_bits(immediate), 4)
}

/// The operands as the part of the template from `i` on lays them out.
pub open spec fn rendered_operands(
    template: Seq<char>,
    i: int,
    registers: Seq<Register>,
    immediate: int,
) -> Seq<char>
    decreases template.len() - i,
{
    if 0 <= i < template.len() {
        let rest = rendered_operands(template, next_token(template, i), registers, immediate);
        if is_register_slot(template, i) {
            register_text(registers[slot_at(template, i)]) + rest
        } else if template[i] == 'r' && i + 1 < template.len() {
            seq![template[i], template[i + 1]] + rest
        } else if is_immediate_slot(template, i) {
            immediate_text(immediate) + rest
        } else {
            seq![template[i]] + rest
        }
    } else {
        Seq::empty()
    }
}

/// The text of an instruction: the opcode's name and, where the opcode takes
/// operands, a space and the operands.
pub open spec fn instruction_text(v: InstructionView) -> Seq<char> {
    let template = v.opcode.format();
    let head = if template.len() == 0 {
        v.opcode.name()
    } else {
        v.opcode.name().push(' ')
    };
    head + rendered_operands(template, 0, v.registers, v.immediate)
}

/// The pattern that finds the operands of an instruction: a hexadecimal
/// literal, a register, or a run of digits.
pub open spec fn operand_pattern() -> Seq<char> {
    "0x[0-9a-fA-F]+|R\\d+|\\d+"@
}

/// Where `s` starts once every `0x` in front of it is taken off.
pub open spec fn skip_hex_prefix(s: Seq<char>, i: int) -> int
    decreases s.len() - i,
{
    if 0 <= i && i + 1 < s.len() && s[i] == '0' && s[i + 1] == 'x' {
        skip_hex_prefix(s, i + 2)
    } else {
        i
    }
}

/// What an operand denotes as an immediate: a hexadecimal number of 32 bits,
/// with or without `0x` in front.
pub open spec fn parsed_immediate(operand: Seq<char>) -> Option<int> {
    hex_i32(operand.subrange(skip_hex_prefix(operand, 0), operand.len() as int))
}

/// The registers, the immediate and the number of operands asked for so far,
/// while operands are decoded along a template.
pub struct Decoding {
    pub registers: Seq<Register>,
    pub immediate: int,
    pub taken: int,
}

/// `registers` with `r` in the slot `slot`; slots that were missing below it
/// hold `R0`.
pub open spec fn placed(registers: Seq<Register>, slot: int, r: Register) -> Seq<Register> {
    if slot < registers.len() {
        registers.update(slot, r)
    } else {
        (registers + Seq::new((slot - registers.len()) as nat, |i: int| Register::R0)).push(r)
    }
}

/// Decodes `operands` along the part of the template from `i` on. Each register
/// slot and each immediate asks for the next operand, in order; an operand that
/// is there must read as what the slot asks for.
pub open spec fn decoded_from(
    template: Seq<char>,
    i: int,
    operands: Seq<Seq<char>>,
    d: Decoding,
) -> Result<Decoding, ParseError>
    decreases template.len() - i,
{
    if 0 <= i < template.len() {
        let next = next_token(template, i);
        if is_register_slot(template, i) {
            if 0 <= d.taken < operands.len() {
                match parsed_register(operands[d.taken]) {
                    Some(r) => decoded_from(
                        template,
                        next,
                        operands,
                        Decoding {
                            registers: placed(d.registers, slot_at(template, i), r),
                            immediate: d.immediate,
                            taken: d.taken + 1,
                        },
                    ),
                    None => Err(ParseError::InvalidRegister { operand: d.taken as usize }),
                }
            } else {
                decoded_from(template, next, operands, Decoding { taken: d.taken + 1, ..d })
            }
        } else if is_immediate_slot(template, i) {
            if 0 <= d.taken < operands.len() {
                match parsed_immediate(operands[d.taken]) {
                    Some(n) => decoded_from(
                        template,
                        next,
                        operands,
                        Decoding { registers: d.registers, immediate: n, taken: d.taken + 1 },
                    ),
                    None => Err(ParseError::InvalidImmediate { operand: d.taken as usize }),
                }
            } else {
                decoded_from(template, next, operands, Decoding { taken: d.taken + 1, ..d })
            }
        } else {
            decoded_from(template, next, operands, d)
        }
    } else {
        Ok(d)
    }
}

/// The instruction that `opcode` and `operands` make: the operands are decoded
/// along the opcode's template, and there must be as many as it asks for.
pub open spec fn decoded(opcode: Opcode, operands: Seq<Seq<char>>) -> Result<
    InstructionView,
    ParseError,
> {
    let start = Decoding { registers: Seq::empty(), immediate: 0, taken: 0 };
    match decoded_from(opcode.format(), 0, operands, start) {
        Ok(d) => if d.taken == operands.len() {
            Ok(InstructionView { opcode, registers: d.registers, immediate: d.immediate })
        } else {
            Err(
                ParseError::OperandCount {
                    expected: d.taken as usize,
                    actual: operands.len() as usize,
                },
            )
        },
        Err(e) => Err(e),
    }
}

/// The part of a trimmed instruction that holds its operands: what follows its
/// first space, or nothing.
pub open spec fn operand_text(line: Seq<char>) -> Seq<char> {
    let space = find_char(line, ' ', 0);
    if space < line.len() {
        line.skip(space + 1)
    } else {
        Seq::empty()
    }
}

/// The instruction that `text` denotes, given the operands found in it.
pub open spec fn parsed_instruction(text: Seq<char>, operands: Seq<Seq<char>>) -> Result<
    InstructionView,
    ParseError,
> {
    if first_word(text).len() == 0 {
        Err(ParseError::MissingOpcode)
    } else {
        match opcode_named(first_word(text)) {
            Some(opcode) => decoded(opcode, operands),
            None => Err(ParseError::UnknownOpcode),
        }
    }
}

/// Whether the operands of `text` are searched for: its first word names an
/// opcode.
pub open spec fn names_opcode(text: Seq<char>) -> bool {
    first_word(text).len() > 0 && opcode_named(first_word(text)) is Some
}

/// The instruction that `text` denotes: its first word names the opcode, and
/// the operands are what `operand_pattern` finds after the first space of the
/// trimmed text. Where the opcode is known and the pattern does not compile,
/// the error is `Pattern`.
pub open spec fn instruction_of(text: Seq<char>) -> Result<InstructionView, ParseError> {
    if names_opcode(text) && !pattern_compiles(operand_pattern()) {
        Err(ParseError::Pattern)
    } else {
        parsed_instruction(text, pattern_matches(operand_pattern(), operand_text(trimmed(text))))
    }
}

/// The model of a parse result.
pub open spec fn result_view(r: Result<Instruction, ParseError>) -> Result<
    InstructionView,
    ParseError,
> {
    match r {
        Ok(i) => Ok(i@),
        Err(e) => Err(e),
    }
}

impl View for Instruction {
    type V = InstructionView;

    closed spec fn view(&self) -> InstructionView {
        InstructionView {
            opcode: self.opcode,
            registers: self.registers@,
            immediate: self.immidiate as int,
        }
    }
}

impl InstructionView {
    /// Whether the instruction has a register for every slot of its opcode's
    /// template, and an immediate of 32 bits.
    pub open spec fn well_formed(self) -> bool {
        &&& self.registers.len() >= registers_needed(self.opcode.format(), 0)
        &&& i32::MIN <= self.immediate <= i32::MAX
    }
}

/// Decoding only adds operands and registers, and where it asks for no more
/// operands than there are, it leaves a register in every slot of the template.
pub proof fn lemma_decoding_fills_slots(
    template: Seq<char>,
    i: int,
    operands: Seq<Seq<char>>,
    d: Decoding,
)
    requires
        0 <= i,
        0 <= d.taken,
    ensures
        decoded_from(template, i, operands, d) matches Ok(e) ==> {
            &&& e.taken >= d.taken
            &&& e.registers.len() >= d.registers.len()
            &&& e.taken <= operands.len() ==> e.registers.len() >= registers_needed(template, i)
        },
    decreases template.len() - i,
{
    if i < template.len() {
        let next = next_token(template, i);
        if is_register_slot(template, i) {
            if d.taken < operands.len() {
                match parsed_register(operands[d.taken]) {
                    Some(r) => {
                        lemma_decoding_fills_slots(
                            template,
                            next,
                            operands,
                            Decoding {
                                registers: placed(d.registers, slot_at(template, i), r),
                                immediate: d.immediate,
                                taken: d.taken + 1,
                            },
                        );
                    },
                    None => {},
                }
            } else {
                lemma_decoding_fills_slots(
                    template,
                    next,
                    operands,
                    Decoding { taken: d.taken + 1, ..d },
                );
            }
        } else if is_immediate_slot(template, i) {
            if d.taken < operands.len() {
                match parsed_immediate(operands[d.taken]) {
                    Some(n) => {
                        lemma_decoding_fills_slots(
                            template,
                            next,
                            operands,
                            Decoding { registers: d.registers, immediate: n, taken: d.taken + 1 },
                        );
                    },
                    None => {},
                }
            } else {
                lemma_decoding_fills_slots(
                    template,
                    next,
                    operands,
                    Decoding { taken: d.taken + 1, ..d },
                );
            }
        } else {
            lemma_decoding_fills_slots(template, next, operands, d);
        }
    }
}

/// No opcode that `Opcode::rand` may return needs more than three registers.
pub proof fn lemma_random_choice_needs_three(opcode: Opcode)
    requires
        opcode.is_random_choice(),
    ensures
        registers_needed(opcode.format(), 0) <= 3,
{
    reveal_strlit("r1, r2, r3");
    reveal_strlit("r1, i, r2");
    reveal_with_fuel(registers_needed, 12);
}

/// Puts `r` into the slot `slot` of `registers`.
fn place_register(registers: &mut Vec<Register>, slot: usize, r: Register)
    ensures
        final(registers)@ == placed(old(registers)@, slot as int, r),
{
    if slot < registers.len() {
        registers[slot] = r;
    } else {
        while registers.len() < slot
            invariant
                old(registers)@.len() <= registers.len() <= slot,
                registers@ == old(registers)@ + Seq::new(
                    (registers.len() - old(registers)@.len()) as nat,
                    |i: int| Register::R0,
                ),
            decreases slot - registers.len(),
        {
            let ghost before = registers@;
            registers.push(Register::R0);
            assert(registers@ =~= old(registers)@ + Seq::new(
                (registers.len() - old(registers)@.len()) as nat,
                |i: int| Register::R0,
            ));
        }
        registers.push(r);
    }
}

/// Counts the registers that a template asks for.
fn template_registers(template: &Vec<char>) -> (n: usize)
    ensures
        n == registers_needed(template@, 0),
{
    let mut n: usize = 0;
    let mut i: usize = 0;
    while i < template.len()
        invariant
            i <= template.len(),
            n <= 9,
            registers_needed(template@, 0) == if n > registers_needed(template@, i as int) {
                n as nat
            } else {
                registers_needed(template@, i as int)
            },
        decreases template.len() - i,
    {
        let c: char = template[i];
        if c == 'r' && i + 1 < template.len() {
            let d: char = template[i + 1];
            if char_is_digit(d) && d != '0' {
                let slot: usize = (d as u32 - 49) as usize;
                if slot + 1 > n {
                    n = slot + 1;
                }
            }
            i += 2;
        } else {
            i += 1;
        }
    }
    n
}

impl Instruction {
    #[verifier::type_invariant]
    spec fn holds_its_operands(self) -> bool {
        self@.well_formed()
    }

    /// Returns the opcode.
    pub fn get_opcode(&self) -> (opcode: &Opcode)
        ensures
            *opcode == self@.opcode,
    {
        &self.opcode
    }

    /// Returns the immediate.
    pub fn get_immidiate(&self) -> (immediate: i32)
        ensures
            immediate == self@.immediate,
    {
        self.immidiate
    }

    /// Returns the register operands.
    pub fn get_registers(&self) -> (registers: &Vec<Register>)
        ensures
            registers@ == self@.registers,
            self@.well_formed(),
    {
        proof {
            use_type_invariant(self);
        }
        &self.registers
    }

    /// Makes an instruction of its parts, where the registers are enough for
    /// the opcode.
    pub fn from_parts(opcode: Opcode, registers: Vec<Register>, immidiate: i32) -> (r: Option<
        Instruction,
    >)
        ensures
            r is Some <==> registers@.len() >= registers_needed(opcode.format(), 0),
            r matches Some(i) ==> i@ == (InstructionView {
                opcode,
                registers: registers@,
                immediate: immidiate as int,
            }),
    {
        let template = chars_of(opcode.get_format());
        if registers.len() >= template_registers(&template) {
            Some(Instruction { opcode, registers, immidiate })
        } else {
            None
        }
    }

    /// A random instruction: an opcode of `Opcode::rand`, three registers whose
    /// numbers are at most `MAX_REGISTER_FOR_RAND`, and an immediate that is
    /// four times a number from `-MAX_IMMEDIATE_FOR_RAND` up to, and without,
    /// `MAX_IMMEDIATE_FOR_RAND`.
    pub fn get_rand() -> (i: Instruction)
        ensures
            i@.opcode.is_random_choice(),
            i@.registers.len() == 3,
            forall|k: int| 0 <= k < 3 ==> (#[trigger] i@.registers[k]).number() <= 10,
            i@.immediate % 4 == 0,
            -800 <= i@.immediate < 800,
    {
        let opcode = Opcode::rand();
        let mut registers: Vec<Register> = Vec::new();
        while registers.len() < 3
            invariant
                registers.len() <= 3,
                forall|k: int| 0 <= k < registers.len() ==> (#[trigger] registers@[k]).number() <= 10,
            decreases 3 - registers.len(),
        {
            match Register::rand_up_to(MAX_REGISTER_FOR_RAND) {
                Some(r) => registers.push(r),
                None => registers.push(Register::R0),
            }
        }
        let immidiate = random_i32_between(-MAX_IMMEDIATE_FOR_RAND, MAX_IMMEDIATE_FOR_RAND) * 4;
        proof {
            lemma_random_choice_needs_three(opcode);
        }
        Instruction { opcode, registers, immidiate }
    }

    /// Sets the register operand at `pos` to `reg`, or one chosen at random
    /// where `pos` is `None`. A position that the instruction does not have
    /// leaves it as it is, and so does `None` on one without registers.
    pub fn set_register(&mut self, pos: Option<usize>, reg: Register)
        ensures
            final(self)@.opcode == old(self)@.opcode,
            final(self)@.immediate == old(self)@.immediate,
            final(self)@.registers.len() == old(self)@.registers.len(),
            pos matches Some(p) ==> final(self)@.registers == if p < old(self)@.registers.len() {
                old(self)@.registers.update(p as int, reg)
            } else {
                old(self)@.registers
            },
            pos is None && old(self)@.registers.len() == 0 ==> final(self)@ == old(self)@,
            pos is None && old(self)@.registers.len() > 0 ==> exists|k: int|
                0 <= k < old(self)@.registers.len() && final(self)@.registers == old(
                    self,
                )@.registers.update(k, reg),
    {
        proof {
            use_type_invariant(&*self);
        }
        let count = self.registers.len();
        let target: usize = match pos {
            Some(p) => p,
            None => if count > 0 {
                random_below(count)
            } else {
                0
            },
        };
        if target < count {
            self.registers[target] = reg;
        }
    }

    /// Sets the immediate.
    pub fn set_immidiate(&mut self, imm: i32)
        ensures
            final(self)@ == (InstructionView { immediate: imm as int, ..old(self)@ }),
    {
        proof {
            use_type_invariant(&*self);
        }
        self.immidiate = imm;
    }

    /// The instruction's text.
    pub fn to_string(&self) -> (s: String)
        ensures
            s@ == instruction_text(self@),
    {
        proof {
            use_type_invariant(self);
        }
        let template = chars_of(self.opcode.get_format());
        let mut out = self.opcode.to_string();
        if template.len() != 0 {
            out.push(' ');
        }
        let ghost head = out@;
        let ghost regs = self.registers@;
        let ghost imm = self.immidiate as int;
        let mut i: usize = 0;
        while i < template.len()
            invariant
                i <= template.len(),
                regs == self.registers@,
                imm == self.immidiate as int,
                registers_needed(template@, i as int) <= regs.len(),
                out@ + rendered_operands(template@, i as int, regs, imm) == head
                    + rendered_operands(template@, 0, regs, imm),
            decreases template.len() - i,
        {
            let c: char = template[i];
            let ghost before = out@;
            let ghost rest = rendered_operands(template@, next_token(template@, i as int), regs, imm);
            if c == 'r' && i + 1 < template.len() {
                let d: char = template[i + 1];
                if char_is_digit(d) && d != '0' {
                    let slot: usize = (d as u32 - 49) as usize;
                    let text = self.registers[slot].to_string();
                    out.append(text.as_str());
                    assert(out@ + rest =~= before + (register_text(regs[slot as int]) + rest));
                } else {
                    out.push(c);
                    out.push(d);
                    assert(out@ + rest =~= before + (seq![c, d] + rest));
                }
                i += 2;
            } else if c == 'i' || c == 'j' {
                let bits: u64 = if self.immidiate < 0 {
                    (self.immidiate as i64 + 0x1_0000_0000) as u64
                } else {
                    self.immidiate as u64
                };
                out.push('0');
                out.push('x');
                push_padded_hex(&mut out, bits, 4);
                assert(out@ + rest =~= before + (immediate_text(imm) + rest));
                i += 1;
            } else {
                out.push(c);
                assert(out@ + rest =~= before + (seq![c] + rest));
                i += 1;
            }
        }
        assert(out@ =~= out@ + rendered_operands(template@, i as int, regs, imm));
        out
    }

    /// Reads an operand as an immediate.
    fn parse_immediate(operand: &str) -> (r: Option<i32>)
        ensures
            match parsed_immediate(operand@) {
                Some(n) => r == Some(n as i32),
                None => r is None,
            },
    {
        let chars = chars_of(operand);
        let mut start: usize = 0;
        while chars.len() - start >= 2 && chars[start] == '0' && chars[start + 1] == 'x'
            invariant
                start <= chars.len(),
                skip_hex_prefix(chars@, 0) == skip_hex_prefix(chars@, start as int),
            decreases chars.len() - start,
        {
            start += 2;
        }
        parse_hex_i32(&chars, start, chars.len())
    }

    /// Makes the instruction of an opcode and the operands found in its text.
    pub fn from_operands(opcode: Opcode, operands: &Vec<String>) -> (r: Result<
        Instruction,
        ParseError,
    >)
        ensures
            result_view(r) == decoded(opcode, operands.deep_view()),
    {
        let template = chars_of(opcode.get_format());
        let ghost texts = operands.deep_view();
        let ghost start = Decoding { registers: Seq::empty(), immediate: 0, taken: 0 };
        let mut registers: Vec<Register> = Vec::new();
        let mut immidiate: i32 = 0;
        let mut taken: usize = 0;
        let mut i: usize = 0;
        while i < template.len()
            invariant
                i <= template.len(),
                taken <= i,
                template@ == opcode.format(),
                texts == operands.deep_view(),
                start == (Decoding { registers: Seq::empty(), immediate: 0, taken: 0 }),
                decoded_from(template@, 0, texts, start) == decoded_from(
                    template@,
                    i as int,
                    texts,
                    Decoding {
                        registers: registers@,
                        immediate: immidiate as int,
                        taken: taken as int,
                    },
                ),
            decreases template.len() - i,
        {
            let c: char = template[i];
            if c == 'r' && i + 1 < template.len() {
                let d: char = template[i + 1];
                if char_is_digit(d) && d != '0' {
                    if taken < operands.len() {
                        assert(texts[taken as int] == operands[taken as int]@);
                        match Register::parse_reg(operands[taken].as_str()) {
                            Some(r) => {
                                place_register(&mut registers, (d as u32 - 49) as usize, r);
                            },
                            None => {
                                return Err(ParseError::InvalidRegister { operand: taken });
                            },
                        }
                    }
                    taken += 1;
                }
                i += 2;
            } else if c == 'i' || c == 'j' {
                if taken < operands.len() {
                    assert(texts[taken as int] == operands[taken as int]@);
                    match Instruction::parse_immediate(operands[taken].as_str()) {
                        Some(n) => {
                            immidiate = n;
                        },
                        None => {
                            return Err(ParseError::InvalidImmediate { operand: taken });
                        },
                    }
                }
                taken += 1;
                i += 1;
            } else {
                i += 1;
            }
        }
        if taken != operands.len() {
            return Err(ParseError::OperandCount { expected: taken, actual: operands.len() });
        }
        proof {
            lemma_decoding_fills_slots(template@, 0, texts, start);
        }
        Ok(Instruction { opcode, registers, immidiate })
    }

    /// Parses an instruction: the name of an opcode and then the operands that
    /// the opcode's template asks for, each a hexadecimal literal, a register or
    /// a run of digits, with any punctuation between them.
    pub fn parse_instr(instr: &str) -> (r: Result<Instruction, ParseError>)
        ensures
            result_view(r) == instruction_of(instr@),
    {
        let chars = chars_of(instr);
        let (start, end) = trim_bounds(&chars);
        let word_end = find_whitespace(&chars, start);
        if word_end == start {
            return Err(ParseError::MissingOpcode);
        }
        let opcode = match Opcode::parse_chars(&chars, start, word_end) {
            Some(opcode) => opcode,
            None => {
                return Err(ParseError::UnknownOpcode);
            },
        };
        let ghost line = trimmed(instr@);
        assert(chars@.subrange(start as int, end as int) =~= chars@.take(end as int).skip(
            start as int,
        ));
        let space = find_char_from(&chars, ' ', start, end);
        let rest = if space < end {
            string_of(&chars, space + 1, end)
        } else {
            String::new()
        };
        assert(rest@ =~= operand_text(line));
        match find_all("0x[0-9a-fA-F]+|R\\d+|\\d+", rest.as_str()) {
            Ok(operands) => Instruction::from_operands(opcode, &operands),
            Err(_) => Err(ParseError::Pattern),
        }
    }

    /// Parses an instruction, as `parse_instr` does.
    pub fn new(instr: &str) -> (r: Result<Instruction, ParseError>)
        ensures
            result_view(r) == instruction_of(instr@),
    {
        Instruction::parse_instr(instr)
    }
}

impl Clone for Instruction {
    fn clone(&self) -> (copy: Self)
        ensures
            copy@ == self@,
    {
        proof {
            use_type_invariant(self);
        }
        let mut registers: Vec<Register> = Vec::new();
        let mut i: usize = 0;
        while i < self.registers.len()
            invariant
                i <= self.registers.len(),
                registers@ == self.registers@.take(i as int),
            decreases self.registers.len() - i,
        {
            registers.push(self.registers[i]);
            i += 1;
            assert(self.registers@.take(i as int) =~= self.registers@.take(i - 1).push(
                self.registers@[i - 1],
            ));
        }
        assert(self.registers@.take(i as int) =~= self.registers@);
        Instruction { opcode: self.opcode, registers, immidiate: self.immidiate }
    }
}

impl Default for Instruction {
    /// The instruction `NOP`, without operands.
    fn default() -> (i: Self)
        ensures
            i@ == (InstructionView { opcode: Opcode::NOP, registers: Seq::empty(), immediate: 0 }),
    {
        proof {
            reveal_strlit("");
        }
        Instruction { opcode: Opcode::NOP, registers: Vec::new(), immidiate: 0 }
    }
}

} // verus!
