//! The instruction set: each opcode with its operand class and its operand
//! template.

use crate::random::random_below;
use crate::text::{chars_of, find_non_whitespace, find_whitespace, first_word, matches_text};
use vstd::prelude::*;

verus! {

/// The operand class of an opcode.
#[derive(Debug, Clone, Copy, PartialEq, Eq, Structural)]
pub enum OpcodeType {
    /// Registers only.
    RType,
    /// Registers and an immediate.
    IType,
    /// A jump.
    JType,
}

/// The opcodes of the machine.
#[derive(Debug, Clone, Copy, PartialEq, Eq, Structural)]
pub enum Opcode {
    NOP,
    ADD,
    LDW,
    STW,
    SUB,
    MUL,
    DIV,
    AND,
    OR,
    XOR,
    SUBI,
    MULI,
    ADDI,
    DIVI,
    ANDI,
    ORI,
    XORI,
    BRZ,
    BRNZ,
    BRGT,
    BRGE,
    BRLT,
    BRLE,
}

/// The opcode whose name is `text`, if there is one.
pub open spec fn opcode_named(text: Seq<char>) -> Option<Opcode> {
    if text == "NOP"@ {
        Some(Opcode::NOP)
    } else if text == "ADD"@ {
        Some(Opcode::ADD)
    } else if text == "LDW"@ {
        Some(Opcode::LDW)
    } else if text == "STW"@ {
        Some(Opcode::STW)
    } else if text == "SUB"@ {
        Some(Opcode::SUB)
    } else if text == "MUL"@ {
        Some(Opcode::MUL)
    } else if text == "DIV"@ {
        Some(Opcode::DIV)
    } else if text == "AND"@ {
        Some(Opcode::AND)
    } else if text == "OR"@ {
        Some(Opcode::OR)
    } else if text == "XOR"@ {
        Some(Opcode::XOR)
    } else if text == "SUBI"@ {
        Some(Opcode::SUBI)
    } else if text == "MULI"@ {
        Some(Opcode::MULI)
    } else if text == "ADDI"@ {
        Some(Opcode::ADDI)
    } else if text == "DIVI"@ {
        Some(Opcode::DIVI)
    } else if text == "ANDI"@ {
        Some(Opcode::ANDI)
    } else if text == "ORI"@ {
        Some(Opcode::ORI)
    } else if text == "XORI"@ {
        Some(Opcode::XORI)
    } else if text == "BRZ"@ {
        Some(Opcode::BRZ)
    } else if text == "BRNZ"@ {
        Some(Opcode::BRNZ)
    } else if text == "BRGT"@ {
        Some(Opcode::BRGT)
    } else if text == "BRGE"@ {
        Some(Opcode::BRGE)
    } else if text == "BRLT"@ {
        Some(Opcode::BRLT)
    } else if text == "BRLE"@ {
        Some(Opcode::BRLE)
    } else {
        None
    }
}

impl Opcode {
    /// The opcode's name, as it is written in a program.
    pub open spec fn name(self) -> Seq<char> {
        match self {
            Opcode::NOP => "NOP"@,
            Opcode::ADD => "ADD"@,
            Opcode::LDW => "LDW"@,
            Opcode::STW => "STW"@,
            Opcode::SUB => "SUB"@,
            Opcode::MUL => "MUL"@,
            Opcode::DIV => "DIV"@,
            Opcode::AND => "AND"@,
            Opcode::OR => "OR"@,
            Opcode::XOR => "XOR"@,
            Opcode::SUBI => "SUBI"@,
            Opcode::MULI => "MULI"@,
            Opcode::ADDI => "ADDI"@,
            Opcode::DIVI => "DIVI"@,
            Opcode::ANDI => "ANDI"@,
            Opcode::ORI => "ORI"@,
            Opcode::XORI => "XORI"@,
            Opcode::BRZ => "BRZ"@,
            Opcode::BRNZ => "BRNZ"@,
            Opcode::BRGT => "BRGT"@,
            Opcode::BRGE => "BRGE"@,
            Opcode::BRLT => "BRLT"@,
            Opcode::BRLE => "BRLE"@,
        }
    }

    /// The opcode's operand class.
    pub open spec fn class(self) -> OpcodeType {
        match self {
            Opcode::NOP => OpcodeType::RType,
            Opcode::ADD => OpcodeType::RType,
            Opcode::LDW => OpcodeType::IType,
            Opcode::STW => OpcodeType::IType,
            Opcode::SUB => OpcodeType::RType,
            Opcode::MUL => OpcodeType::RType,
            Opcode::DIV => OpcodeType::RType,
            Opcode::AND => OpcodeType::RType,
            Opcode::OR => OpcodeType::RType,
            Opcode::XOR => OpcodeType::RType,
            Opcode::SUBI => OpcodeType::IType,
            Opcode::MULI => OpcodeType::IType,
            Opcode::ADDI => OpcodeType::IType,
            Opcode::DIVI => OpcodeType::IType,
            Opcode::ANDI => OpcodeType::IType,
            Opcode::ORI => OpcodeType::IType,
            Opcode::XORI => OpcodeType::IType,
            Opcode::BRZ => OpcodeType::IType,
            Opcode::BRNZ => OpcodeType::IType,
            Opcode::BRGT => OpcodeType::IType,
            Opcode::BRGE => OpcodeType::IType,
            Opcode::BRLT => OpcodeType::IType,
            Opcode::BRLE => OpcodeType::IType,
        }
    }

    /// The opcode's operand template: `r` and a digit stand for the register
    /// operand of that number, `i` and `j` for the immediate, and every other
    /// character for itself.
    pub open spec fn format(self) -> Seq<char> {
        match self {
            Opcode::NOP => ""@,
            Opcode::ADD => "r1, r2, r3"@,
            Opcode::LDW => "r2, i(r1)"@,
            Opcode::STW => "r2, i(r1)"@,
            Opcode::SUB => "r1, r2, r3"@,
            Opcode::MUL => "r1, r2, r3"@,
            Opcode::DIV => "r1, r2, r3"@,
            Opcode::AND => "r1, r2, r3"@,
            Opcode::OR => "r1, r2, r3"@,
            Opcode::XOR => "r1, r2, r3"@,
            Opcode::SUBI => "r1, i, r2"@,
            Opcode::MULI => "r1, i, r2"@,
            Opcode::ADDI => "r1, i, r2"@,
            Opcode::DIVI => "r1, i, r2"@,
            Opcode::ANDI => "r1, i, r2"@,
            Opcode::ORI => "r1, i, r2"@,
            Opcode::XORI => "r1, i, r2"@,
            Opcode::BRZ => "r2, j"@,
            Opcode::BRNZ => "r2, j"@,
            Opcode::BRGT => "r2, j"@,
            Opcode::BRGE => "r2, j"@,
            Opcode::BRLT => "r2, j"@,
            Opcode::BRLE => "r2, j"@,
        }
    }

    /// Whether the opcode is a conditional branch.
    pub open spec fn is_branch(self) -> bool {
        self == Opcode::BRZ || self == Opcode::BRNZ || self == Opcode::BRGT || self == Opcode::BRGE || self == Opcode::BRLT || self == Opcode::BRLE
    }

    /// Whether `rand` may return the opcode: the arithmetic and logic opcodes,
    /// with or without an immediate.
    pub open spec fn is_random_choice(self) -> bool {
        self == Opcode::ADD || self == Opcode::SUB || self == Opcode::MUL || self == Opcode::DIV || self == Opcode::AND || self == Opcode::OR || self == Opcode::XOR || self == Opcode::SUBI || self == Opcode::MULI || self == Opcode::ADDI || self == Opcode::DIVI || self == Opcode::ANDI || self == Opcode::ORI || self == Opcode::XORI
    }

    /// Returns the operand class of the opcode.
    pub fn get_type(&self) -> (t: OpcodeType)
        ensures
            t == self.class(),
    {
        match self {
            Opcode::NOP => OpcodeType::RType,
            Opcode::ADD => OpcodeType::RType,
            Opcode::LDW => OpcodeType::IType,
            Opcode::STW => OpcodeType::IType,
            Opcode::SUB => OpcodeType::RType,
            Opcode::MUL => OpcodeType::RType,
            Opcode::DIV => OpcodeType::RType,
            Opcode::AND => OpcodeType::RType,
            Opcode::OR => OpcodeType::RType,
            Opcode::XOR => OpcodeType::RType,
            Opcode::SUBI => OpcodeType::IType,
            Opcode::MULI => OpcodeType::IType,
            Opcode::ADDI => OpcodeType::IType,
            Opcode::DIVI => OpcodeType::IType,
            Opcode::ANDI => OpcodeType::IType,
            Opcode::ORI => OpcodeType::IType,
            Opcode::XORI => OpcodeType::IType,
            Opcode::BRZ => OpcodeType::IType,
            Opcode::BRNZ => OpcodeType::IType,
            Opcode::BRGT => OpcodeType::IType,
            Opcode::BRGE => OpcodeType::IType,
            Opcode::BRLT => OpcodeType::IType,
            Opcode::BRLE => OpcodeType::IType,
        }
    }

    /// Returns the operand template of the opcode.
    pub fn get_format(&self) -> (f: &'static str)
        ensures
            f@ == self.format(),
    {
        match self {
            Opcode::NOP => "",
            Opcode::ADD => "r1, r2, r3",
            Opcode::LDW => "r2, i(r1)",
            Opcode::STW => "r2, i(r1)",
            Opcode::SUB => "r1, r2, r3",
            Opcode::MUL => "r1, r2, r3",
            Opcode::DIV => "r1, r2, r3",
            Opcode::AND => "r1, r2, r3",
            Opcode::OR => "r1, r2, r3",
            Opcode::XOR => "r1, r2, r3",
            Opcode::SUBI => "r1, i, r2",
            Opcode::MULI => "r1, i, r2",
            Opcode::ADDI => "r1, i, r2",
            Opcode::DIVI => "r1, i, r2",
            Opcode::ANDI => "r1, i, r2",
            Opcode::ORI => "r1, i, r2",
            Opcode::XORI => "r1, i, r2",
            Opcode::BRZ => "r2, j",
            Opcode::BRNZ => "r2, j",
            Opcode::BRGT => "r2, j",
            Opcode::BRGE => "r2, j",
            Opcode::BRLT => "r2, j",
            Opcode::BRLE => "r2, j",
        }
    }

    /// Returns the name of the opcode.
    pub fn get_name(&self) -> (n: &'static str)
        ensures
            n@ == self.name(),
    {
        match self {
            Opcode::NOP => "NOP",
            Opcode::ADD => "ADD",
            Opcode::LDW => "LDW",
            Opcode::STW => "STW",
            Opcode::SUB => "SUB",
            Opcode::MUL => "MUL",
            Opcode::DIV => "DIV",
            Opcode::AND => "AND",
            Opcode::OR => "OR",
            Opcode::XOR => "XOR",
            Opcode::SUBI => "SUBI",
            Opcode::MULI => "MULI",
            Opcode::ADDI => "ADDI",
            Opcode::DIVI => "DIVI",
            Opcode::ANDI => "ANDI",
            Opcode::ORI => "ORI",
            Opcode::XORI => "XORI",
            Opcode::BRZ => "BRZ",
            Opcode::BRNZ => "BRNZ",
            Opcode::BRGT => "BRGT",
            Opcode::BRGE => "BRGE",
            Opcode::BRLT => "BRLT",
            Opcode::BRLE => "BRLE",
        }
    }

    /// The opcode's name as an owned string.
    pub fn to_string(&self) -> (s: String)
        ensures
            s@ == self.name(),
    {
        self.get_name().to_owned()
    }

    /// Tells whether the opcode is a conditional branch.
    pub fn branches(&self) -> (b: bool)
        ensures
            b == self.is_branch(),
    {
        match self {
            Opcode::BRZ | Opcode::BRNZ | Opcode::BRGT | Opcode::BRGE | Opcode::BRLT | Opcode::BRLE => true,
            _ => false,
        }
    }

    /// Tells whether the opcode is `NOP`.
    pub fn is_nop(&self) -> (b: bool)
        ensures
            b == (*self == Opcode::NOP),
    {
        match self {
            Opcode::NOP => true,
            _ => false,
        }
    }

    /// The opcode that the characters `v[from..to]` name.
    pub fn parse_chars(v: &Vec<char>, from: usize, to: usize) -> (r: Option<Opcode>)
        requires
            from <= to <= v.len(),
        ensures
            r == opcode_named(v@.subrange(from as int, to as int)),
    {
        if matches_text(v, from, to, "NOP") {
            Some(Opcode::NOP)
        } else if matches_text(v, from, to, "ADD") {
            Some(Opcode::ADD)
        } else if matches_text(v, from, to, "LDW") {
            Some(Opcode::LDW)
        } else if matches_text(v, from, to, "STW") {
            Some(Opcode::STW)
        } else if matches_text(v, from, to, "SUB") {
            Some(Opcode::SUB)
        } else if matches_text(v, from, to, "MUL") {
            Some(Opcode::MUL)
        } else if matches_text(v, from, to, "DIV") {
            Some(Opcode::DIV)
        } else if matches_text(v, from, to, "AND") {
            Some(Opcode::AND)
        } else if matches_text(v, from, to, "OR") {
            Some(Opcode::OR)
        } else if matches_text(v, from, to, "XOR") {
            Some(Opcode::XOR)
        } else if matches_text(v, from, to, "SUBI") {
            Some(Opcode::SUBI)
        } else if matches_text(v, from, to, "MULI") {
            Some(Opcode::MULI)
        } else if matches_text(v, from, to, "ADDI") {
            Some(Opcode::ADDI)
        } else if matches_text(v, from, to, "DIVI") {
            Some(Opcode::DIVI)
        } else if matches_text(v, from, to, "ANDI") {
            Some(Opcode::ANDI)
        } else if matches_text(v, from, to, "ORI") {
            Some(Opcode::ORI)
        } else if matches_text(v, from, to, "XORI") {
            Some(Opcode::XORI)
        } else if matches_text(v, from, to, "BRZ") {
            Some(Opcode::BRZ)
        } else if matches_text(v, from, to, "BRNZ") {
            Some(Opcode::BRNZ)
        } else if matches_text(v, from, to, "BRGT") {
            Some(Opcode::BRGT)
        } else if matches_text(v, from, to, "BRGE") {
            Some(Opcode::BRGE)
        } else if matches_text(v, from, to, "BRLT") {
            Some(Opcode::BRLT)
        } else if matches_text(v, from, to, "BRLE") {
            Some(Opcode::BRLE)
        } else {
            None
        }
    }

    /// Parses the exact name of an opcode, such as `ADD` or `LDW`.
    pub fn parse(input: &str) -> (r: Option<Opcode>)
        ensures
            r == opcode_named(input@),
    {
        let v = chars_of(input);
        assert(v@.subrange(0, v.len() as int) =~= input@);
        Opcode::parse_chars(&v, 0, v.len())
    }

    /// Parses the opcode of a whole instruction, such as `ADD R1 R2 R3`: the
    /// first word of the text names it.
    pub fn parse_instr(input: &str) -> (r: Option<Opcode>)
        ensures
            r == opcode_named(first_word(input@)),
    {
        let v = chars_of(input);
        let start = find_non_whitespace(&v, 0);
        let end = find_whitespace(&v, start);
        Opcode::parse_chars(&v, start, end)
    }

    /// An opcode drawn at random among those for which `is_random_choice` holds.
    pub fn rand() -> (op: Opcode)
        ensures
            op.is_random_choice(),
    {
        Opcode::random_choice(random_below(RANDOM_CHOICES))
    }

    /// The opcode that stands for a draw among `RANDOM_CHOICES`: the opcodes
    /// without an immediate come first, then those with one.
    pub open spec fn choice_of(draw: int) -> Opcode {
        if draw == 0 {
            Opcode::ADD
        } else if draw == 1 {
            Opcode::SUB
        } else if draw == 2 {
            Opcode::MUL
        } else if draw == 3 {
            Opcode::DIV
        } else if draw == 4 {
            Opcode::AND
        } else if draw == 5 {
            Opcode::OR
        } else if draw == 6 {
            Opcode::XOR
        } else if draw == 7 {
            Opcode::SUBI
        } else if draw == 8 {
            Opcode::MULI
        } else if draw == 9 {
            Opcode::ADDI
        } else if draw == 10 {
            Opcode::DIVI
        } else if draw == 11 {
            Opcode::ANDI
        } else if draw == 12 {
            Opcode::ORI
        } else {
            Opcode::XORI
        }
    }

    /// The opcode that stands for the draw `draw`; a draw that is too high
    /// stands for the last of them.
    pub fn random_choice(draw: usize) -> (op: Opcode)
        ensures
            op == Opcode::choice_of(draw as int),
            op.is_random_choice(),
    {
        match draw {
            0 => Opcode::ADD,
            1 => Opcode::SUB,
            2 => Opcode::MUL,
            3 => Opcode::DIV,
            4 => Opcode::AND,
            5 => Opcode::OR,
            6 => Opcode::XOR,
            7 => Opcode::SUBI,
            8 => Opcode::MULI,
            9 => Opcode::ADDI,
            10 => Opcode::DIVI,
            11 => Opcode::ANDI,
            12 => Opcode::ORI,
            _ => Opcode::XORI,
        }
    }
}

/// The number of opcodes among which `Opcode::rand` draws.
pub const RANDOM_CHOICES: usize = 14;

/// Every opcode that `Opcode::rand` may return stands for a draw below
/// `RANDOM_CHOICES`, and for one alone.
pub proof fn lemma_every_choice_has_its_draw(op: Opcode)
    requires
        op.is_random_choice(),
    ensures
        exists|draw: int| 0 <= draw < RANDOM_CHOICES && #[trigger] Opcode::choice_of(draw) == op,
        forall|a: int, b: int|
            0 <= a < RANDOM_CHOICES && 0 <= b < RANDOM_CHOICES && Opcode::choice_of(a)
                == Opcode::choice_of(b) ==> a == b,
{
    assert(Opcode::choice_of(0) == Opcode::ADD);
    assert(Opcode::choice_of(1) == Opcode::SUB);
    assert(Opcode::choice_of(2) == Opcode::MUL);
    assert(Opcode::choice_of(3) == Opcode::DIV);
    assert(Opcode::choice_of(4) == Opcode::AND);
    assert(Opcode::choice_of(5) == Opcode::OR);
    assert(Opcode::choice_of(6) == Opcode::XOR);
    assert(Opcode::choice_of(7) == Opcode::SUBI);
    assert(Opcode::choice_of(8) == Opcode::MULI);
    assert(Opcode::choice_of(9) == Opcode::ADDI);
    assert(Opcode::choice_of(10) == Opcode::DIVI);
    assert(Opcode::choice_of(11) == Opcode::ANDI);
    assert(Opcode::choice_of(12) == Opcode::ORI);
    assert(Opcode::choice_of(13) == Opcode::XORI);
}

/// No two opcodes share a name: the name of an opcode parses to that opcode.
pub proof fn lemma_name_parses_back(op: Opcode)
    ensures
        opcode_named(op.name()) == Some(op),
{
    reveal_strlit("NOP");
    reveal_strlit("ADD");
    reveal_strlit("LDW");
    reveal_strlit("STW");
    reveal_strlit("SUB");
    reveal_strlit("MUL");
    reveal_strlit("DIV");
    reveal_strlit("AND");
    reveal_strlit("OR");
    reveal_strlit("XOR");
    reveal_strlit("SUBI");
    reveal_strlit("MULI");
    reveal_strlit("ADDI");
    reveal_strlit("DIVI");
    reveal_strlit("ANDI");
    reveal_strlit("ORI");
    reveal_strlit("XORI");
    reveal_strlit("BRZ");
    reveal_strlit("BRNZ");
    reveal_strlit("BRGT");
    reveal_strlit("BRGE");
    reveal_strlit("BRLT");
    reveal_strlit("BRLE");
    match op {
        Opcode::NOP => {

        },
        Opcode::ADD => {
            assert("NOP"@[0] != "ADD"@[0]);
        },
        Opcode::LDW => {
            assert("NOP"@[0] != "LDW"@[0]);
            assert("ADD"@[0] != "LDW"@[0]);
        },
        Opcode::STW => {
            assert("NOP"@[0] != "STW"@[0]);
            assert("ADD"@[0] != "STW"@[0]);
            assert("LDW"@[0] != "STW"@[0]);
        },
        Opcode::SUB => {
            assert("NOP"@[0] != "SUB"@[0]);
            assert("ADD"@[0] != "SUB"@[0]);
            assert("LDW"@[0] != "SUB"@[0]);
            assert("STW"@[1] != "SUB"@[1]);
        },
        Opcode::MUL => {
            assert("NOP"@[0] != "MUL"@[0]);
            assert("ADD"@[0] != "MUL"@[0]);
            assert("LDW"@[0] != "MUL"@[0]);
            assert("STW"@[0] != "MUL"@[0]);
            assert("SUB"@[0] != "MUL"@[0]);
        },
        Opcode::DIV => {
            assert("NOP"@[0] != "DIV"@[0]);
            assert("ADD"@[0] != "DIV"@[0]);
            assert("LDW"@[0] != "DIV"@[0]);
            assert("STW"@[0] != "DIV"@[0]);
            assert("SUB"@[0] != "DIV"@[0]);
            assert("MUL"@[0] != "DIV"@[0]);
        },
        Opcode::AND => {
            assert("NOP"@[0] != "AND"@[0]);
            assert("ADD"@[1] != "AND"@[1]);
            assert("LDW"@[0] != "AND"@[0]);
            assert("STW"@[0] != "AND"@[0]);
            assert("SUB"@[0] != "AND"@[0]);
            assert("MUL"@[0] != "AND"@[0]);
            assert("DIV"@[0] != "AND"@[0]);
        },
        Opcode::OR => {
            assert("NOP"@.len() != "OR"@.len());
            assert("ADD"@.len() != "OR"@.len());
            assert("LDW"@.len() != "OR"@.len());
            assert("STW"@.len() != "OR"@.len());
            assert("SUB"@.len() != "OR"@.len());
            assert("MUL"@.len() != "OR"@.len());
            assert("DIV"@.len() != "OR"@.len());
            assert("AND"@.len() != "OR"@.len());
        },
        Opcode::XOR => {
            assert("NOP"@[0] != "XOR"@[0]);
            assert("ADD"@[0] != "XOR"@[0]);
            assert("LDW"@[0] != "XOR"@[0]);
            assert("STW"@[0] != "XOR"@[0]);
            assert("SUB"@[0] != "XOR"@[0]);
            assert("MUL"@[0] != "XOR"@[0]);
            assert("DIV"@[0] != "XOR"@[0]);
            assert("AND"@[0] != "XOR"@[0]);
            assert("OR"@.len() != "XOR"@.len());
        },
        Opcode::SUBI => {
            assert("NOP"@.len() != "SUBI"@.len());
            assert("ADD"@.len() != "SUBI"@.len());
            assert("LDW"@.len() != "SUBI"@.len());
            assert("STW"@.len() != "SUBI"@.len());
            assert("SUB"@.len() != "SUBI"@.len());
            assert("MUL"@.len() != "SUBI"@.len());
            assert("DIV"@.len() != "SUBI"@.len());
            assert("AND"@.len() != "SUBI"@.len());
            assert("OR"@.len() != "SUBI"@.len());
            assert("XOR"@.len() != "SUBI"@.len());
        },
        Opcode::MULI => {
            assert("NOP"@.len() != "MULI"@.len());
            assert("ADD"@.len() != "MULI"@.len());
            assert("LDW"@.len() != "MULI"@.len());
            assert("STW"@.len() != "MULI"@.len());
            assert("SUB"@.len() != "MULI"@.len());
            assert("MUL"@.len() != "MULI"@.len());
            assert("DIV"@.len() != "MULI"@.len());
            assert("AND"@.len() != "MULI"@.len());
            assert("OR"@.len() != "MULI"@.len());
            assert("XOR"@.len() != "MULI"@.len());
            assert("SUBI"@[0] != "MULI"@[0]);
        },
        Opcode::ADDI => {
            assert("NOP"@.len() != "ADDI"@.len());
            assert("ADD"@.len() != "ADDI"@.len());
            assert("LDW"@.len() != "ADDI"@.len());
            assert("STW"@.len() != "ADDI"@.len());
            assert("SUB"@.len() != "ADDI"@.len());
            assert("MUL"@.len() != "ADDI"@.len());
            assert("DIV"@.len() != "ADDI"@.len());
            assert("AND"@.len() != "ADDI"@.len());
            assert("OR"@.len() != "ADDI"@.len());
            assert("XOR"@.len() != "ADDI"@.len());
            assert("SUBI"@[0] != "ADDI"@[0]);
            assert("MULI"@[0] != "ADDI"@[0]);
        },
        Opcode::DIVI => {
            assert("NOP"@.len() != "DIVI"@.len());
            assert("ADD"@.len() != "DIVI"@.len());
            assert("LDW"@.len() != "DIVI"@.len());
            assert("STW"@.len() != "DIVI"@.len());
            assert("SUB"@.len() != "DIVI"@.len());
            assert("MUL"@.len() != "DIVI"@.len());
            assert("DIV"@.len() != "DIVI"@.len());
            assert("AND"@.len() != "DIVI"@.len());
            assert("OR"@.len() != "DIVI"@.len());
            assert("XOR"@.len() != "DIVI"@.len());
            assert("SUBI"@[0] != "DIVI"@[0]);
            assert("MULI"@[0] != "DIVI"@[0]);
            assert("ADDI"@[0] != "DIVI"@[0]);
        },
        Opcode::ANDI => {
            assert("NOP"@.len() != "ANDI"@.len());
            assert("ADD"@.len() != "ANDI"@.len());
            assert("LDW"@.len() != "ANDI"@.len());
            assert("STW"@.len() != "ANDI"@.len());
            assert("SUB"@.len() != "ANDI"@.len());
            assert("MUL"@.len() != "ANDI"@.len());
            assert("DIV"@.len() != "ANDI"@.len());
            assert("AND"@.len() != "ANDI"@.len());
            assert("OR"@.len() != "ANDI"@.len());
            assert("XOR"@.len() != "ANDI"@.len());
            assert("SUBI"@[0] != "ANDI"@[0]);
            assert("MULI"@[0] != "ANDI"@[0]);
            assert("ADDI"@[1] != "ANDI"@[1]);
            assert("DIVI"@[0] != "ANDI"@[0]);
        },
        Opcode::ORI => {
            assert("NOP"@[0] != "ORI"@[0]);
            assert("ADD"@[0] != "ORI"@[0]);
            assert("LDW"@[0] != "ORI"@[0]);
            assert("STW"@[0] != "ORI"@[0]);
            assert("SUB"@[0] != "ORI"@[0]);
            assert("MUL"@[0] != "ORI"@[0]);
            assert("DIV"@[0] != "ORI"@[0]);
            assert("AND"@[0] != "ORI"@[0]);
            assert("OR"@.len() != "ORI"@.len());
            assert("XOR"@[0] != "ORI"@[0]);
            assert("SUBI"@.len() != "ORI"@.len());
            assert("MULI"@.len() != "ORI"@.len());
            assert("ADDI"@.len() != "ORI"@.len());
            assert("DIVI"@.len() != "ORI"@.len());
            assert("ANDI"@.len() != "ORI"@.len());
        },
        Opcode::XORI => {
            assert("NOP"@.len() != "XORI"@.len());
            assert("ADD"@.len() != "XORI"@.len());
            assert("LDW"@.len() != "XORI"@.len());
            assert("STW"@.len() != "XORI"@.len());
            assert("SUB"@.len() != "XORI"@.len());
            assert("MUL"@.len() != "XORI"@.len());
            assert("DIV"@.len() != "XORI"@.len());
            assert("AND"@.len() != "XORI"@.len());
            assert("OR"@.len() != "XORI"@.len());
            assert("XOR"@.len() != "XORI"@.len());
            assert("SUBI"@[0] != "XORI"@[0]);
            assert("MULI"@[0] != "XORI"@[0]);
            assert("ADDI"@[0] != "XORI"@[0]);
            assert("DIVI"@[0] != "XORI"@[0]);
            assert("ANDI"@[0] != "XORI"@[0]);
            assert("ORI"@.len() != "XORI"@.len());
        },
        Opcode::BRZ => {
            assert("NOP"@[0] != "BRZ"@[0]);
            assert("ADD"@[0] != "BRZ"@[0]);
            assert("LDW"@[0] != "BRZ"@[0]);
            assert("STW"@[0] != "BRZ"@[0]);
            assert("SUB"@[0] != "BRZ"@[0]);
            assert("MUL"@[0] != "BRZ"@[0]);
            assert("DIV"@[0] != "BRZ"@[0]);
            assert("AND"@[0] != "BRZ"@[0]);
            assert("OR"@.len() != "BRZ"@.len());
            assert("XOR"@[0] != "BRZ"@[0]);
            assert("SUBI"@.len() != "BRZ"@.len());
            assert("MULI"@.len() != "BRZ"@.len());
            assert("ADDI"@.len() != "BRZ"@.len());
            assert("DIVI"@.len() != "BRZ"@.len());
            assert("ANDI"@.len() != "BRZ"@.len());
            assert("ORI"@[0] != "BRZ"@[0]);
            assert("XORI"@.len() != "BRZ"@.len());
        },
        Opcode::BRNZ => {
            assert("NOP"@.len() != "BRNZ"@.len());
            assert("ADD"@.len() != "BRNZ"@.len());
            assert("LDW"@.len() != "BRNZ"@.len());
            assert("STW"@.len() != "BRNZ"@.len());
            assert("SUB"@.len() != "BRNZ"@.len());
            assert("MUL"@.len() != "BRNZ"@.len());
            assert("DIV"@.len() != "BRNZ"@.len());
            assert("AND"@.len() != "BRNZ"@.len());
            assert("OR"@.len() != "BRNZ"@.len());
            assert("XOR"@.len() != "BRNZ"@.len());
            assert("SUBI"@[0] != "BRNZ"@[0]);
            assert("MULI"@[0] != "BRNZ"@[0]);
            assert("ADDI"@[0] != "BRNZ"@[0]);
            assert("DIVI"@[0] != "BRNZ"@[0]);
            assert("ANDI"@[0] != "BRNZ"@[0]);
            assert("ORI"@.len() != "BRNZ"@.len());
            assert("XORI"@[0] != "BRNZ"@[0]);
            assert("BRZ"@.len() != "BRNZ"@.len());
        },
        Opcode::BRGT => {
            assert("NOP"@.len() != "BRGT"@.len());
            assert("ADD"@.len() != "BRGT"@.len());
            assert("LDW"@.len() != "BRGT"@.len());
            assert("STW"@.len() != "BRGT"@.len());
            assert("SUB"@.len() != "BRGT"@.len());
            assert("MUL"@.len() != "BRGT"@.len());
            assert("DIV"@.len() != "BRGT"@.len());
            assert("AND"@.len() != "BRGT"@.len());
            assert("OR"@.len() != "BRGT"@.len());
            assert("XOR"@.len() != "BRGT"@.len());
            assert("SUBI"@[0] != "BRGT"@[0]);
            assert("MULI"@[0] != "BRGT"@[0]);
            assert("ADDI"@[0] != "BRGT"@[0]);
            assert("DIVI"@[0] != "BRGT"@[0]);
            assert("ANDI"@[0] != "BRGT"@[0]);
            assert("ORI"@.len() != "BRGT"@.len());
            assert("XORI"@[0] != "BRGT"@[0]);
            assert("BRZ"@.len() != "BRGT"@.len());
            assert("BRNZ"@[2] != "BRGT"@[2]);
        },
        Opcode::BRGE => {
            assert("NOP"@.len() != "BRGE"@.len());
            assert("ADD"@.len() != "BRGE"@.len());
            assert("LDW"@.len() != "BRGE"@.len());
            assert("STW"@.len() != "BRGE"@.len());
            assert("SUB"@.len() != "BRGE"@.len());
            assert("MUL"@.len() != "BRGE"@.len());
            assert("DIV"@.len() != "BRGE"@.len());
            assert("AND"@.len() != "BRGE"@.len());
            assert("OR"@.len() != "BRGE"@.len());
            assert("XOR"@.len() != "BRGE"@.len());
            assert("SUBI"@[0] != "BRGE"@[0]);
            assert("MULI"@[0] != "BRGE"@[0]);
            assert("ADDI"@[0] != "BRGE"@[0]);
            assert("DIVI"@[0] != "BRGE"@[0]);
            assert("ANDI"@[0] != "BRGE"@[0]);
            assert("ORI"@.len() != "BRGE"@.len());
            assert("XORI"@[0] != "BRGE"@[0]);
            assert("BRZ"@.len() != "BRGE"@.len());
            assert("BRNZ"@[2] != "BRGE"@[2]);
            assert("BRGT"@[3] != "BRGE"@[3]);
        },
        Opcode::BRLT => {
            assert("NOP"@.len() != "BRLT"@.len());
            assert("ADD"@.len() != "BRLT"@.len());
            assert("LDW"@.len() != "BRLT"@.len());
            assert("STW"@.len() != "BRLT"@.len());
            assert("SUB"@.len() != "BRLT"@.len());
            assert("MUL"@.len() != "BRLT"@.len());
            assert("DIV"@.len() != "BRLT"@.len());
            assert("AND"@.len() != "BRLT"@.len());
            assert("OR"@.len() != "BRLT"@.len());
            assert("XOR"@.len() != "BRLT"@.len());
            assert("SUBI"@[0] != "BRLT"@[0]);
            assert("MULI"@[0] != "BRLT"@[0]);
            assert("ADDI"@[0] != "BRLT"@[0]);
            assert("DIVI"@[0] != "BRLT"@[0]);
            assert("ANDI"@[0] != "BRLT"@[0]);
            assert("ORI"@.len() != "BRLT"@.len());
            assert("XORI"@[0] != "BRLT"@[0]);
            assert("BRZ"@.len() != "BRLT"@.len());
            assert("BRNZ"@[2] != "BRLT"@[2]);
            assert("BRGT"@[2] != "BRLT"@[2]);
            assert("BRGE"@[2] != "BRLT"@[2]);
        },
        Opcode::BRLE => {
            assert("NOP"@.len() != "BRLE"@.len());
            assert("ADD"@.len() != "BRLE"@.len());
            assert("LDW"@.len() != "BRLE"@.len());
            assert("STW"@.len() != "BRLE"@.len());
            assert("SUB"@.len() != "BRLE"@.len());
            assert("MUL"@.len() != "BRLE"@.len());
            assert("DIV"@.len() != "BRLE"@.len());
            assert("AND"@.len() != "BRLE"@.len());
            assert("OR"@.len() != "BRLE"@.len());
            assert("XOR"@.len() != "BRLE"@.len());
            assert("SUBI"@[0] != "BRLE"@[0]);
            assert("MULI"@[0] != "BRLE"@[0]);
            assert("ADDI"@[0] != "BRLE"@[0]);
            assert("DIVI"@[0] != "BRLE"@[0]);
            assert("ANDI"@[0] != "BRLE"@[0]);
            assert("ORI"@.len() != "BRLE"@.len());
            assert("XORI"@[0] != "BRLE"@[0]);
            assert("BRZ"@.len() != "BRLE"@.len());
            assert("BRNZ"@[2] != "BRLE"@[2]);
            assert("BRGT"@[2] != "BRLE"@[2]);
            assert("BRGE"@[2] != "BRLE"@[2]);
            assert("BRLT"@[3] != "BRLE"@[3]);
        },
    }
}

} // verus!
