//! The registers of the machine, `R0` to `R31`.

use crate::random::random_below;
use crate::text::{
    chars_of, decimal_text, lemma_decimal_text_denotes, parse_bounded_decimal, push_decimal,
    signed_decimal,
};
use vstd::prelude::*;

verus! {

/// The number of registers.
pub const REGISTER_COUNT: usize = 32;

/// One of the general-purpose registers.
#[derive(Debug, Clone, Copy, PartialEq, Eq, Structural)]
pub enum Register {
    R0,
    R1,
    R2,
    R3,
    R4,
    R5,
    R6,
    R7,
    R8,
    R9,
    R10,
    R11,
    R12,
    R13,
    R14,
    R15,
    R16,
    R17,
    R18,
    R19,
    R20,
    R21,
    R22,
    R23,
    R24,
    R25,
    R26,
    R27,
    R28,
    R29,
    R30,
    R31,
}

/// The register with the number `n`, for `n` below `REGISTER_COUNT`.
pub open spec fn register_at(n: int) -> Register
    recommends
        0 <= n < 32,
{
    choose|r: Register| r.number() == n
}

/// What `text` denotes as a register: the letter `R` and then a decimal integer
/// between 0 and 31, which may carry a sign and leading zeros.
pub open spec fn parsed_register(text: Seq<char>) -> Option<Register> {
    if text.len() > 0 && text[0] == 'R' {
        match signed_decimal(text.skip(1)) {
            Some(n) => if 0 <= n < 32 {
                Some(register_at(n))
            } else {
                None
            },
            None => None,
        }
    } else {
        None
    }
}

/// How a register is written: the letter `R` and its number in decimal.
pub open spec fn register_text(r: Register) -> Seq<char> {
    seq!['R'] + decimal_text(r.number() as nat)
}

impl Register {
    /// The register's number.
    pub open spec fn number(self) -> int {
        match self {
            Register::R0 => 0,
            Register::R1 => 1,
            Register::R2 => 2,
            Register::R3 => 3,
            Register::R4 => 4,
            Register::R5 => 5,
            Register::R6 => 6,
            Register::R7 => 7,
            Register::R8 => 8,
            Register::R9 => 9,
            Register::R10 => 10,
            Register::R11 => 11,
            Register::R12 => 12,
            Register::R13 => 13,
            Register::R14 => 14,
            Register::R15 => 15,
            Register::R16 => 16,
            Register::R17 => 17,
            Register::R18 => 18,
            Register::R19 => 19,
            Register::R20 => 20,
            Register::R21 => 21,
            Register::R22 => 22,
            Register::R23 => 23,
            Register::R24 => 24,
            Register::R25 => 25,
            Register::R26 => 26,
            Register::R27 => 27,
            Register::R28 => 28,
            Register::R29 => 29,
            Register::R30 => 30,
            Register::R31 => 31,
        }
    }

    /// The register's number.
    pub fn index(&self) -> (n: u8)
        ensures
            n == self.number(),
            n < 32,
    {
        match self {
            Register::R0 => 0,
            Register::R1 => 1,
            Register::R2 => 2,
            Register::R3 => 3,
            Register::R4 => 4,
            Register::R5 => 5,
            Register::R6 => 6,
            Register::R7 => 7,
            Register::R8 => 8,
            Register::R9 => 9,
            Register::R10 => 10,
            Register::R11 => 11,
            Register::R12 => 12,
            Register::R13 => 13,
            Register::R14 => 14,
            Register::R15 => 15,
            Register::R16 => 16,
            Register::R17 => 17,
            Register::R18 => 18,
            Register::R19 => 19,
            Register::R20 => 20,
            Register::R21 => 21,
            Register::R22 => 22,
            Register::R23 => 23,
            Register::R24 => 24,
            Register::R25 => 25,
            Register::R26 => 26,
            Register::R27 => 27,
            Register::R28 => 28,
            Register::R29 => 29,
            Register::R30 => 30,
            Register::R31 => 31,
        }
    }

    /// The register with the number `n`, if there is one.
    pub fn from_index(n: usize) -> (r: Option<Register>)
        ensures
            n < 32 ==> r == Some(register_at(n as int)) && register_at(n as int).number() == n,
            n >= 32 ==> r is None,
    {
        let r = match n {
            0 => Some(Register::R0),
            1 => Some(Register::R1),
            2 => Some(Register::R2),
            3 => Some(Register::R3),
            4 => Some(Register::R4),
            5 => Some(Register::R5),
            6 => Some(Register::R6),
            7 => Some(Register::R7),
            8 => Some(Register::R8),
            9 => Some(Register::R9),
            10 => Some(Register::R10),
            11 => Some(Register::R11),
            12 => Some(Register::R12),
            13 => Some(Register::R13),
            14 => Some(Register::R14),
            15 => Some(Register::R15),
            16 => Some(Register::R16),
            17 => Some(Register::R17),
            18 => Some(Register::R18),
            19 => Some(Register::R19),
            20 => Some(Register::R20),
            21 => Some(Register::R21),
            22 => Some(Register::R22),
            23 => Some(Register::R23),
            24 => Some(Register::R24),
            25 => Some(Register::R25),
            26 => Some(Register::R26),
            27 => Some(Register::R27),
            28 => Some(Register::R28),
            29 => Some(Register::R29),
            30 => Some(Register::R30),
            31 => Some(Register::R31),
            _ => None,
        };
        proof {
            if n < 32 {
                assert(r is Some && r->0.number() == n);
                lemma_number_is_injective(r->0, register_at(n as int));
            }
        }
        r
    }

    /// Parses a register written as `R0`, `R1`, ..., `R31`.
    pub fn parse_reg(input: &str) -> (r: Option<Register>)
        ensures
            r == parsed_register(input@),
    {
        let chars = chars_of(input);
        if chars.len() == 0 || chars[0] != 'R' {
            return None;
        }
        match parse_bounded_decimal(&chars, 1, 31) {
            Some(n) => Register::from_index(n as usize),
            None => None,
        }
    }

    /// The register's text, as `parse_reg` reads it.
    pub fn to_string(&self) -> (s: String)
        ensures
            s@ == register_text(*self),
    {
        let mut s = String::new();
        s.push('R');
        push_decimal(&mut s, self.index() as u32);
        assert(s@ =~= register_text(*self));
        s
    }

    /// A register drawn at random among those numbered 0 to `max`, or `None`
    /// where `max` is no register's number.
    pub fn rand_up_to(max: usize) -> (r: Option<Register>)
        ensures
            max < 32 <==> r is Some,
            r matches Some(reg) ==> reg.number() <= max,
    {
        if max >= REGISTER_COUNT {
            return None;
        }
        let n = random_below(max + 1);
        Register::from_index(n)
    }
}

/// Two registers with the same number are the same register.
pub proof fn lemma_number_is_injective(a: Register, b: Register)
    requires
        a.number() == b.number(),
    ensures
        a == b,
{
}

/// A register's text parses to the register.
pub proof fn lemma_register_text_parses_back(r: Register)
    ensures
        parsed_register(register_text(r)) == Some(r),
{
    let n = r.number() as nat;
    let digits = decimal_text(n);
    let text = register_text(r);
    lemma_decimal_text_denotes(n);
    assert(text.skip(1) =~= digits);
    assert(digits[0] != '+' && digits[0] != '-');
    assert(signed_decimal(digits) == Some(n as int));
    lemma_number_is_injective(r, register_at(n as int));
}

} // verus!
