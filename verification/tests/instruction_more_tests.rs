use gen_alg::individual::dlx::instruction::{Instruction, ParseError};
use gen_alg::individual::dlx::opcode::Opcode;
use gen_alg::individual::dlx::register::Register;

#[test]
fn too_many_operands_are_counted() {
    assert_eq!(
        Instruction::parse_instr("ADD R1, R2, R3, R4").err(),
        Some(ParseError::OperandCount { expected: 3, actual: 4 })
    );
    assert_eq!(
        Instruction::parse_instr("NOP R1, R2, R3, R4").err(),
        Some(ParseError::OperandCount { expected: 0, actual: 4 })
    );
}

#[test]
fn too_few_operands_are_counted() {
    assert_eq!(
        Instruction::parse_instr("ADD R1, R2").err(),
        Some(ParseError::OperandCount { expected: 3, actual: 2 })
    );
    assert_eq!(
        Instruction::parse_instr("ADD").err(),
        Some(ParseError::OperandCount { expected: 3, actual: 0 })
    );
    assert_eq!(
        Instruction::parse_instr("LDW R1").err(),
        Some(ParseError::OperandCount { expected: 3, actual: 1 })
    );
}

#[test]
fn a_text_without_a_known_opcode_is_no_instruction() {
    assert_eq!(Instruction::new("").err(), Some(ParseError::MissingOpcode));
    assert_eq!(Instruction::new("  \t ").err(), Some(ParseError::MissingOpcode));
    assert_eq!(Instruction::new("add R1, R2, R3").err(), Some(ParseError::UnknownOpcode));
    assert_eq!(Instruction::new("ADDX R1, R2, R3").err(), Some(ParseError::UnknownOpcode));
    assert_eq!(Instruction::new("R1 ADD").err(), Some(ParseError::UnknownOpcode));
}

#[test]
fn operands_of_the_wrong_kind_are_reported() {
    assert_eq!(
        Instruction::new("ADD R1, 5, R3").err(),
        Some(ParseError::InvalidRegister { operand: 1 })
    );
    assert_eq!(
        Instruction::new("ADD R1, R2, R32").err(),
        Some(ParseError::InvalidRegister { operand: 2 })
    );
    assert_eq!(
        Instruction::new("ADD 0x5, R2, R3").err(),
        Some(ParseError::InvalidRegister { operand: 0 })
    );
    assert_eq!(
        Instruction::new("LDW R8, R6(R6)").err(),
        Some(ParseError::InvalidImmediate { operand: 1 })
    );
    assert_eq!(
        Instruction::new("ADDI R1, 0x80000000, R2").err(),
        Some(ParseError::InvalidImmediate { operand: 1 })
    );
    // the first wrong operand is reported, before the count
    assert_eq!(
        Instruction::new("ADD 1, 2").err(),
        Some(ParseError::InvalidRegister { operand: 0 })
    );
}

#[test]
fn operands_are_found_whatever_stands_between_them() {
    let a = Instruction::new("  ADD R4;R3 -- R2  ").unwrap();
    assert_eq!(a.to_string(), "ADD R4, R3, R2");
    assert_eq!(*a.get_opcode(), Opcode::ADD);
    assert_eq!(a.get_registers(), &vec![Register::R4, Register::R3, Register::R2]);
    let l = Instruction::new("LDW R8, 0x00000200(R1)").unwrap();
    assert_eq!(l.to_string(), "LDW R8, 0x0200(R1)");
    assert_eq!(l.get_registers(), &vec![Register::R1, Register::R8]);
    assert_eq!(l.get_immidiate(), 0x200);
    // digits alone are read in base 16, and a label's digit is taken for one
    let b = Instruction::new("BRLE R14, h1").unwrap();
    assert_eq!(b.to_string(), "BRLE R14, 0x0001");
    assert_eq!(b.get_registers(), &vec![Register::R0, Register::R14]);
    let i = Instruction::new("ADDI R0, 10, R12").unwrap();
    assert_eq!(i.get_immidiate(), 16);
    assert_eq!(i.to_string(), "ADDI R0, 0x0010, R12");
    // the operands start after the first space
    assert_eq!(
        Instruction::new("ADD\tR1, R2, R3").err(),
        Some(ParseError::OperandCount { expected: 3, actual: 2 })
    );
    let big = Instruction::new("ADDI R0, 0x7FFFFFFF, R12").unwrap();
    assert_eq!(big.get_immidiate(), i32::MAX);
    assert_eq!(big.to_string(), "ADDI R0, 0x7FFFFFFF, R12");
}

#[test]
fn from_operands_decodes_along_the_template() {
    let operands = vec!["R8".to_string(), "0x0x20".to_string(), "R6".to_string()];
    let l = Instruction::from_operands(Opcode::STW, &operands).unwrap();
    assert_eq!(l.to_string(), "STW R8, 0x0020(R6)");
    let signed = vec!["R+8".to_string(), "-1F".to_string(), "R007".to_string()];
    let s = Instruction::from_operands(Opcode::SUBI, &signed).unwrap();
    assert_eq!(s.get_registers(), &vec![Register::R8, Register::R7]);
    assert_eq!(s.get_immidiate(), -31);
    assert_eq!(s.to_string(), "SUBI R8, 0xFFFFFFE1, R7");
    assert_eq!(
        Instruction::from_operands(Opcode::NOP, &vec![]).unwrap().to_string(),
        "NOP"
    );
    assert_eq!(
        Instruction::from_operands(Opcode::BRZ, &vec!["R1".to_string(), "".to_string()]).err(),
        Some(ParseError::InvalidImmediate { operand: 1 })
    );
    assert_eq!(
        Instruction::from_operands(Opcode::BRZ, &vec!["R1".to_string(), "0x".to_string()]).err(),
        Some(ParseError::InvalidImmediate { operand: 1 })
    );
    assert_eq!(
        Instruction::from_operands(Opcode::BRZ, &vec!["R".to_string(), "1".to_string()]).err(),
        Some(ParseError::InvalidRegister { operand: 0 })
    );
}

#[test]
fn from_parts_asks_for_enough_registers() {
    assert!(Instruction::from_parts(Opcode::ADD, vec![Register::R1, Register::R2], 0).is_none());
    assert!(Instruction::from_parts(Opcode::LDW, vec![Register::R1], 0).is_none());
    assert!(Instruction::from_parts(Opcode::BRZ, vec![Register::R1], 0).is_none());
    assert!(Instruction::from_parts(Opcode::NOP, vec![], 5).is_some());
    let i =
        Instruction::from_parts(Opcode::SUBI, vec![Register::R9, Register::R10, Register::R11], -4)
            .unwrap();
    assert_eq!(i.to_string(), "SUBI R9, 0xFFFFFFFC, R10");
    assert_eq!(i.clone().to_string(), i.to_string());
}

#[test]
fn setters_change_one_part() {
    let mut i = Instruction::new("ADDI R1, 0x10, R2").unwrap();
    i.set_immidiate(255);
    assert_eq!(i.to_string(), "ADDI R1, 0x00FF, R2");
    i.set_register(Some(1), Register::R31);
    assert_eq!(i.to_string(), "ADDI R1, 0x00FF, R31");
    i.set_register(Some(2), Register::R5);
    assert_eq!(i.to_string(), "ADDI R1, 0x00FF, R31");
    i.set_register(None, Register::R7);
    let text = i.to_string();
    assert!(text == "ADDI R7, 0x00FF, R31" || text == "ADDI R1, 0x00FF, R7");
    let mut nop = Instruction::default();
    nop.set_register(None, Register::R7);
    assert_eq!(nop.get_registers().len(), 0);
    assert_eq!(nop.to_string(), "NOP");
}

#[test]
fn random_instructions_have_the_promised_shape() {
    let mut immediates = std::collections::BTreeSet::new();
    let mut opcodes = Vec::new();
    for _ in 0..200 {
        let i = Instruction::get_rand();
        immediates.insert(i.get_immidiate());
        if !opcodes.contains(i.get_opcode()) {
            opcodes.push(*i.get_opcode());
        }
        assert!(Opcode::parse(&i.get_opcode().to_string()) == Some(*i.get_opcode()));
        assert!(!i.get_opcode().branches());
        assert!(!i.get_opcode().is_nop());
        assert_eq!(i.get_registers().len(), 3);
        for r in i.get_registers() {
            assert!(r.index() <= 10);
        }
        assert_eq!(i.get_immidiate() % 4, 0);
        assert!(-800 <= i.get_immidiate() && i.get_immidiate() < 800);
        let again = Instruction::new(&i.to_string());
        assert!(again.is_ok() || i.get_immidiate() < 0);
    }
    assert!(immediates.len() > 1);
    assert!(opcodes.len() > 1);
}

#[test]
fn registers_read_and_write() {
    assert_eq!(Register::parse_reg("R0"), Some(Register::R0));
    assert_eq!(Register::parse_reg("R31"), Some(Register::R31));
    assert_eq!(Register::parse_reg("R17"), Some(Register::R17));
    assert_eq!(Register::parse_reg("R+5"), Some(Register::R5));
    assert_eq!(Register::parse_reg("R-0"), Some(Register::R0));
    assert_eq!(Register::parse_reg("R0009"), Some(Register::R9));
    assert_eq!(Register::parse_reg("R32"), None);
    assert_eq!(Register::parse_reg("R-1"), None);
    assert_eq!(Register::parse_reg("R"), None);
    assert_eq!(Register::parse_reg("R+"), None);
    assert_eq!(Register::parse_reg("r1"), None);
    assert_eq!(Register::parse_reg("1"), None);
    assert_eq!(Register::parse_reg(""), None);
    assert_eq!(Register::parse_reg("R1 "), None);
    assert_eq!(Register::parse_reg("R99999999999999999999"), None);
    for n in 0..32 {
        let r = Register::from_index(n).unwrap();
        assert_eq!(r.index() as usize, n);
        assert_eq!(r.to_string(), format!("R{}", n));
        assert_eq!(Register::parse_reg(&r.to_string()), Some(r));
    }
    assert_eq!(Register::from_index(32), None);
    assert_eq!(Register::rand_up_to(32), None);
    for _ in 0..100 {
        assert!(Register::rand_up_to(3).unwrap().index() <= 3);
    }
    assert_eq!(Register::rand_up_to(0), Some(Register::R0));
}

#[test]
fn opcodes_read_and_write() {
    assert_eq!(Opcode::parse("XORI"), Some(Opcode::XORI));
    assert_eq!(Opcode::parse("XORI "), None);
    assert_eq!(Opcode::parse("SUB"), Some(Opcode::SUB));
    assert_eq!(Opcode::parse("nop"), None);
    assert_eq!(Opcode::parse_instr("  \n SUBI\tR1"), Some(Opcode::SUBI));
    assert_eq!(Opcode::parse_instr("   "), None);
    assert_eq!(Opcode::STW.get_format(), "r2, i(r1)");
    assert_eq!(Opcode::ADDI.get_format(), "r1, i, r2");
    assert_eq!(Opcode::BRLE.get_name(), "BRLE");
    assert!(Opcode::BRGT.branches());
    assert!(!Opcode::LDW.branches());
    for _ in 0..100 {
        let op = Opcode::rand();
        assert!(!op.branches() && !op.is_nop());
        assert!(op != Opcode::LDW && op != Opcode::STW);
    }
}
