use gen_alg::individual::dlx::individual::{Individual, DLX_INDIV_MAX_SIZE};

const RAW_INSTRUCTIONS: &str = r#"SUB R4, R4, R4
SUB R1, R1, R1
LDW R7, 0x00000200(R1)
STW R7, 0x00000280(R4)
SUB R3, R3, R3
ADD R4, R0, R5
SUB R2, R2, R2
LDW R8, 0x00000280(R5)
LDW R6, 0x000002C0(R2)
MUL R8, R6, R8
ADD R3, R8, R3
ADDI R5, 0x00000004, R5
ADDI R0, 0x0000003C, R8
SUB R5, R8, R8
BRLE R8, 0x00002134
SUB R5, R5, R5
ADDI R2, 0x00000004, R2
ADDI R0, 0x00000040, R8
SUB R2, R8, R8
BRLT R8, 0x00001234
STW R3, 0x00000300(R1)
SUBI R4, 0x00000004, R4
BRGE R4, 0x00003240
ADDI R0, 0x0000003C, R4
ADDI R1, 0x00000004, R1
ADDI R0, 0x00000080, R8
SUB R1, R8, R8
BRLT R8, 0x00000008"#;

const RAW_INSTRUCTIONS_LEN: usize = 28;

#[test]
fn test_dlx_indiv_generate() {
    let indiv = Individual::generate();
    assert!(indiv.to_string().contains("NOP"));
    assert!(indiv.instructions().len() == DLX_INDIV_MAX_SIZE);
}

#[test]
fn test_dlx_last_index() {
    let indiv = Individual::parse(RAW_INSTRUCTIONS).unwrap();
    assert_eq!(indiv.last_nop_index(), RAW_INSTRUCTIONS_LEN);

    let indiv2 = Individual::generate();
    assert_eq!(indiv2.last_nop_index(), 0);
}

#[test]
fn test_dlx_rand_instruction() {
    let mut indiv = Individual::generate();
    for _ in 0..10 {
        indiv.add_rand_instruction();
    }

    println!("{}", indiv.to_string());

    assert_eq!(indiv.last_nop_index(), 10);
    assert_eq!(indiv.instructions().len(), DLX_INDIV_MAX_SIZE);
}

#[test]
fn test_dlx_change_operands() {
    let indiv = Individual::parse(RAW_INSTRUCTIONS).unwrap();
    let mut indiv_changed = Individual::parse(RAW_INSTRUCTIONS).unwrap();

    for _ in 0..(DLX_INDIV_MAX_SIZE + 10) {
        indiv_changed.change_operands();
    }

    println!("{}", indiv.to_string());
    println!("{}", indiv_changed.to_string());

    assert_eq!(indiv_changed.last_nop_index(), RAW_INSTRUCTIONS_LEN);
    assert_eq!(indiv_changed.instructions().len(), DLX_INDIV_MAX_SIZE);
}

#[test]
fn test_dlx_change_operands_when_none() {
    let indiv = Individual::default();
    let mut indiv_changed = Individual::default();

    for _ in 0..(DLX_INDIV_MAX_SIZE + 10) {
        indiv_changed.change_operands();
    }

    println!("{}", indiv.to_string());
    println!("{}", indiv_changed.to_string());

    assert_eq!(indiv_changed.last_nop_index(), 0);
    assert_eq!(indiv_changed.instructions().len(), DLX_INDIV_MAX_SIZE);
}

#[test]
fn test_dlx_change_instructions() {
    let indiv = Individual::parse(RAW_INSTRUCTIONS).unwrap();
    let mut indiv_changed = Individual::parse(RAW_INSTRUCTIONS).unwrap();

    for _ in 0..(DLX_INDIV_MAX_SIZE + 10) {
        indiv_changed.change_rand_instruction();
    }

    println!("{}", indiv.to_string());
    println!("{}", indiv_changed.to_string());

    assert_eq!(indiv_changed.last_nop_index(), RAW_INSTRUCTIONS_LEN);
    assert_eq!(indiv_changed.instructions().len(), DLX_INDIV_MAX_SIZE);
}

#[test]
fn test_dlx_change_instructions_when_none() {
    let indiv = Individual::default();
    let mut indiv_changed = Individual::default();

    for _ in 0..(DLX_INDIV_MAX_SIZE + 10) {
        indiv_changed.change_rand_instruction();
    }

    println!("{}", indiv.to_string());
    println!("{}", indiv_changed.to_string());

    assert_eq!(indiv_changed.last_nop_index(), 0);
    assert_eq!(indiv_changed.instructions().len(), DLX_INDIV_MAX_SIZE);
}

#[test]
fn test_dlx_rand_instruction_over_limit() {
    let mut indiv = Individual::generate();
    for _ in 0..(DLX_INDIV_MAX_SIZE + 10) {
        indiv.add_rand_instruction();
    }

    println!("{}", indiv.to_string());

    assert_eq!(indiv.last_nop_index(), DLX_INDIV_MAX_SIZE);
    assert_eq!(indiv.instructions().len(), DLX_INDIV_MAX_SIZE);
}

/// `RAW_INSTRUCTIONS` as the library writes it: an immediate takes four
/// hexadecimal digits where it needs no more.
const RENDERED_INSTRUCTIONS: &str = r#"SUB R4, R4, R4
SUB R1, R1, R1
LDW R7, 0x0200(R1)
STW R7, 0x0280(R4)
SUB R3, R3, R3
ADD R4, R0, R5
SUB R2, R2, R2
LDW R8, 0x0280(R5)
LDW R6, 0x02C0(R2)
MUL R8, R6, R8
ADD R3, R8, R3
ADDI R5, 0x0004, R5
ADDI R0, 0x003C, R8
SUB R5, R8, R8
BRLE R8, 0x2134
SUB R5, R5, R5
ADDI R2, 0x0004, R2
ADDI R0, 0x0040, R8
SUB R2, R8, R8
BRLT R8, 0x1234
STW R3, 0x0300(R1)
SUBI R4, 0x0004, R4
BRGE R4, 0x3240
ADDI R0, 0x003C, R4
ADDI R1, 0x0004, R1
ADDI R0, 0x0080, R8
SUB R1, R8, R8
BRLT R8, 0x0008"#;

#[test]
fn test_dlx_indiv_parse() {
    let indiv = Individual::parse(RAW_INSTRUCTIONS).unwrap();

    println!("{}", indiv.to_string());

    assert!(
        indiv.to_string().contains(RENDERED_INSTRUCTIONS),
        "Individual doesn't contain exact instructions it was given."
    );
    assert!(
        indiv.instructions().len() == DLX_INDIV_MAX_SIZE,
        "Individual is not filled with correct amount of instructions."
    );
}

const SOI_ALG_START: &str = "ADDI R0, 0x00000010, R12\nADDI R0, 0x00000020, R11\nAND R1, R0, R1\nMULI R12, 0x00000004, R12\nAND R4, R0, R4\nMULI R11, 0x00000004, R11\nSUBI R12, 0x00000004, R13\nLDW R7, 0x00000200(R1)\nADD R4, R0, R5\nSUBI R13, 0x00000004, R17\nl1: AND R2, R0, R2\nAND R3, R0, R3\nSTW R7, 0x00000280(R4)\nLDW R9, 0x00000280(R5)\nLDW R10, 0x000002C0(R2)\nl2: SUB R5, R17, R14\nADD R3, R9, R3\nADDI R2, 0x00000004, R2\nBRLE R14, h1\nSUB R2, R12, R15\nADDI R5, 0x00000004, R5\nAND R5, R0, R5\nh1: MUL R3, R10, R3\nBRNZ R15, l2\nLDW R9, 0x00000280(R5)\nLDW R10, 0x000002C0(R2)\nSTW R3, 0x00000300(R1)\nSUBI R4, 0x00000004, R4\nADDI R1, 0x00000004, R1\nNOP\nBRGE R4, h2\nSUB R1, R11, R15\nNOP\nADD R13, R0, R4\nh2: NOP\nBRNZ R15, l1\nLDW R7, 0x00000200(R1)\nADD R4, R0, R5";

/// `SOI_ALG_START` as the library writes it: an immediate takes four
/// hexadecimal digits, and the target of a branch is the number found in it.
const SOI_ALG_RENDERED: &str = "ADDI R0, 0x0010, R12\nADDI R0, 0x0020, R11\nAND R1, R0, R1\nMULI R12, 0x0004, R12\nAND R4, R0, R4\nMULI R11, 0x0004, R11\nSUBI R12, 0x0004, R13\nLDW R7, 0x0200(R1)\nADD R4, R0, R5\nSUBI R13, 0x0004, R17\nl1: AND R2, R0, R2\nAND R3, R0, R3\nSTW R7, 0x0280(R4)\nLDW R9, 0x0280(R5)\nLDW R10, 0x02C0(R2)\nl2: SUB R5, R17, R14\nADD R3, R9, R3\nADDI R2, 0x0004, R2\nBRLE R14, 0x0001\nSUB R2, R12, R15\nADDI R5, 0x0004, R5\nAND R5, R0, R5\nh1: MUL R3, R10, R3\nBRNZ R15, 0x0002\nLDW R9, 0x0280(R5)\nLDW R10, 0x02C0(R2)\nSTW R3, 0x0300(R1)\nSUBI R4, 0x0004, R4\nADDI R1, 0x0004, R1\nNOP\nBRGE R4, 0x0002\nSUB R1, R11, R15\nNOP\nADD R13, R0, R4\nh2: NOP\nBRNZ R15, 0x0001\nLDW R7, 0x0200(R1)\nADD R4, R0, R5";

const SOI_ALG_LEN: usize = 38;

#[test]
fn test_dlx_instruction_labels() {
    let indiv = Individual::new(SOI_ALG_START).unwrap();

    assert_eq!(
        indiv.to_string(),
        format!(
            "{}\n{}",
            SOI_ALG_RENDERED,
            "NOP\n".repeat(DLX_INDIV_MAX_SIZE - SOI_ALG_LEN)
        )
    );
}
