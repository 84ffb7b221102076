pub mod emu;
pub mod individual;
pub mod instruction;
pub mod opcode;
pub mod register;

pub use individual::Individual;
pub use instruction::Instruction;
pub use opcode::Opcode;
pub use register::Register;
