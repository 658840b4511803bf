//! The instruction set: one byte per opcode.

use vstd::prelude::*;
use vstd::std_specs::convert::FromSpecImpl;
use vstd::string::StringExecFns;

verus! {

/// A decoded instruction tag. `Unknown` stands for every byte that names no
/// instruction.
#[derive(Debug, Clone, Copy, PartialEq, Eq, Structural)]
pub enum OpCode {
    Constant,
    Add,
    Subtract,
    Multiply,
    Divide,
    Negate,
    Return,
    Unknown,
}

/// The instruction that a byte encodes.
pub open spec fn decode(byte: u8) -> OpCode {
    if byte == 0 {
        OpCode::Constant
    } else if byte == 1 {
        OpCode::Add
    } else if byte == 2 {
        OpCode::Subtract
    } else if byte == 3 {
        OpCode::Multiply
    } else if byte == 4 {
        OpCode::Divide
    } else if byte == 5 {
        OpCode::Negate
    } else if byte == 6 {
        OpCode::Return
    } else {
        OpCode::Unknown
    }
}

impl From<u8> for OpCode {
    fn from(value: u8) -> (opcode: OpCode)
        ensures
            opcode == decode(value),
    {
        match value {
            0 => OpCode::Constant,
            1 => OpCode::Add,
            2 => OpCode::Subtract,
            3 => OpCode::Multiply,
            4 => OpCode::Divide,
            5 => OpCode::Negate,
            6 => OpCode::Return,
            _ => OpCode::Unknown,
        }
    }
}

impl FromSpecImpl<u8> for OpCode {
    open spec fn obeys_from_spec() -> bool {
        true
    }

    open spec fn from_spec(value: u8) -> OpCode {
        decode(value)
    }
}

impl OpCode {
    /// The mnemonic of the instruction: `OP_` and its name in capitals.
    pub open spec fn mnemonic(self) -> Seq<char> {
        match self {
            OpCode::Constant => "OP_CONSTANT"@,
            OpCode::Add => "OP_ADD"@,
            OpCode::Subtract => "OP_SUBTRACT"@,
            OpCode::Multiply => "OP_MULTIPLY"@,
            OpCode::Divide => "OP_DIVIDE"@,
            OpCode::Negate => "OP_NEGATE"@,
            OpCode::Return => "OP_RETURN"@,
            OpCode::Unknown => "OP_UNKNOWN"@,
        }
    }

    /// The mnemonic under which a disassembly shows the instruction.
    pub fn to_string(&self) -> (name: String)
        ensures
            name@ == self.mnemonic(),
    {
        let name = match self {
            OpCode::Constant => "OP_CONSTANT",
            OpCode::Add => "OP_ADD",
            OpCode::Subtract => "OP_SUBTRACT",
            OpCode::Multiply => "OP_MULTIPLY",
            OpCode::Divide => "OP_DIVIDE",
            OpCode::Negate => "OP_NEGATE",
            OpCode::Return => "OP_RETURN",
            OpCode::Unknown => "OP_UNKNOWN",
        };
        String::from_str(name)
    }
}

} // verus!
