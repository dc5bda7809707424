use vstd::prelude::*;

verus! {

/// The instruction set. Each opcode is one byte; `OP_CONSTANT` is followed by
/// one operand byte, the index of a constant.
#[derive(Clone, Copy, Debug, PartialEq, Eq, Structural)]
pub enum OpCode {
    OP_CONSTANT,
    OP_ADD,
    OP_SUBTRACT,
    OP_MULTIPLY,
    OP_DIVIDE,
    OP_NEGATE,
    OP_RETURN,
    OP_TRUE,
    OP_FALSE,
    OP_EQUAL,
    OP_GREATER,
    OP_LESS,
    OP_NOT,
    OP_NIL,
}

/// The byte that encodes each opcode, in declaration order from zero.
pub open spec fn op_byte(op: OpCode) -> u8 {
    match op {
        OpCode::OP_CONSTANT => 0,
        OpCode::OP_ADD => 1,
        OpCode::OP_SUBTRACT => 2,
        OpCode::OP_MULTIPLY => 3,
        OpCode::OP_DIVIDE => 4,
        OpCode::OP_NEGATE => 5,
        OpCode::OP_RETURN => 6,
        OpCode::OP_TRUE => 7,
        OpCode::OP_FALSE => 8,
        OpCode::OP_EQUAL => 9,
        OpCode::OP_GREATER => 10,
        OpCode::OP_LESS => 11,
        OpCode::OP_NOT => 12,
        OpCode::OP_NIL => 13,
    }
}

/// The opcode that a byte encodes, if any.
pub open spec fn op_of_byte(b: u8) -> Option<OpCode> {
    if b == 0 {
        Some(OpCode::OP_CONSTANT)
    } else if b == 1 {
        Some(OpCode::OP_ADD)
    } else if b == 2 {
        Some(OpCode::OP_SUBTRACT)
    } else if b == 3 {
        Some(OpCode::OP_MULTIPLY)
    } else if b == 4 {
        Some(OpCode::OP_DIVIDE)
    } else if b == 5 {
        Some(OpCode::OP_NEGATE)
    } else if b == 6 {
        Some(OpCode::OP_RETURN)
    } else if b == 7 {
        Some(OpCode::OP_TRUE)
    } else if b == 8 {
        Some(OpCode::OP_FALSE)
    } else if b == 9 {
        Some(OpCode::OP_EQUAL)
    } else if b == 10 {
        Some(OpCode::OP_GREATER)
    } else if b == 11 {
        Some(OpCode::OP_LESS)
    } else if b == 12 {
        Some(OpCode::OP_NOT)
    } else if b == 13 {
        Some(OpCode::OP_NIL)
    } else {
        None
    }
}

/// How many operand bytes follow the opcode.
pub open spec fn operand_count(op: OpCode) -> nat {
    if op == OpCode::OP_CONSTANT {
        1
    } else {
        0
    }
}

/// Decoding the byte of an opcode gives the opcode back.
pub proof fn lemma_op_byte_round_trip(op: OpCode)
    ensures
        op_of_byte(op_byte(op)) == Some(op),
{
}

impl OpCode {
    pub fn to_byte(self) -> (r: u8)
        ensures
            r == op_byte(self),
    {
        match self {
            OpCode::OP_CONSTANT => 0,
            OpCode::OP_ADD => 1,
            OpCode::OP_SUBTRACT => 2,
            OpCode::OP_MULTIPLY => 3,
            OpCode::OP_DIVIDE => 4,
            OpCode::OP_NEGATE => 5,
            OpCode::OP_RETURN => 6,
            OpCode::OP_TRUE => 7,
            OpCode::OP_FALSE => 8,
            OpCode::OP_EQUAL => 9,
            OpCode::OP_GREATER => 10,
            OpCode::OP_LESS => 11,
            OpCode::OP_NOT => 12,
            OpCode::OP_NIL => 13,
        }
    }

    pub fn from_byte(b: u8) -> (r: Option<OpCode>)
        ensures
            r == op_of_byte(b),
    {
        match b {
            0 => Some(OpCode::OP_CONSTANT),
            1 => Some(OpCode::OP_ADD),
            2 => Some(OpCode::OP_SUBTRACT),
            3 => Some(OpCode::OP_MULTIPLY),
            4 => Some(OpCode::OP_DIVIDE),
            5 => Some(OpCode::OP_NEGATE),
            6 => Some(OpCode::OP_RETURN),
            7 => Some(OpCode::OP_TRUE),
            8 => Some(OpCode::OP_FALSE),
            9 => Some(OpCode::OP_EQUAL),
            10 => Some(OpCode::OP_GREATER),
            11 => Some(OpCode::OP_LESS),
            12 => Some(OpCode::OP_NOT),
            13 => Some(OpCode::OP_NIL),
            _ => None,
        }
    }

    /// The number of operand bytes that follow this opcode.
    pub fn operand_count(self) -> (r: usize)
        ensures
            r == operand_count(self),
    {
        match self {
            OpCode::OP_CONSTANT => 1,
            _ => 0,
        }
    }
}

} // verus!
