use vstd::prelude::*;

use crate::op_code::{lemma_op_byte_round_trip, op_byte, op_of_byte, operand_count, OpCode};
use crate::value::{Value, ValueArray};

verus! {

/// An instruction as the compiler writes it: an opcode, with its operand
/// exactly where the opcode takes one.
pub open spec fn instr_valid(i: (OpCode, Option<u8>)) -> bool {
    i.1 is Some <==> operand_count(i.0) == 1
}

/// The bytes of one instruction: the opcode's byte, then its operand if any.
pub open spec fn instr_bytes(i: (OpCode, Option<u8>)) -> Seq<u8> {
    match i.1 {
        Some(b) => seq![op_byte(i.0), b],
        None => seq![op_byte(i.0)],
    }
}

/// The bytes of a sequence of instructions, one after the other.
pub open spec fn encode(instrs: Seq<(OpCode, Option<u8>)>) -> Seq<u8>
    decreases instrs.len(),
{
    if instrs.len() == 0 {
        Seq::empty()
    } else {
        instr_bytes(instrs[0]) + encode(instrs.skip(1))
    }
}

/// Reading a byte stream as instructions, each opcode taking as many operand
/// bytes as it is declared to; `None` where a byte is no opcode or an operand
/// is missing.
pub open spec fn decode(code: Seq<u8>) -> Option<Seq<(OpCode, Option<u8>)>>
    decreases code.len(),
{
    if code.len() == 0 {
        Some(Seq::empty())
    } else {
        match op_of_byte(code[0]) {
            None => None,
            Some(op) => {
                if operand_count(op) == 1 {
                    if code.len() < 2 {
                        None
                    } else {
                        match decode(code.skip(2)) {
                            Some(rest) => Some(seq![(op, Some(code[1]))] + rest),
                            None => None,
                        }
                    }
                } else {
                    match decode(code.skip(1)) {
                        Some(rest) => Some(seq![(op, None::<u8>)] + rest),
                        None => None,
                    }
                }
            },
        }
    }
}

/// The line of each byte of `instrs`, where `lines` gives each instruction's
/// line: an instruction's bytes all carry its line.
pub open spec fn encode_lines(instrs: Seq<(OpCode, Option<u8>)>, lines: Seq<usize>) -> Seq<usize>
    decreases instrs.len(),
{
    if instrs.len() == 0 || lines.len() == 0 {
        Seq::empty()
    } else {
        Seq::new(instr_bytes(instrs[0]).len(), |_i: int| lines[0]) + encode_lines(
            instrs.skip(1),
            lines.skip(1),
        )
    }
}

/// Appending an instruction with its line appends that line once per byte.
pub proof fn lemma_encode_lines_push(
    instrs: Seq<(OpCode, Option<u8>)>,
    lines: Seq<usize>,
    i: (OpCode, Option<u8>),
    line: usize,
)
    requires
        instrs.len() == lines.len(),
    ensures
        encode_lines(instrs.push(i), lines.push(line)) == encode_lines(instrs, lines) + Seq::new(
            instr_bytes(i).len(),
            |_k: int| line,
        ),
    decreases instrs.len(),
{
    if instrs.len() == 0 {
        assert(instrs.push(i).skip(1) =~= instrs);
        assert(lines.push(line).skip(1) =~= lines);
        assert(instrs.push(i)[0] == i);
        assert(encode_lines(instrs.push(i), lines.push(line)) =~= Seq::new(
            instr_bytes(i).len(),
            |_k: int| line,
        ));
    } else {
        lemma_encode_lines_push(instrs.skip(1), lines.skip(1), i, line);
        assert(instrs.push(i).skip(1) =~= instrs.skip(1).push(i));
        assert(lines.push(line).skip(1) =~= lines.skip(1).push(line));
        assert(encode_lines(instrs.push(i), lines.push(line)) =~= encode_lines(instrs, lines)
            + Seq::new(instr_bytes(i).len(), |_k: int| line));
    }
}

/// Appending one instruction appends its bytes.
pub proof fn lemma_encode_push(instrs: Seq<(OpCode, Option<u8>)>, i: (OpCode, Option<u8>))
    ensures
        encode(instrs.push(i)) == encode(instrs) + instr_bytes(i),
    decreases instrs.len(),
{
    if instrs.len() == 0 {
        let empty = Seq::<(OpCode, Option<u8>)>::empty();
        assert(instrs.push(i).skip(1) =~= empty);
        assert(encode(empty) == Seq::<u8>::empty());
        assert(instrs.push(i)[0] == i);
        assert(encode(instrs.push(i)) =~= instr_bytes(i));
        assert(encode(instrs) == Seq::<u8>::empty());
    } else {
        lemma_encode_push(instrs.skip(1), i);
        assert(instrs.push(i).skip(1) =~= instrs.skip(1).push(i));
        assert(encode(instrs.push(i)) =~= encode(instrs) + instr_bytes(i));
    }
}

/// The bytes of two instruction sequences, one after the other.
pub proof fn lemma_encode_append(a: Seq<(OpCode, Option<u8>)>, b: Seq<(OpCode, Option<u8>)>)
    ensures
        encode(a + b) == encode(a) + encode(b),
    decreases a.len(),
{
    if a.len() == 0 {
        assert(a + b =~= b);
        assert(encode(a) + encode(b) =~= encode(b));
    } else {
        lemma_encode_append(a.skip(1), b);
        assert((a + b).skip(1) =~= a.skip(1) + b);
        assert((a + b)[0] == a[0]);
        assert(encode(a + b) =~= encode(a) + encode(b));
    }
}

/// An instruction takes at most two bytes.
pub proof fn lemma_encode_len(instrs: Seq<(OpCode, Option<u8>)>)
    ensures
        encode(instrs).len() <= 2 * instrs.len(),
    decreases instrs.len(),
{
    if instrs.len() > 0 {
        lemma_encode_len(instrs.skip(1));
    }
}

/// Disassembly recovers what was written: decoding the bytes of valid
/// instructions gives back those instructions, each opcode with exactly the
/// operand bytes the compiler wrote for it.
pub proof fn lemma_decode_encode(instrs: Seq<(OpCode, Option<u8>)>)
    requires
        forall|k: int| 0 <= k < instrs.len() ==> instr_valid(#[trigger] instrs[k]),
    ensures
        decode(encode(instrs)) == Some(instrs),
    decreases instrs.len(),
{
    if instrs.len() > 0 {
        let i = instrs[0];
        let rest = instrs.skip(1);
        assert forall|k: int| 0 <= k < rest.len() implies instr_valid(#[trigger] rest[k]) by {
            assert(rest[k] == instrs[k + 1]);
        }
        lemma_decode_encode(rest);
        lemma_op_byte_round_trip(i.0);
        let code = encode(instrs);
        let n: int = if i.1 is Some { 2 } else { 1 };
        assert(code.skip(n) =~= encode(rest));
        assert(seq![i] + rest =~= instrs);
    }
}

/// One decoded instruction of a chunk: where it stands, its opcode, its
/// operand if it takes one, and the source line it came from.
#[derive(Clone, Copy, Debug, PartialEq, Eq, Structural)]
pub struct Instruction {
    pub offset: usize,
    pub op_code: OpCode,
    pub operand: Option<u8>,
    pub line: usize,
}

/// Each decoded instruction stands where the one before it ends, the first at
/// offset zero, and carries the line of its opcode byte.
pub open spec fn offsets_and_lines(v: Seq<Instruction>, code_len: nat, lines: Seq<usize>) -> bool {
    &&& v.len() > 0 ==> v[0].offset == 0
    &&& forall|k: int|
        0 <= k < v.len() ==> (#[trigger] v[k]).offset < code_len && v[k].line
            == lines[v[k].offset as int]
    &&& forall|k: int|
        0 <= k < v.len() - 1 ==> (#[trigger] v[k + 1]).offset == v[k].offset + 1
            + operand_count(v[k].op_code)
}

/// A compiled unit: instruction bytes, the source line of each byte, and the
/// constant pool.
pub struct Chunk {
    pub code: Vec<u8>,
    pub count: usize,
    pub constants: ValueArray,
    pub lines: Vec<usize>,
}

impl Chunk {
    /// Each byte has its line, and `count` is the number of bytes.
    pub open spec fn wf(&self) -> bool {
        &&& self.code.len() == self.count
        &&& self.lines.len() == self.count
        &&& self.constants.wf()
    }

    pub fn new() -> (r: Chunk)
        ensures
            r.wf(),
            r.code@ == Seq::<u8>::empty(),
            r.lines@ == Seq::<usize>::empty(),
            r.constants.values@ == Seq::<Value>::empty(),
    {
        Chunk { code: Vec::new(), count: 0, constants: ValueArray::new(), lines: Vec::new() }
    }

    /// Appends one byte, produced by source line `line`.
    pub fn write(&mut self, data: u8, line: usize)
        requires
            old(self).wf(),
            old(self).count < usize::MAX,
        ensures
            final(self).wf(),
            final(self).code@ == old(self).code@.push(data),
            final(self).lines@ == old(self).lines@.push(line),
            final(self).constants == old(self).constants,
    {
        self.code.push(data);
        self.lines.push(line);
        self.count = self.count + 1;
    }

    /// Appends `value` to the constant pool and returns its index.
    pub fn add_constant(&mut self, value: Value) -> (r: usize)
        requires
            old(self).wf(),
            old(self).constants.count < usize::MAX,
        ensures
            final(self).wf(),
            r == old(self).constants.values.len(),
            final(self).constants.values@ == old(self).constants.values@.push(value),
            final(self).code@ == old(self).code@,
            final(self).lines@ == old(self).lines@,
    {
        self.constants.write(value);
        self.constants.count - 1
    }

    /// Decodes the instruction at `offset`; `None` where its byte is no opcode
    /// or its operand lies past the end.
    pub fn disassemble_instruction(&self, offset: usize) -> (r: Option<Instruction>)
        requires
            self.wf(),
            offset < self.code.len(),
        ensures
            r is Some ==> {
                let i = r->Some_0;
                &&& op_of_byte(self.code@[offset as int]) == Some(i.op_code)
                &&& offset + 1 + operand_count(i.op_code) <= self.code.len()
                &&& i.operand == if operand_count(i.op_code) == 1 {
                    Some(self.code@[offset + 1])
                } else {
                    None::<u8>
                }
                &&& i.offset == offset
                &&& i.line == self.lines@[offset as int]
            },
            r is None ==> decode(self.code@.skip(offset as int)) is None,
    {
        let op = OpCode::from_byte(self.code[offset]);
        match op {
            None => {
                proof {
                    assert(self.code@.skip(offset as int)[0] == self.code@[offset as int]);
                }
                None
            },
            Some(op_code) => {
                proof {
                    assert(self.code@.skip(offset as int)[0] == self.code@[offset as int]);
                }
                if op_code.operand_count() == 1 {
                    if offset + 1 < self.code.len() {
                        Some(
                            Instruction {
                                offset,
                                op_code,
                                operand: Some(self.code[offset + 1]),
                                line: self.lines[offset],
                            },
                        )
                    } else {
                        None
                    }
                } else {
                    Some(Instruction { offset, op_code, operand: None, line: self.lines[offset] })
                }
            },
        }
    }

    /// The whole instruction stream, decoded; `None` where it does not decode.
    pub fn disassemble_chunk(&self) -> (r: Option<Vec<Instruction>>)
        requires
            self.wf(),
        ensures
            r is Some <==> decode(self.code@) is Some,
            r is Some ==> {
                let d = decode(self.code@)->Some_0;
                let v = r->Some_0;
                &&& v.len() == d.len()
                &&& forall|k: int|
                    0 <= k < d.len() ==> (#[trigger] v@[k]).op_code == d[k].0 && v@[k].operand
                        == d[k].1
                &&& offsets_and_lines(v@, self.code@.len(), self.lines@)
            },
    {
        let mut out: Vec<Instruction> = Vec::new();
        let mut offset: usize = 0;
        let len = self.code.len();
        proof {
            assert(self.code@.skip(0) =~= self.code@);
            if let Some(d) = decode(self.code@) {
                assert(out@.map_values(|i: Instruction| (i.op_code, i.operand)) + d =~= d);
            }
        }
        while offset < len
            invariant
                self.wf(),
                len == self.code.len(),
                offset <= len,
                offsets_and_lines(out@, self.code@.len(), self.lines@),
                out@.len() == 0 ==> offset == 0,
                out@.len() > 0 ==> offset == out@.last().offset + 1 + operand_count(
                    out@.last().op_code,
                ),
                match decode(self.code@.skip(offset as int)) {
                    Some(rest) => decode(self.code@) == Some(
                        out@.map_values(|i: Instruction| (i.op_code, i.operand)) + rest,
                    ),
                    None => decode(self.code@) is None,
                },
            decreases len - offset,
        {
            let ins = self.disassemble_instruction(offset);
            match ins {
                None => {
                    return None;
                },
                Some(i) => {
                    let step = 1 + i.op_code.operand_count();
                    proof {
                        let code = self.code@.skip(offset as int);
                        assert(code.skip(step as int) =~= self.code@.skip(offset + step));
                        assert(code[0] == self.code@[offset as int]);
                        if step == 2 {
                            assert(code[1] == self.code@[offset + 1]);
                        }
                        match decode(code.skip(step as int)) {
                            Some(rest) => {
                                assert(out@.push(i).map_values(
                                    |i: Instruction| (i.op_code, i.operand),
                                ) =~= out@.map_values(|i: Instruction| (i.op_code, i.operand)).push(
                                    (i.op_code, i.operand),
                                ));
                                assert(out@.map_values(|i: Instruction| (i.op_code, i.operand))
                                    + decode(code)->Some_0 =~= out@.push(i).map_values(
                                    |i: Instruction| (i.op_code, i.operand),
                                ) + rest);
                            },
                            None => {},
                        }
                    }
                    let ghost before = out@;
                    out.push(i);
                    proof {
                        assert forall|k: int| 0 <= k < out@.len() - 1 implies (#[trigger] out@[k
                            + 1]).offset == out@[k].offset + 1 + operand_count(out@[k].op_code) by {
                            if k < before.len() - 1 {
                                assert(out@[k + 1] == before[k + 1]);
                                assert(out@[k] == before[k]);
                            } else {
                                assert(out@[k] == before.last());
                            }
                        }
                        assert forall|k: int| 0 <= k < out@.len() implies (#[trigger] out@[k]).offset
                            < self.code@.len() && out@[k].line == self.lines@[out@[k].offset as int] by {
                            if k < before.len() {
                                assert(out@[k] == before[k]);
                            }
                        }
                    }
                    offset = offset + step;
                },
            }
        }
        proof {
            assert(self.code@.skip(offset as int) =~= Seq::<u8>::empty());
            assert(out@.map_values(|i: Instruction| (i.op_code, i.operand)) + Seq::<
                (OpCode, Option<u8>),
            >::empty() =~= out@.map_values(|i: Instruction| (i.op_code, i.operand)));
        }
        Some(out)
    }
}

} // verus!
