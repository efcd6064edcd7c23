//! The virtual machine's form of a chunk: constants turned into values.

use vstd::prelude::*;
use crate::codegen::{Chunk as BytecodeChunk, code_ok, code_of};
use crate::instruction::{Constant, InstrView, Instruction, consts_view, instr_ok, instrs_view};
use crate::value::{Value, ValueView, const_value, values_view};
use crate::vm::chunk_ok;

verus! {

/// A chunk ready to run: instructions, constant values and a name.
pub struct Chunk {
    pub instructions: Vec<Instruction>,
    pub constants: Vec<Value>,
    pub name: String,
}

/// The model of a runnable chunk.
pub struct ChunkView {
    pub instructions: Seq<InstrView>,
    pub constants: Seq<ValueView>,
}

impl View for Chunk {
    type V = ChunkView;

    open spec fn view(&self) -> ChunkView {
        ChunkView {
            instructions: instrs_view(self.instructions@),
            constants: values_view(self.constants@),
        }
    }
}

fn value_of_constant(c: &Constant) -> (v: Value)
    ensures
        v@ == const_value(c@),
{
    match c {
        Constant::Nil => Value::Nil,
        Constant::Bool(b) => Value::Bool(*b),
        Constant::Int(i) => Value::Int(*i),
        Constant::String(s) => Value::String(s.clone()),
    }
}

impl Chunk {
    /// The chunk with the same instructions and name, and each constant
    /// turned into the value it stands for.
    pub fn from_bytecode_chunk(bc: BytecodeChunk) -> (c: Self)
        ensures
            c.instructions == bc.instructions,
            c.name == bc.name,
            c@.constants == consts_view(bc.constants@).map_values(|k| const_value(k)),
            code_ok(code_of(bc)) ==> chunk_ok(c@),
    {
        let mut constants: Vec<Value> = Vec::new();
        let mut i: usize = 0;
        while i < bc.constants.len()
            invariant
                i <= bc.constants.len(),
                values_view(constants@) == consts_view(bc.constants@).map_values(|k| const_value(k)).take(i as int),
            decreases bc.constants.len() - i,
        {
            let v = value_of_constant(&bc.constants[i]);
            let ghost before = values_view(constants@);
            constants.push(v);
            assert(values_view(constants@) =~= before.push(v@));
            i = i + 1;
            assert(values_view(constants@) =~= consts_view(bc.constants@).map_values(|k| const_value(k)).take(i as int));
        }
        assert(consts_view(bc.constants@).map_values(|k| const_value(k)).take(i as int) =~= consts_view(bc.constants@).map_values(|k| const_value(k)));
        let c = Chunk { instructions: bc.instructions, constants, name: bc.name };
        assert(c@.constants.len() == code_of(bc).consts.len());
        proof {
            if code_ok(code_of(bc)) {
                assert forall|i: int| 0 <= i < c@.instructions.len() implies instr_ok(
                    #[trigger] c@.instructions[i],
                    c@.constants.len(),
                ) by {
                    assert(c@.instructions[i] == code_of(bc).instrs[i]);
                }
            }
        }
        c
    }
}

} // verus!
