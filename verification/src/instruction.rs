//! Bytecode instructions and constants.

use vstd::prelude::*;
use vstd::utf8::encode_utf8;

verus! {

/// The operation of an instruction.
#[derive(Debug, Clone, Copy, PartialEq, Eq, Structural)]
pub enum OpCode {
    Constant,
    Nil,
    True,
    False,
    Pop,
    GetLocal,
    SetLocal,
    GetGlobal,
    SetGlobal,
    DefineGlobal,
    Equal,
    Greater,
    Less,
    Add,
    Subtract,
    Multiply,
    Divide,
    Mod,
    Not,
    Negate,
    Print,
    Jump,
    JumpIfFalse,
    JumpIfTrue,
    Loop,
    Call,
    Return,
    ReturnValue,
}

/// One instruction: an operation, its operands and a source line.
#[derive(Debug)]
pub struct Instruction {
    pub opcode: OpCode,
    pub operands: Vec<usize>,
    pub line: usize,
}

/// The model of an instruction.
pub struct InstrView {
    pub opcode: OpCode,
    pub operands: Seq<usize>,
    pub line: usize,
}

impl View for Instruction {
    type V = InstrView;

    open spec fn view(&self) -> InstrView {
        InstrView { opcode: self.opcode, operands: self.operands@, line: self.line }
    }
}

/// The models of a sequence of instructions.
pub open spec fn instrs_view(s: Seq<Instruction>) -> Seq<InstrView> {
    s.map_values(|i: Instruction| i@)
}

/// An instruction with no operand.
pub open spec fn op(opcode: OpCode) -> InstrView {
    InstrView { opcode, operands: seq![], line: 0 }
}

/// Operations that read their first operand unconditionally.
pub open spec fn needs_operand(o: OpCode) -> bool {
    o == OpCode::Constant || o == OpCode::GetLocal || o == OpCode::SetLocal || o == OpCode::GetGlobal
        || o == OpCode::SetGlobal || o == OpCode::DefineGlobal
}

/// An instruction that can run against a pool of `n` constants: it has
/// the operand it reads, and a constant index is in the pool.
pub open spec fn instr_ok(i: InstrView, n: nat) -> bool {
    &&& needs_operand(i.opcode) ==> i.operands.len() >= 1
    &&& i.opcode == OpCode::Constant ==> i.operands[0] < n
}

/// An instruction with one operand.
pub open spec fn op1(opcode: OpCode, operand: usize) -> InstrView {
    InstrView { opcode, operands: seq![operand], line: 0 }
}

fn copy_operands(v: &Vec<usize>) -> (r: Vec<usize>)
    ensures
        r@ == v@,
{
    let mut r: Vec<usize> = Vec::new();
    let mut i: usize = 0;
    while i < v.len()
        invariant
            i <= v.len(),
            r@ == v@.take(i as int),
        decreases v.len() - i,
    {
        r.push(v[i]);
        i = i + 1;
        assert(r@ =~= v@.take(i as int));
    }
    assert(v@.take(v.len() as int) =~= v@);
    r
}

impl Clone for Instruction {
    fn clone(&self) -> (r: Self)
        ensures
            r@ == self@,
    {
        Instruction { opcode: self.opcode, operands: copy_operands(&self.operands), line: self.line }
    }
}

impl Instruction {
    pub fn new(opcode: OpCode, line: usize) -> (i: Self)
        ensures
            i@ == (InstrView { opcode, operands: seq![], line }),
    {
        let operands: Vec<usize> = Vec::new();
        Instruction { opcode, operands, line }
    }

    pub fn with_operand(opcode: OpCode, operand: usize, line: usize) -> (i: Self)
        ensures
            i@ == (InstrView { opcode, operands: seq![operand], line }),
    {
        let mut operands: Vec<usize> = Vec::new();
        operands.push(operand);
        assert(operands@ =~= seq![operand]);
        Instruction { opcode, operands, line }
    }
}

/// A constant of a chunk's constant pool.
#[derive(Debug)]
pub enum Constant {
    Int(i64),
    Bool(bool),
    String(String),
    Nil,
}

/// The model of a constant.
pub enum ConstView {
    Int(i64),
    Bool(bool),
    Str(Seq<char>),
    Nil,
}

impl View for Constant {
    type V = ConstView;

    open spec fn view(&self) -> ConstView {
        match self {
            Constant::Int(v) => ConstView::Int(*v),
            Constant::Bool(b) => ConstView::Bool(*b),
            Constant::String(s) => ConstView::Str(s@),
            Constant::Nil => ConstView::Nil,
        }
    }
}

/// The models of a sequence of constants.
pub open spec fn consts_view(s: Seq<Constant>) -> Seq<ConstView> {
    s.map_values(|c: Constant| c@)
}

impl Clone for Constant {
    fn clone(&self) -> (r: Self)
        ensures
            r == *self,
    {
        match self {
            Constant::Int(v) => Constant::Int(*v),
            Constant::Bool(b) => Constant::Bool(*b),
            Constant::String(s) => Constant::String(s.clone()),
            Constant::Nil => Constant::Nil,
        }
    }
}

/// The `n` low-order bytes of `v`, least significant first.
pub open spec fn le_bytes(v: u64, n: nat) -> Seq<u8>
    decreases n,
{
    if n == 0 {
        seq![]
    } else {
        seq![(v % 256) as u8] + le_bytes(v / 256, (n - 1) as nat)
    }
}

/// The bytes of a constant: a tag byte (0 nil, 1 bool, 2 integer,
/// 4 string), then the payload: the boolean as one byte, the integer as
/// eight little-endian bytes, or the string's UTF-8 length as four
/// little-endian bytes (truncated to 32 bits) followed by its UTF-8 bytes.
pub open spec fn serialized(c: ConstView) -> Seq<u8> {
    match c {
        ConstView::Nil => seq![0u8],
        ConstView::Bool(b) => seq![1u8, if b { 1u8 } else { 0u8 }],
        ConstView::Int(v) => seq![2u8] + le_bytes(v as u64, 8),
        ConstView::Str(s) => seq![4u8] + le_bytes(encode_utf8(s).len() as u32 as u64, 4)
            + encode_utf8(s),
    }
}

/// Eight little-endian bytes tell a 64-bit value.
proof fn lemma_le_bytes_8_injective(v: u64, w: u64)
    requires
        le_bytes(v, 8) == le_bytes(w, 8),
    ensures
        v == w,
{
    reveal_with_fuel(le_bytes, 9);
    let a = le_bytes(v, 8);
    let b = le_bytes(w, 8);
    assert(a[0] == b[0] && a[1] == b[1] && a[2] == b[2] && a[3] == b[3]);
    assert(a[4] == b[4] && a[5] == b[5] && a[6] == b[6] && a[7] == b[7]);
    assert(v % 256 == w % 256);
    assert((v / 256) % 256 == (w / 256) % 256);
    assert((v / 256 / 256) % 256 == (w / 256 / 256) % 256);
    assert((v / 256 / 256 / 256) % 256 == (w / 256 / 256 / 256) % 256);
    assert((v / 256 / 256 / 256 / 256) % 256 == (w / 256 / 256 / 256 / 256) % 256);
    assert((v / 256 / 256 / 256 / 256 / 256) % 256 == (w / 256 / 256 / 256 / 256 / 256) % 256);
    assert((v / 256 / 256 / 256 / 256 / 256 / 256) % 256 == (w / 256 / 256 / 256 / 256 / 256 / 256) % 256);
    assert((v / 256 / 256 / 256 / 256 / 256 / 256 / 256) % 256 == (w / 256 / 256 / 256 / 256 / 256 / 256
        / 256) % 256);
    assert(v == w) by (bit_vector)
        requires
            v % 256 == w % 256,
            (v / 256) % 256 == (w / 256) % 256,
            (v / 256 / 256) % 256 == (w / 256 / 256) % 256,
            (v / 256 / 256 / 256) % 256 == (w / 256 / 256 / 256) % 256,
            (v / 256 / 256 / 256 / 256) % 256 == (w / 256 / 256 / 256 / 256) % 256,
            (v / 256 / 256 / 256 / 256 / 256) % 256 == (w / 256 / 256 / 256 / 256 / 256) % 256,
            (v / 256 / 256 / 256 / 256 / 256 / 256) % 256 == (w / 256 / 256 / 256 / 256 / 256 / 256) % 256,
            (v / 256 / 256 / 256 / 256 / 256 / 256 / 256) % 256 == (w / 256 / 256 / 256 / 256 / 256 / 256
                / 256) % 256,
    ;
}

/// Serialising loses nothing: different constants have different bytes
/// (in particular `false` and `true` differ in their payload byte, and
/// every integer keeps all 64 bits).
pub proof fn lemma_serialized_injective(c1: ConstView, c2: ConstView)
    requires
        serialized(c1) == serialized(c2),
    ensures
        c1 == c2,
{
    let b = serialized(c1);
    assert(b[0] == serialized(c2)[0]);
    match (c1, c2) {
        (ConstView::Bool(x), ConstView::Bool(y)) => {
            assert(b[1] == serialized(c2)[1]);
        },
        (ConstView::Int(x), ConstView::Int(y)) => {
            assert(le_bytes(x as u64, 8) =~= b.subrange(1, b.len() as int));
            assert(le_bytes(y as u64, 8) =~= serialized(c2).subrange(1, b.len() as int));
            lemma_le_bytes_8_injective(x as u64, y as u64);
            assert(x == y) by (bit_vector)
                requires
                    x as u64 == y as u64,
            ;
        },
        (ConstView::Str(x), ConstView::Str(y)) => {
            reveal_with_fuel(le_bytes, 5);
            let n1 = encode_utf8(x).len() as u32 as u64;
            let n2 = encode_utf8(y).len() as u32 as u64;
            assert(le_bytes(n1, 4).len() == 4);
            assert(le_bytes(n2, 4).len() == 4);
            assert(encode_utf8(x) =~= b.subrange(5, b.len() as int));
            assert(encode_utf8(y) =~= serialized(c2).subrange(5, b.len() as int));
            vstd::utf8::encode_utf8_decode_utf8(x);
            vstd::utf8::encode_utf8_decode_utf8(y);
        },
        _ => {},
    }
}

/// Appends the `n` low-order bytes of `v` to `out`, least significant first.
fn push_le(out: &mut Vec<u8>, v: u64, n: usize)
    ensures
        final(out)@ == old(out)@ + le_bytes(v, n as nat),
    decreases n,
{
    if n > 0 {
        out.push((v % 256) as u8);
        push_le(out, v / 256, n - 1);
        assert(final(out)@ =~= old(out)@ + le_bytes(v, n as nat));
    } else {
        assert(final(out)@ =~= old(out)@ + le_bytes(v, n as nat));
    }
}

impl Constant {
    /// The byte encoding of this constant (see `serialized`).
    pub fn serialize(&self) -> (bytes: Vec<u8>)
        ensures
            bytes@ == serialized(self@),
    {
        let mut bytes: Vec<u8> = Vec::new();
        match self {
            Constant::Nil => {
                bytes.push(0);
                assert(bytes@ =~= serialized(self@));
            },
            Constant::Bool(b) => {
                bytes.push(1);
                bytes.push(if *b { 1 } else { 0 });
                assert(bytes@ =~= serialized(self@));
            },
            Constant::Int(v) => {
                bytes.push(2);
                push_le(&mut bytes, *v as u64, 8);
                assert(bytes@ =~= serialized(self@));
            },
            Constant::String(s) => {
                bytes.push(4);
                let raw = s.as_str().as_bytes();
                let n: usize = raw.len();
                push_le(&mut bytes, n as u32 as u64, 4);
                let ghost head = bytes@;
                let mut i: usize = 0;
                while i < n
                    invariant
                        i <= n,
                        n == raw@.len(),
                        bytes@ == head + raw@.take(i as int),
                    decreases n - i,
                {
                    bytes.push(raw[i]);
                    i = i + 1;
                    assert(bytes@ =~= head + raw@.take(i as int));
                }
                assert(raw@.take(n as int) =~= raw@);
                assert(bytes@ =~= serialized(self@));
            },
        }
        bytes
    }
}

} // verus!
