//! Code generation: from the syntax tree to a chunk of bytecode.

use vstd::prelude::*;
use crate::ast::{
    BinaryOp, Expr, ExprView, Program, Stmt, StmtView, UnaryOp, expr_v, exprs_v, fields_v, stmt_v,
    stmts_v,
};
use crate::instruction::{
    Constant, ConstView, Instruction, InstrView, OpCode, consts_view, instr_ok, instrs_view, needs_operand, op, op1,
};
use crate::scope::Scope;
use crate::text::string_from_str;

verus! {

/// A unit of bytecode: instructions, a constant pool and a name.
pub struct Chunk {
    pub instructions: Vec<Instruction>,
    pub constants: Vec<Constant>,
    pub name: String,
}

impl Chunk {
    pub fn new(name: &str) -> (c: Self)
        ensures
            c.instructions@.len() == 0,
            c.constants@.len() == 0,
            c.name@ == name@,
    {
        Chunk { instructions: Vec::new(), constants: Vec::new(), name: string_from_str(name) }
    }

    /// Appends `val` to the constant pool and returns its index.
    pub fn add_constant(&mut self, val: Constant) -> (idx: usize)
        ensures
            idx == old(self).constants@.len(),
            final(self).constants@ == old(self).constants@.push(val),
            final(self).instructions@ == old(self).instructions@,
            final(self).name == old(self).name,
    {
        let idx: usize = self.constants.len();
        self.constants.push(val);
        idx
    }

    fn emit(&mut self, inst: Instruction)
        ensures
            final(self).instructions@ == old(self).instructions@.push(inst),
            final(self).constants@ == old(self).constants@,
            final(self).name == old(self).name,
            code_of(*final(self)) == emit(code_of(*old(self)), inst@),
    {
        self.instructions.push(inst);
        assert(instrs_view(self.instructions@) =~= instrs_view(old(self).instructions@).push(inst@));
    }

    /// Emits an instruction with no operand.
    fn emit_op(&mut self, opcode: OpCode)
        ensures
            final(self).instructions@.len() == old(self).instructions@.len() + 1,
            final(self).name == old(self).name,
            code_of(*final(self)) == emit(code_of(*old(self)), op(opcode)),
    {
        self.emit(Instruction::new(opcode, 0));
    }

    /// Emits an instruction with one operand.
    fn emit_op1(&mut self, opcode: OpCode, operand: usize)
        ensures
            final(self).instructions@.len() == old(self).instructions@.len() + 1,
            final(self).name == old(self).name,
            code_of(*final(self)) == emit(code_of(*old(self)), op1(opcode, operand)),
    {
        self.emit(Instruction::with_operand(opcode, operand, 0));
    }

    /// Adds a constant and emits the instruction that loads it.
    fn load(&mut self, k: Constant)
        ensures
            final(self).instructions@.len() == old(self).instructions@.len() + 1,
            final(self).name == old(self).name,
            code_of(*final(self)) == load_const(code_of(*old(self)), k@),
    {
        let ghost k_v = k@;
        let idx = self.add_constant(k);
        assert(consts_view(self.constants@) =~= consts_view(old(self).constants@).push(k_v));
        self.emit_op1(OpCode::Constant, idx);
    }

    /// Sets the operand of the jump at `at` to `target`.
    fn patch_jump(&mut self, at: usize, jump: OpCode, target: usize)
        requires
            at < old(self).instructions@.len(),
        ensures
            final(self).instructions@.len() == old(self).instructions@.len(),
            final(self).name == old(self).name,
            code_of(*final(self)) == patch(code_of(*old(self)), at as int, jump, target as int),
    {
        self.instructions.set(at, Instruction::with_operand(jump, target, 0));
        assert(instrs_view(self.instructions@) =~= instrs_view(old(self).instructions@).update(
            at as int,
            op1(jump, target),
        ));
    }
}


// ---------------------------------------------------------------------
// What code generation produces
// ---------------------------------------------------------------------

/// The model of a chunk under construction: its instructions and constants.
pub struct Code {
    pub instrs: Seq<InstrView>,
    pub consts: Seq<ConstView>,
}

pub open spec fn code_of(c: Chunk) -> Code {
    Code { instrs: instrs_view(c.instructions@), consts: consts_view(c.constants@) }
}

pub open spec fn emit(c: Code, i: InstrView) -> Code {
    Code { instrs: c.instrs.push(i), consts: c.consts }
}

/// A new constant, and an instruction loading it.
pub open spec fn load_const(c: Code, k: ConstView) -> Code {
    Code { instrs: c.instrs.push(op1(OpCode::Constant, c.consts.len() as usize)), consts: c.consts.push(k) }
}

/// Sets the operand of instruction `at` (a jump) to `target`.
pub open spec fn patch(c: Code, at: int, jump: OpCode, target: int) -> Code {
    Code { instrs: c.instrs.update(at, op1(jump, target as usize)), consts: c.consts }
}

/// The instructions of a binary operator. `&&` and `||` pop the right
/// operand and so keep the left one.
pub open spec fn binop_code(o: BinaryOp) -> Seq<InstrView> {
    match o {
        BinaryOp::Add => seq![op(OpCode::Add)],
        BinaryOp::Sub => seq![op(OpCode::Subtract)],
        BinaryOp::Mul => seq![op(OpCode::Multiply)],
        BinaryOp::Div => seq![op(OpCode::Divide)],
        BinaryOp::Mod => seq![op(OpCode::Mod)],
        BinaryOp::Equal => seq![op(OpCode::Equal)],
        BinaryOp::NotEqual => seq![op(OpCode::Equal), op(OpCode::Not)],
        BinaryOp::Less => seq![op(OpCode::Less)],
        BinaryOp::Greater => seq![op(OpCode::Greater)],
        BinaryOp::LessEqual => seq![op(OpCode::Greater), op(OpCode::Not)],
        BinaryOp::GreaterEqual => seq![op(OpCode::Less), op(OpCode::Not)],
        BinaryOp::And | BinaryOp::Or => seq![op(OpCode::Pop)],
    }
}

/// The code of an expression, appended to `c`; variables are looked up in
/// the scope `sc` (names to global slots).
pub open spec fn expr_code(sc: Map<Seq<char>, usize>, c: Code, e: ExprView) -> Code
    decreases e,
{
    match e {
        ExprView::Int(v) => load_const(c, ConstView::Int(v)),
        ExprView::Bool(b) => emit(
            c,
            op(
                if b {
                    OpCode::True
                } else {
                    OpCode::False
                },
            ),
        ),
        ExprView::Str(s) => load_const(c, ConstView::Str(s)),
        ExprView::Null => emit(c, op(OpCode::Nil)),
        ExprView::Ident(n) => if sc.contains_key(n) {
            emit(c, op1(OpCode::GetGlobal, sc[n]))
        } else {
            emit(c, op(OpCode::Nil))
        },
        ExprView::Binary(l, o, r) => {
            let c2 = expr_code(sc, expr_code(sc, c, *l), *r);
            Code { instrs: c2.instrs + binop_code(o), consts: c2.consts }
        },
        ExprView::Unary(o, r) => emit(
            expr_code(sc, c, *r),
            op(
                if o == UnaryOp::Negate {
                    OpCode::Negate
                } else {
                    OpCode::Not
                },
            ),
        ),
        ExprView::Assign(t, v) => {
            let c1 = expr_code(sc, c, *v);
            match *t {
                ExprView::Ident(n) => if sc.contains_key(n) {
                    emit(c1, op1(OpCode::SetGlobal, sc[n]))
                } else {
                    c1
                },
                _ => c1,
            }
        },
        ExprView::Call(callee, args) => emit(
            exprs_code(sc, expr_code(sc, c, *callee), args),
            op1(OpCode::Call, args.len() as usize),
        ),
        ExprView::If(cond, then, els) => {
            let c1 = expr_code(sc, c, *cond);
            let else_jump = c1.instrs.len() as int;
            let c2 = emit(emit(c1, op(OpCode::JumpIfFalse)), op(OpCode::Pop));
            let c3 = expr_code(sc, c2, *then);
            let end_jump = c3.instrs.len() as int;
            let c4 = emit(c3, op(OpCode::Jump));
            let c5 = emit(patch(c4, else_jump, OpCode::JumpIfFalse, c4.instrs.len() as int), op(OpCode::Pop));
            let c6 = match els {
                Some(e) => expr_code(sc, c5, *e),
                None => emit(c5, op(OpCode::Nil)),
            };
            patch(c6, end_jump, OpCode::Jump, c6.instrs.len() as int)
        },
        ExprView::Field(o, _) => expr_code(sc, c, *o),
        ExprView::StructLit(_, fields) => fields_code(sc, c, fields),
        _ => c,
    }
}

/// The code of expressions in order.
pub open spec fn exprs_code(sc: Map<Seq<char>, usize>, c: Code, es: Seq<ExprView>) -> Code
    decreases es,
{
    if es.len() == 0 {
        c
    } else {
        exprs_code(sc, expr_code(sc, c, es[0]), es.subrange(1, es.len() as int))
    }
}

/// The code of a struct literal's field values in order.
pub open spec fn fields_code(sc: Map<Seq<char>, usize>, c: Code, fs: Seq<(Seq<char>, ExprView)>) -> Code
    decreases fs,
{
    if fs.len() == 0 {
        c
    } else {
        fields_code(sc, expr_code(sc, c, fs[0].1), fs.subrange(1, fs.len() as int))
    }
}

/// The state of code generation: the scopes (innermost last) and the code.
pub struct Gen {
    pub scopes: Seq<Map<Seq<char>, usize>>,
    pub code: Code,
}

/// The state after generating the code of a statement.
pub open spec fn stmt_code(g: Gen, s: StmtView) -> Gen
    decreases s,
{
    let sc = g.scopes.last();
    match s {
        StmtView::Expr(e) => Gen { scopes: g.scopes, code: emit(expr_code(sc, g.code, e), op(OpCode::Pop)) },
        StmtView::Var(d) => {
            let c1 = match d.value {
                Some(v) => expr_code(sc, g.code, v),
                None => emit(g.code, op(OpCode::Nil)),
            };
            let slot = sc.dom().len() as usize;
            Gen {
                scopes: g.scopes.update(g.scopes.len() - 1, sc.insert(d.name, slot)),
                code: emit(c1, op1(OpCode::DefineGlobal, slot)),
            }
        },
        StmtView::Block(b) => {
            let inner = stmts_code(Gen { scopes: g.scopes.push(Map::empty()), code: g.code }, b);
            Gen { scopes: inner.scopes.drop_last(), code: inner.code }
        },
        StmtView::Return(v) => match v {
            Some(e) => Gen { scopes: g.scopes, code: emit(expr_code(sc, g.code, e), op(OpCode::ReturnValue)) },
            None => Gen { scopes: g.scopes, code: emit(g.code, op(OpCode::Return)) },
        },
        StmtView::While(cond, body) => {
            let loop_start = g.code.instrs.len() as int;
            let c1 = expr_code(sc, g.code, cond);
            let exit_jump = c1.instrs.len() as int;
            let c2 = emit(emit(c1, op(OpCode::JumpIfFalse)), op(OpCode::Pop));
            let inner = stmts_code(Gen { scopes: g.scopes, code: c2 }, body);
            let c3 = emit(inner.code, op1(OpCode::Loop, loop_start as usize));
            let c4 = patch(emit(c3, op(OpCode::Pop)), exit_jump, OpCode::JumpIfFalse, (c3.instrs.len() + 1) as int);
            Gen { scopes: inner.scopes, code: c4 }
        },
        StmtView::For(_, it, body) => {
            let c1 = emit(expr_code(sc, g.code, it), op(OpCode::Pop));
            let inner = stmts_code(Gen { scopes: g.scopes.push(Map::empty()), code: c1 }, body);
            Gen { scopes: inner.scopes.drop_last(), code: inner.code }
        },
        StmtView::Fn(..) => g,
    }
}

/// The state after generating the code of statements in order.
pub open spec fn stmts_code(g: Gen, ss: Seq<StmtView>) -> Gen
    decreases ss,
{
    if ss.len() == 0 {
        g
    } else {
        stmts_code(stmt_code(g, ss[0]), ss.subrange(1, ss.len() as int))
    }
}

/// The state after generating a whole program: its statements, then
/// `Nil` and `Return`.
pub open spec fn program_code(scopes: Seq<Map<Seq<char>, usize>>, ss: Seq<StmtView>) -> Gen {
    let g = stmts_code(Gen { scopes, code: Code { instrs: seq![], consts: seq![] } }, ss);
    Gen { scopes: g.scopes, code: emit(emit(g.code, op(OpCode::Nil)), op(OpCode::Return)) }
}


// ---------------------------------------------------------------------
// Generated code is well formed
// ---------------------------------------------------------------------

/// Every instruction has the operand it reads, and every constant index
/// is in the pool.
pub open spec fn code_ok(c: Code) -> bool {
    forall|i: int| 0 <= i < c.instrs.len() ==> instr_ok(#[trigger] c.instrs[i], c.consts.len())
}

/// `r` keeps the instructions and constants of `c`, and each instruction
/// it adds is well formed.
pub open spec fn extends_ok(c: Code, r: Code) -> bool {
    &&& c.instrs.len() <= r.instrs.len()
    &&& c.consts.len() <= r.consts.len()
    &&& forall|i: int| 0 <= i < c.instrs.len() ==> r.instrs[i] == c.instrs[i]
    &&& forall|i: int| c.instrs.len() <= i < r.instrs.len() ==> instr_ok(#[trigger] r.instrs[i], r.consts.len())
    &&& forall|i: int| c.instrs.len() <= i < r.instrs.len() ==> target_at_most(#[trigger] r.instrs[i], r.instrs.len())
}

/// The operations that move to the instruction their operand names.
pub open spec fn is_jump(o: OpCode) -> bool {
    o == OpCode::Jump || o == OpCode::JumpIfFalse || o == OpCode::JumpIfTrue || o == OpCode::Loop
}

/// A jump with a target goes no further than `n`.
pub open spec fn target_at_most(i: InstrView, n: nat) -> bool {
    is_jump(i.opcode) && i.operands.len() > 0 ==> i.operands[0] <= n
}

/// Every jump with a target goes to an instruction of the code.
pub open spec fn jumps_inside(c: Code) -> bool {
    forall|i: int|
        0 <= i < c.instrs.len() && is_jump(#[trigger] c.instrs[i].opcode) && c.instrs[i].operands.len() > 0
            ==> c.instrs[i].operands[0] < c.instrs.len()
}

proof fn lemma_extends_trans(a: Code, b: Code, c: Code)
    requires
        extends_ok(a, b),
        extends_ok(b, c),
    ensures
        extends_ok(a, c),
{
    assert forall|i: int| a.instrs.len() <= i < c.instrs.len() implies instr_ok(
        #[trigger] c.instrs[i],
        c.consts.len(),
    ) by {
        if i < b.instrs.len() {
            assert(c.instrs[i] == b.instrs[i]);
            assert(instr_ok(b.instrs[i], b.consts.len()));
        }
    }
    assert forall|i: int| a.instrs.len() <= i < c.instrs.len() implies target_at_most(
        #[trigger] c.instrs[i],
        c.instrs.len(),
    ) by {
        if i < b.instrs.len() {
            assert(c.instrs[i] == b.instrs[i]);
            assert(target_at_most(b.instrs[i], b.instrs.len()));
        }
    }
}

proof fn lemma_load_ok(c: Code, k: ConstView)
    ensures
        extends_ok(c, load_const(c, k)),
{
    let r = load_const(c, k);
    assert(r.instrs[c.instrs.len() as int] == op1(OpCode::Constant, c.consts.len() as usize));
}

proof fn lemma_patch_ok(c: Code, d: Code, at: int, jump: OpCode, target: int)
    requires
        extends_ok(c, d),
        c.instrs.len() <= at < d.instrs.len(),
        !needs_operand(jump),
        0 <= target <= d.instrs.len(),
    ensures
        extends_ok(c, patch(d, at, jump, target)),
{
}

/// The code of an expression adds only well-formed instructions.
proof fn lemma_expr_ok(sc: Map<Seq<char>, usize>, c: Code, e: ExprView)
    ensures
        extends_ok(c, expr_code(sc, c, e)),
    decreases e,
{
    match e {
        ExprView::Int(v) => lemma_load_ok(c, ConstView::Int(v)),
        ExprView::Str(s) => lemma_load_ok(c, ConstView::Str(s)),
        ExprView::Binary(l, o, r) => {
            let c1 = expr_code(sc, c, *l);
            let c2 = expr_code(sc, c1, *r);
            lemma_expr_ok(sc, c, *l);
            lemma_expr_ok(sc, c1, *r);
            lemma_extends_trans(c, c1, c2);
            let c3 = Code { instrs: c2.instrs + binop_code(o), consts: c2.consts };
            assert forall|i: int| c2.instrs.len() <= i < c3.instrs.len() implies instr_ok(
                #[trigger] c3.instrs[i],
                c3.consts.len(),
            ) by {
                assert(c3.instrs[i] == binop_code(o)[i - c2.instrs.len()]);
            }
            lemma_extends_trans(c, c2, c3);
        },
        ExprView::Unary(_, r) => lemma_expr_ok(sc, c, *r),
        ExprView::Assign(_, v) => lemma_expr_ok(sc, c, *v),
        ExprView::Call(callee, args) => {
            let c1 = expr_code(sc, c, *callee);
            lemma_expr_ok(sc, c, *callee);
            lemma_exprs_ok(sc, c1, args);
            lemma_extends_trans(c, c1, exprs_code(sc, c1, args));
        },
        ExprView::If(cond, then, els) => {
            let c1 = expr_code(sc, c, *cond);
            lemma_expr_ok(sc, c, *cond);
            let else_jump = c1.instrs.len() as int;
            let c2 = emit(emit(c1, op(OpCode::JumpIfFalse)), op(OpCode::Pop));
            lemma_extends_trans(c, c1, c2);
            let c3 = expr_code(sc, c2, *then);
            lemma_expr_ok(sc, c2, *then);
            lemma_extends_trans(c, c2, c3);
            let end_jump = c3.instrs.len() as int;
            let c4 = emit(c3, op(OpCode::Jump));
            lemma_extends_trans(c, c3, c4);
            let c4p = patch(c4, else_jump, OpCode::JumpIfFalse, c4.instrs.len() as int);
            lemma_patch_ok(c, c4, else_jump, OpCode::JumpIfFalse, c4.instrs.len() as int);
            let c5 = emit(c4p, op(OpCode::Pop));
            lemma_extends_trans(c, c4p, c5);
            let c6 = match els {
                Some(e) => expr_code(sc, c5, *e),
                None => emit(c5, op(OpCode::Nil)),
            };
            match els {
                Some(e) => lemma_expr_ok(sc, c5, *e),
                None => {},
            }
            lemma_extends_trans(c, c5, c6);
            lemma_patch_ok(c, c6, end_jump, OpCode::Jump, c6.instrs.len() as int);
        },
        ExprView::Field(o, _) => lemma_expr_ok(sc, c, *o),
        ExprView::StructLit(_, fields) => lemma_fields_ok(sc, c, fields),
        _ => {},
    }
    let r = expr_code(sc, c, e);
    match e {
        ExprView::Unary(_, rr) => lemma_extends_trans(c, expr_code(sc, c, *rr), r),
        ExprView::Assign(_, v) => lemma_extends_trans(c, expr_code(sc, c, *v), r),
        ExprView::Call(callee, args) => lemma_extends_trans(c, exprs_code(sc, expr_code(sc, c, *callee), args), r),
        _ => {},
    }
}

proof fn lemma_exprs_ok(sc: Map<Seq<char>, usize>, c: Code, es: Seq<ExprView>)
    ensures
        extends_ok(c, exprs_code(sc, c, es)),
    decreases es,
{
    if es.len() > 0 {
        let c1 = expr_code(sc, c, es[0]);
        lemma_expr_ok(sc, c, es[0]);
        lemma_exprs_ok(sc, c1, es.subrange(1, es.len() as int));
        lemma_extends_trans(c, c1, exprs_code(sc, c, es));
    }
}

proof fn lemma_fields_ok(sc: Map<Seq<char>, usize>, c: Code, fs: Seq<(Seq<char>, ExprView)>)
    ensures
        extends_ok(c, fields_code(sc, c, fs)),
    decreases fs,
{
    if fs.len() > 0 {
        let c1 = expr_code(sc, c, fs[0].1);
        lemma_expr_ok(sc, c, fs[0].1);
        lemma_fields_ok(sc, c1, fs.subrange(1, fs.len() as int));
        lemma_extends_trans(c, c1, fields_code(sc, c, fs));
    }
}

/// The code of a statement adds only well-formed instructions.
proof fn lemma_stmt_ok(g: Gen, s: StmtView)
    requires
        g.scopes.len() >= 1,
    ensures
        extends_ok(g.code, stmt_code(g, s).code),
    decreases s,
{
    let sc = g.scopes.last();
    match s {
        StmtView::Expr(e) => {
            lemma_expr_ok(sc, g.code, e);
            lemma_extends_trans(g.code, expr_code(sc, g.code, e), stmt_code(g, s).code);
        },
        StmtView::Var(d) => {
            let c1 = match d.value {
                Some(v) => expr_code(sc, g.code, v),
                None => emit(g.code, op(OpCode::Nil)),
            };
            match d.value {
                Some(v) => lemma_expr_ok(sc, g.code, v),
                None => {},
            }
            lemma_extends_trans(g.code, c1, stmt_code(g, s).code);
        },
        StmtView::Block(b) => {
            lemma_stmts_ok(Gen { scopes: g.scopes.push(Map::empty()), code: g.code }, b);
        },
        StmtView::Return(v) => match v {
            Some(e) => {
                lemma_expr_ok(sc, g.code, e);
                lemma_extends_trans(g.code, expr_code(sc, g.code, e), stmt_code(g, s).code);
            },
            None => {},
        },
        StmtView::While(cond, body) => {
            let c1 = expr_code(sc, g.code, cond);
            lemma_expr_ok(sc, g.code, cond);
            let exit_jump = c1.instrs.len() as int;
            let c2 = emit(emit(c1, op(OpCode::JumpIfFalse)), op(OpCode::Pop));
            lemma_extends_trans(g.code, c1, c2);
            let inner = stmts_code(Gen { scopes: g.scopes, code: c2 }, body);
            lemma_stmts_ok(Gen { scopes: g.scopes, code: c2 }, body);
            lemma_extends_trans(g.code, c2, inner.code);
            let c3 = emit(inner.code, op1(OpCode::Loop, g.code.instrs.len() as usize));
            let c3p = emit(c3, op(OpCode::Pop));
            lemma_extends_trans(g.code, inner.code, c3p);
            lemma_patch_ok(g.code, c3p, exit_jump, OpCode::JumpIfFalse, (c3.instrs.len() + 1) as int);
        },
        StmtView::For(_, it, body) => {
            let c1 = emit(expr_code(sc, g.code, it), op(OpCode::Pop));
            lemma_expr_ok(sc, g.code, it);
            lemma_extends_trans(g.code, expr_code(sc, g.code, it), c1);
            lemma_stmts_ok(Gen { scopes: g.scopes.push(Map::empty()), code: c1 }, body);
            lemma_extends_trans(
                g.code,
                c1,
                stmts_code(Gen { scopes: g.scopes.push(Map::empty()), code: c1 }, body).code,
            );
        },
        StmtView::Fn(..) => {},
    }
}

/// Generating statements keeps the number of scopes.
proof fn lemma_stmts_scopes(g: Gen, ss: Seq<StmtView>)
    requires
        g.scopes.len() >= 1,
    ensures
        stmts_code(g, ss).scopes.len() == g.scopes.len(),
    decreases ss, 0int,
{
    if ss.len() > 0 {
        lemma_stmt_scopes(g, ss[0]);
        lemma_stmts_scopes(stmt_code(g, ss[0]), ss.subrange(1, ss.len() as int));
    }
}

proof fn lemma_stmt_scopes(g: Gen, s: StmtView)
    requires
        g.scopes.len() >= 1,
    ensures
        stmt_code(g, s).scopes.len() == g.scopes.len(),
    decreases s, 1int,
{
    let sc = g.scopes.last();
    match s {
        StmtView::Block(b) => lemma_stmts_scopes(Gen { scopes: g.scopes.push(Map::empty()), code: g.code }, b),
        StmtView::While(cond, body) => {
            let c1 = expr_code(sc, g.code, cond);
            let c2 = emit(emit(c1, op(OpCode::JumpIfFalse)), op(OpCode::Pop));
            lemma_stmts_scopes(Gen { scopes: g.scopes, code: c2 }, body);
        },
        StmtView::For(_, it, body) => {
            let c1 = emit(expr_code(sc, g.code, it), op(OpCode::Pop));
            lemma_stmts_scopes(Gen { scopes: g.scopes.push(Map::empty()), code: c1 }, body);
        },
        _ => {},
    }
}

proof fn lemma_stmts_ok(g: Gen, ss: Seq<StmtView>)
    requires
        g.scopes.len() >= 1,
    ensures
        extends_ok(g.code, stmts_code(g, ss).code),
    decreases ss,
{
    if ss.len() > 0 {
        let g1 = stmt_code(g, ss[0]);
        lemma_stmt_ok(g, ss[0]);
        lemma_stmt_scopes(g, ss[0]);
        lemma_stmts_ok(g1, ss.subrange(1, ss.len() as int));
        lemma_extends_trans(g.code, g1.code, stmts_code(g, ss).code);
    }
}

/// Generated code is well formed: every instruction that reads an
/// operand has one, and every constant it loads is in its pool.
pub proof fn lemma_program_code_ok(scopes: Seq<Map<Seq<char>, usize>>, ss: Seq<StmtView>)
    requires
        scopes.len() >= 1,
    ensures
        code_ok(program_code(scopes, ss).code),
        jumps_inside(program_code(scopes, ss).code),
{
    let c0 = Code { instrs: seq![], consts: seq![] };
    let g = stmts_code(Gen { scopes, code: c0 }, ss);
    lemma_stmts_ok(Gen { scopes, code: c0 }, ss);
    let r = program_code(scopes, ss).code;
    lemma_extends_trans(c0, g.code, r);
    assert forall|i: int| 0 <= i < r.instrs.len() implies instr_ok(#[trigger] r.instrs[i], r.consts.len()) by {
    }
    assert forall|i: int|
        0 <= i < r.instrs.len() && is_jump(#[trigger] r.instrs[i].opcode) && r.instrs[i].operands.len() > 0
        implies r.instrs[i].operands[0] < r.instrs.len() by {
        if i < g.code.instrs.len() {
            assert(target_at_most(g.code.instrs[i], g.code.instrs.len()));
        }
    }
}

// ---------------------------------------------------------------------
// The generator
// ---------------------------------------------------------------------

/// Compiles a syntax tree to bytecode. Each scope maps a variable's name
/// to the global slot it was given.
pub struct Codegen {
    locals: Vec<Scope<usize>>,
    #[allow(dead_code)]
    chunks: Vec<Chunk>,
    #[allow(dead_code)]
    current_chunk: usize,
}

impl Codegen {
    /// The scopes, outermost first, as maps from names to slots.
    pub closed spec fn scopes(&self) -> Seq<Map<Seq<char>, usize>> {
        self.locals@.map_values(|s: Scope<usize>| s.map())
    }

    /// There is a scope, and no scope binds a name twice.
    pub closed spec fn wf(&self) -> bool {
        &&& self.locals.len() >= 1
        &&& forall|i: int| 0 <= i < self.locals@.len() ==> #[trigger] self.locals@[i].wf()
    }

    /// The generation state: these scopes and the code in `c`.
    pub open spec fn state(&self, c: Chunk) -> Gen {
        Gen { scopes: self.scopes(), code: code_of(c) }
    }

    pub fn new() -> (g: Self)
        ensures
            g.wf(),
            g.scopes() == seq![Map::<Seq<char>, usize>::empty()],
    {
        let mut locals: Vec<Scope<usize>> = Vec::new();
        locals.push(Scope::new());
        let g = Codegen { locals, chunks: Vec::new(), current_chunk: 0 };
        assert(g.scopes() =~= seq![Map::<Seq<char>, usize>::empty()]);
        g
    }

    /// The slot of `name` in the innermost scope.
    fn slot_of(&self, name: &String) -> (r: Option<usize>)
        requires
            self.wf(),
        ensures
            r == (if self.scopes().last().contains_key(name@) {
                Some(self.scopes().last()[name@])
            } else {
                None::<usize>
            }),
    {
        let last: usize = self.locals.len() - 1;
        assert(self.locals@[last as int].wf());
        assert(self.scopes().last() == self.locals@[last as int].map());
        match self.locals[last].get(name) {
            Some(i) => Some(*i),
            None => None,
        }
    }

    /// The number of names in the innermost scope.
    fn innermost_len(&self) -> (n: usize)
        requires
            self.wf(),
        ensures
            n == self.scopes().last().dom().len(),
    {
        let last: usize = self.locals.len() - 1;
        assert(self.locals@[last as int].wf());
        assert(self.scopes().last() == self.locals@[last as int].map());
        self.locals[last].len()
    }

    /// Binds `name` to `slot` in the innermost scope.
    fn bind(&mut self, name: String, slot: usize)
        requires
            old(self).wf(),
        ensures
            final(self).wf(),
            final(self).locals.len() == old(self).locals.len(),
            final(self).scopes() == old(self).scopes().update(
                old(self).scopes().len() - 1,
                old(self).scopes().last().insert(name@, slot),
            ),
    {
        let ghost n = name@;
        let last: usize = self.locals.len() - 1;
        assert(self.locals@[last as int].wf());
        let mut top = self.locals.pop().unwrap();
        top.insert(name, slot);
        self.locals.push(top);
        assert(self.scopes() =~= old(self).scopes().update(
            old(self).scopes().len() - 1,
            old(self).scopes().last().insert(n, slot),
        ));
    }

    fn push_scope(&mut self)
        requires
            old(self).wf(),
        ensures
            final(self).wf(),
            final(self).locals.len() == old(self).locals.len() + 1,
            final(self).scopes() == old(self).scopes().push(Map::empty()),
    {
        self.locals.push(Scope::new());
        assert(self.scopes() =~= old(self).scopes().push(Map::empty()));
    }

    fn pop_scope(&mut self)
        requires
            old(self).wf(),
            old(self).locals.len() >= 2,
        ensures
            final(self).wf(),
            final(self).locals.len() == old(self).locals.len() - 1,
            final(self).scopes() == old(self).scopes().drop_last(),
    {
        self.locals.pop();
        assert(self.scopes() =~= old(self).scopes().drop_last());
    }

    fn compile_expr(&self, expr: &Expr, chunk: &mut Chunk)
        requires
            self.wf(),
        ensures
            final(chunk).name == old(chunk).name,
            old(chunk).instructions@.len() <= final(chunk).instructions@.len(),
            code_of(*final(chunk)) == expr_code(self.scopes().last(), code_of(*old(chunk)), expr_v(*expr)),
        decreases expr, 1int,
    {
        match expr {
            Expr::Int(v) => chunk.load(Constant::Int(*v)),
            Expr::Bool(b) => {
                if *b {
                    chunk.emit_op(OpCode::True);
                } else {
                    chunk.emit_op(OpCode::False);
                }
            },
            Expr::String(s) => chunk.load(Constant::String(s.clone())),
            Expr::Null => chunk.emit_op(OpCode::Nil),
            Expr::Identifier(name) => match self.slot_of(name) {
                Some(i) => chunk.emit_op1(OpCode::GetGlobal, i),
                None => chunk.emit_op(OpCode::Nil),
            },
            Expr::Binary { left, operator, right } => {
                self.compile_expr(left, chunk);
                self.compile_expr(right, chunk);
                let ghost c2 = code_of(*chunk);
                match operator {
                    BinaryOp::Add => chunk.emit_op(OpCode::Add),
                    BinaryOp::Sub => chunk.emit_op(OpCode::Subtract),
                    BinaryOp::Mul => chunk.emit_op(OpCode::Multiply),
                    BinaryOp::Div => chunk.emit_op(OpCode::Divide),
                    BinaryOp::Mod => chunk.emit_op(OpCode::Mod),
                    BinaryOp::Equal => chunk.emit_op(OpCode::Equal),
                    BinaryOp::NotEqual => {
                        chunk.emit_op(OpCode::Equal);
                        chunk.emit_op(OpCode::Not);
                    },
                    BinaryOp::Less => chunk.emit_op(OpCode::Less),
                    BinaryOp::Greater => chunk.emit_op(OpCode::Greater),
                    BinaryOp::LessEqual => {
                        chunk.emit_op(OpCode::Greater);
                        chunk.emit_op(OpCode::Not);
                    },
                    BinaryOp::GreaterEqual => {
                        chunk.emit_op(OpCode::Less);
                        chunk.emit_op(OpCode::Not);
                    },
                    BinaryOp::And | BinaryOp::Or => chunk.emit_op(OpCode::Pop),
                }
                assert(code_of(*chunk).instrs =~= c2.instrs + binop_code(*operator));
            },
            Expr::Unary { operator, right } => {
                self.compile_expr(right, chunk);
                match operator {
                    UnaryOp::Negate => chunk.emit_op(OpCode::Negate),
                    UnaryOp::Not => chunk.emit_op(OpCode::Not),
                }
            },
            Expr::Assignment { target, value } => {
                self.compile_expr(value, chunk);
                match &**target {
                    Expr::Identifier(name) => {
                        assert(expr_v(**target) == ExprView::Ident(name@));
                        match self.slot_of(name) {
                            Some(i) => chunk.emit_op1(OpCode::SetGlobal, i),
                            None => {},
                        }
                    },
                    _ => {
                        assert(!(expr_v(**target) is Ident));
                    },
                }
            },
            Expr::Call { callee, args } => {
                self.compile_expr(callee, chunk);
                self.compile_args(args, chunk);
                proof {
                    crate::ast::lemma_exprs_v_index(args@);
                }
                chunk.emit_op1(OpCode::Call, args.len());
            },
            Expr::If { condition, then_branch, else_branch } => {
                self.compile_expr(condition, chunk);
                let else_jump = chunk.instructions.len();
                chunk.emit_op(OpCode::JumpIfFalse);
                chunk.emit_op(OpCode::Pop);
                self.compile_expr(then_branch, chunk);
                let end_jump = chunk.instructions.len();
                chunk.emit_op(OpCode::Jump);
                let else_pos = chunk.instructions.len();
                chunk.patch_jump(else_jump, OpCode::JumpIfFalse, else_pos);
                chunk.emit_op(OpCode::Pop);
                match else_branch {
                    Some(e) => self.compile_expr(e, chunk),
                    None => chunk.emit_op(OpCode::Nil),
                }
                let end_pos = chunk.instructions.len();
                chunk.patch_jump(end_jump, OpCode::Jump, end_pos);
            },
            Expr::FieldAccess { object, .. } => self.compile_expr(object, chunk),
            Expr::StructLiteral { fields, .. } => self.compile_fields(fields, chunk),
            Expr::Match { .. } => {},
            Expr::Array(_) => {},
            Expr::Tuple(_) => {},
        }
    }

    /// Compiles expressions in order.
    fn compile_args(&self, args: &Vec<Expr>, chunk: &mut Chunk)
        requires
            self.wf(),
        ensures
            final(chunk).name == old(chunk).name,
            old(chunk).instructions@.len() <= final(chunk).instructions@.len(),
            code_of(*final(chunk)) == exprs_code(self.scopes().last(), code_of(*old(chunk)), exprs_v(args@)),
        decreases args@, 0int,
    {
        let ghost sc = self.scopes().last();
        let ghost es = exprs_v(args@);
        proof {
            crate::ast::lemma_exprs_v_index(args@);
        }
        assert(es.skip(0) =~= es);
        let mut i: usize = 0;
        while i < args.len()
            invariant
                self.wf(),
                sc == self.scopes().last(),
                i <= args.len(),
                es.len() == args.len(),
                forall|j: int| 0 <= j < args.len() ==> #[trigger] es[j] == expr_v(args@[j]),
                chunk.name == old(chunk).name,
                old(chunk).instructions@.len() <= chunk.instructions@.len(),
                exprs_code(sc, code_of(*old(chunk)), es) == exprs_code(sc, code_of(*chunk), es.skip(i as int)),
            decreases args.len() - i,
        {
            assert(decreases_to!(args@ => args@[i as int]));
            assert(es.skip(i as int).subrange(1, es.skip(i as int).len() as int) =~= es.skip(i + 1));
            assert(es.skip(i as int)[0] == expr_v(args@[i as int]));
            self.compile_expr(&args[i], chunk);
            i = i + 1;
        }
        assert(es.skip(i as int) =~= Seq::<ExprView>::empty());
    }

    /// Compiles the values of a struct literal's fields in order.
    fn compile_fields(&self, fields: &Vec<(String, Expr)>, chunk: &mut Chunk)
        requires
            self.wf(),
        ensures
            final(chunk).name == old(chunk).name,
            old(chunk).instructions@.len() <= final(chunk).instructions@.len(),
            code_of(*final(chunk)) == fields_code(self.scopes().last(), code_of(*old(chunk)), fields_v(fields@)),
        decreases fields@, 0int,
    {
        let ghost sc = self.scopes().last();
        let ghost fs = fields_v(fields@);
        proof {
            crate::ast::lemma_fields_v_index(fields@);
        }
        assert(fs.skip(0) =~= fs);
        let mut i: usize = 0;
        while i < fields.len()
            invariant
                self.wf(),
                sc == self.scopes().last(),
                i <= fields.len(),
                fs.len() == fields.len(),
                forall|j: int| 0 <= j < fields.len() ==> #[trigger] fs[j] == (fields@[j].0@, expr_v(fields@[j].1)),
                chunk.name == old(chunk).name,
                old(chunk).instructions@.len() <= chunk.instructions@.len(),
                fields_code(sc, code_of(*old(chunk)), fs) == fields_code(sc, code_of(*chunk), fs.skip(i as int)),
            decreases fields.len() - i,
        {
            assert(decreases_to!(fields@ => fields@[i as int]));
            assert(decreases_to!(fields@[i as int] => fields@[i as int].1));
            assert(fs.skip(i as int).subrange(1, fs.skip(i as int).len() as int) =~= fs.skip(i + 1));
            assert(fs.skip(i as int)[0] == fs[i as int]);
            self.compile_expr(&fields[i].1, chunk);
            i = i + 1;
        }
        assert(fs.skip(i as int) =~= Seq::<(Seq<char>, ExprView)>::empty());
    }

    fn compile_stmt(&mut self, stmt: &Stmt, chunk: &mut Chunk)
        requires
            old(self).wf(),
        ensures
            final(self).wf(),
            final(self).locals.len() == old(self).locals.len(),
            final(chunk).name == old(chunk).name,
            old(chunk).instructions@.len() <= final(chunk).instructions@.len(),
            final(self).state(*final(chunk)) == stmt_code(old(self).state(*old(chunk)), stmt_v(*stmt)),
        decreases stmt, 1int,
    {
        match stmt {
            Stmt::Expression(expr) => {
                self.compile_expr(expr, chunk);
                chunk.emit_op(OpCode::Pop);
            },
            Stmt::VarDeclaration(decl) => {
                match &decl.value {
                    Some(val) => self.compile_expr(val, chunk),
                    None => chunk.emit_op(OpCode::Nil),
                }
                let idx = self.innermost_len();
                self.bind(decl.name.clone(), idx);
                chunk.emit_op1(OpCode::DefineGlobal, idx);
            },
            Stmt::Block(stmts) => {
                self.push_scope();
                self.compile_block(stmts, chunk);
                self.pop_scope();
            },
            Stmt::Return(val) => match val {
                Some(expr) => {
                    self.compile_expr(expr, chunk);
                    chunk.emit_op(OpCode::ReturnValue);
                },
                None => chunk.emit_op(OpCode::Return),
            },
            Stmt::While(condition, body) => {
                let loop_start = chunk.instructions.len();
                self.compile_expr(condition, chunk);
                let exit_jump = chunk.instructions.len();
                chunk.emit_op(OpCode::JumpIfFalse);
                chunk.emit_op(OpCode::Pop);
                self.compile_block(body, chunk);
                chunk.emit_op1(OpCode::Loop, loop_start);
                chunk.emit_op(OpCode::Pop);
                let after_pop = chunk.instructions.len();
                chunk.patch_jump(exit_jump, OpCode::JumpIfFalse, after_pop);
            },
            Stmt::For { iter, body, .. } => {
                self.compile_expr(iter, chunk);
                chunk.emit_op(OpCode::Pop);
                self.push_scope();
                self.compile_block(body, chunk);
                self.pop_scope();
            },
            Stmt::FnDeclaration(_) => {},
        }
    }

    /// Compiles statements in order.
    fn compile_block(&mut self, stmts: &Vec<Stmt>, chunk: &mut Chunk)
        requires
            old(self).wf(),
        ensures
            final(self).wf(),
            final(self).locals.len() == old(self).locals.len(),
            final(chunk).name == old(chunk).name,
            old(chunk).instructions@.len() <= final(chunk).instructions@.len(),
            final(self).state(*final(chunk)) == stmts_code(old(self).state(*old(chunk)), stmts_v(stmts@)),
        decreases stmts@, 0int,
    {
        let ghost ss = stmts_v(stmts@);
        proof {
            crate::ast::lemma_stmts_v_index(stmts@);
        }
        assert(ss.skip(0) =~= ss);
        let mut i: usize = 0;
        while i < stmts.len()
            invariant
                self.wf(),
                self.locals.len() == old(self).locals.len(),
                i <= stmts.len(),
                ss.len() == stmts.len(),
                forall|j: int| 0 <= j < stmts.len() ==> #[trigger] ss[j] == stmt_v(stmts@[j]),
                chunk.name == old(chunk).name,
                old(chunk).instructions@.len() <= chunk.instructions@.len(),
                stmts_code(old(self).state(*old(chunk)), ss) == stmts_code(self.state(*chunk), ss.skip(i as int)),
            decreases stmts.len() - i,
        {
            assert(decreases_to!(stmts@ => stmts@[i as int]));
            assert(ss.skip(i as int).subrange(1, ss.skip(i as int).len() as int) =~= ss.skip(i + 1));
            assert(ss.skip(i as int)[0] == stmt_v(stmts@[i as int]));
            self.compile_stmt(&stmts[i], chunk);
            i = i + 1;
        }
        assert(ss.skip(i as int) =~= Seq::<StmtView>::empty());
    }

    fn compile_program(&mut self, program: &Program, chunk: &mut Chunk)
        requires
            old(self).wf(),
        ensures
            final(self).wf(),
            final(chunk).name == old(chunk).name,
            final(self).scopes() == stmts_code(old(self).state(*old(chunk)), stmts_v(program.stmts@)).scopes,
            code_of(*final(chunk)) == emit(
                emit(stmts_code(old(self).state(*old(chunk)), stmts_v(program.stmts@)).code, op(OpCode::Nil)),
                op(OpCode::Return),
            ),
    {
        self.compile_block(&program.stmts, chunk);
        chunk.emit_op(OpCode::Nil);
        chunk.emit_op(OpCode::Return);
    }

    /// Compiles a program to one chunk named `main`: the code of its
    /// statements, then `Nil` and `Return`. Variables declared at the top
    /// level stay bound for a later call.
    pub fn generate(&mut self, program: &Program) -> (r: Result<Vec<Chunk>, String>)
        requires
            old(self).wf(),
        ensures
            final(self).wf(),
            final(self).scopes() == program_code(old(self).scopes(), stmts_v(program.stmts@)).scopes,
            match r {
                Ok(chunks) => {
                    &&& chunks@.len() == 1
                    &&& chunks@[0].name@ == "main"@
                    &&& code_of(chunks@[0]) == program_code(old(self).scopes(), stmts_v(program.stmts@)).code
                    &&& code_ok(code_of(chunks@[0]))
                    &&& jumps_inside(code_of(chunks@[0]))
                },
                Err(_) => false,
            },
    {
        let mut main_chunk = Chunk::new("main");
        assert(code_of(main_chunk).instrs =~= Seq::<InstrView>::empty());
        assert(code_of(main_chunk).consts =~= Seq::<ConstView>::empty());
        self.compile_program(program, &mut main_chunk);
        proof {
            lemma_program_code_ok(old(self).scopes(), stmts_v(program.stmts@));
        }
        let mut chunks: Vec<Chunk> = Vec::new();
        chunks.push(main_chunk);
        Ok(chunks)
    }
}

} // verus!
