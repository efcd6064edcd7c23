//! Source text through the whole pipeline: lexing, parsing, type
//! checking, code generation and running, with the lines a front end
//! shows for each outcome.

use vstd::prelude::*;
use crate::chunk::{Chunk as VmChunk, ChunkView};
use crate::ast::{BinaryOp, ExprView, StmtView, UnaryOp, VarDeclView};
use crate::codegen::{Code, Codegen, Gen, binop_code, emit, expr_code, patch, program_code, stmt_code, stmts_code};
use crate::instruction::{ConstView, OpCode, op, op1};
use crate::vm::Step;
use crate::vm::step;
use crate::lexer::{spec_tokenize, tokenize};
use crate::parser::{Parser, p_program};
use crate::text::{append_str, decimal, push_decimal, string_from_str};
use crate::token::{TokenView, kind_name, tokens_view};
use crate::type_checker::TypeChecker;
use crate::value::{ValueView, const_value, value_text};
use crate::vm::{Machine, STEP_LIMIT, VM, run, run_state};
use crate::text::debug_quoted;

verus! {

/// A line of a report, for standard output or for standard error.
#[derive(Debug)]
pub enum Line {
    Stdout(String),
    Stderr(String),
}

/// The model of a line.
pub enum LineView {
    Stdout(Seq<char>),
    Stderr(Seq<char>),
}

impl View for Line {
    type V = LineView;

    open spec fn view(&self) -> LineView {
        match self {
            Line::Stdout(s) => LineView::Stdout(s@),
            Line::Stderr(s) => LineView::Stderr(s@),
        }
    }
}

pub open spec fn lines_view(s: Seq<Line>) -> Seq<LineView> {
    s.map_values(|l: Line| l@)
}

/// Printed lines, each on standard output.
pub open spec fn outs(o: Seq<Seq<char>>) -> Seq<LineView> {
    o.map_values(|s: Seq<char>| LineView::Stdout(s))
}

/// A machine that has not run yet.
pub open spec fn fresh_machine() -> Machine {
    Machine { stack: seq![], globals: Map::empty(), ip: 0, output: seq![] }
}

/// Generated code with its constants turned into values.
pub open spec fn runnable(code: Code) -> ChunkView {
    ChunkView { instructions: code.instrs, constants: code.consts.map_values(|k| const_value(k)) }
}

/// The lines of running `code` on a fresh machine: what it printed, then
/// its result or its error (the step limit being one).
pub open spec fn run_report(code: Code) -> Seq<LineView> {
    match run(runnable(code), fresh_machine(), STEP_LIMIT as nat) {
        Some((Ok(v), m)) => outs(m.output).push(LineView::Stdout(value_text(v))),
        Some((Err(e), m)) => outs(m.output).push(LineView::Stderr("Runtime error: "@ + e)),
        None => outs(run_state(runnable(code), fresh_machine(), STEP_LIMIT as nat).output).push(
            LineView::Stderr("Runtime error: "@ + "step limit reached"@),
        ),
    }
}

/// The lines for source text `src`: the lexical or syntax error, or the
/// lines of running its code.
pub open spec fn report(src: Seq<char>) -> Seq<LineView> {
    match spec_tokenize(src) {
        Err(e) => seq![LineView::Stderr("Lex error: "@ + e)],
        Ok(t) => match p_program(t, 0, seq![]) {
            Err(m) => seq![LineView::Stderr("Parse error: "@ + m)],
            Ok((ss, _)) => run_report(program_code(seq![Map::empty()], ss).code),
        },
    }
}

/// What a comparison, or `+`, `-` or `*`, means on two integers, where
/// the result fits in an `i64`.
pub open spec fn int_meaning(o: BinaryOp, a: i64, b: i64) -> Option<ValueView> {
    match o {
        BinaryOp::Add => if i64::MIN <= a + b <= i64::MAX {
            Some(ValueView::Int((a + b) as i64))
        } else {
            None
        },
        BinaryOp::Sub => if i64::MIN <= a - b <= i64::MAX {
            Some(ValueView::Int((a - b) as i64))
        } else {
            None
        },
        BinaryOp::Mul => if i64::MIN <= a * b <= i64::MAX {
            Some(ValueView::Int((a * b) as i64))
        } else {
            None
        },
        BinaryOp::Equal => Some(ValueView::Bool(a == b)),
        BinaryOp::NotEqual => Some(ValueView::Bool(a != b)),
        BinaryOp::Less => Some(ValueView::Bool(a < b)),
        BinaryOp::Greater => Some(ValueView::Bool(a > b)),
        BinaryOp::LessEqual => Some(ValueView::Bool(a <= b)),
        BinaryOp::GreaterEqual => Some(ValueView::Bool(a >= b)),
        _ => None,
    }
}

/// The program `return a <op> b`, for integer literals `a` and `b`.
pub open spec fn return_binary(a: i64, o: BinaryOp, b: i64) -> Seq<StmtView> {
    seq![StmtView::Return(Some(ExprView::Binary(Box::new(ExprView::Int(a)), o, Box::new(ExprView::Int(b)))))]
}

/// Generated code computes what operators mean: running the code of
/// `return a <op> b` on a fresh machine returns the operator's value on
/// the two integers.
pub proof fn lemma_binary_code_runs(a: i64, o: BinaryOp, b: i64)
    ensures
        int_meaning(o, a, b) matches Some(v) ==> run(
            runnable(program_code(seq![Map::empty()], return_binary(a, o, b)).code),
            fresh_machine(),
            STEP_LIMIT as nat,
        ) matches Some((Ok(r), _)) && r == v,
{
    if int_meaning(o, a, b) is Some {
        let v = int_meaning(o, a, b)->0;
        let sc = Map::<Seq<char>, usize>::empty();
        let c0 = Code { instrs: seq![], consts: seq![] };
        let c2 = expr_code(sc, expr_code(sc, c0, ExprView::Int(a)), ExprView::Int(b));
        assert(c2.instrs =~= seq![op1(OpCode::Constant, 0), op1(OpCode::Constant, 1)]);
        assert(c2.consts =~= seq![ConstView::Int(a), ConstView::Int(b)]);
        let code = program_code(seq![Map::empty()], return_binary(a, o, b)).code;
        let ss = return_binary(a, o, b);
        let g0 = Gen { scopes: seq![sc], code: c0 };
        assert(ss.subrange(1, ss.len() as int) =~= Seq::<StmtView>::empty());
        assert(stmts_code(stmt_code(g0, ss[0]), Seq::<StmtView>::empty()) == stmt_code(g0, ss[0]));
        assert(stmts_code(g0, ss) == stmt_code(g0, ss[0]));
        let ops = binop_code(o);
        let body = c2.instrs + ops;
        assert(code.instrs =~= body.push(op(OpCode::ReturnValue)).push(op(OpCode::Nil)).push(op(OpCode::Return)));
        assert(code.consts =~= seq![ConstView::Int(a), ConstView::Int(b)]);
        let c = runnable(code);
        assert(c.constants[0] == ValueView::Int(a));
        assert(c.constants[1] == ValueView::Int(b));
        let m0 = fresh_machine();
        let m1 = Machine { stack: seq![ValueView::Int(a)], ip: 1, ..m0 };
        let m2 = Machine { stack: seq![ValueView::Int(a), ValueView::Int(b)], ip: 2, ..m0 };
        assert(step(c, m0) == Step::Next(m1));
        assert(seq![ValueView::Int(a)].push(ValueView::Int(b)) =~= seq![ValueView::Int(a), ValueView::Int(b)]);
        assert(step(c, m1) == Step::Next(m2));
        let f = STEP_LIMIT as nat;
        assert(run(c, m0, f) == run(c, m1, (f - 1) as nat));
        assert(run(c, m1, (f - 1) as nat) == run(c, m2, (f - 2) as nat));
        let m3_val: ValueView = match o {
            BinaryOp::NotEqual => ValueView::Bool(a == b),
            BinaryOp::LessEqual => ValueView::Bool(a > b),
            BinaryOp::GreaterEqual => ValueView::Bool(a < b),
            _ => v,
        };
        assert(m2.stack.drop_last().drop_last() =~= Seq::<ValueView>::empty());
        crate::vm::lemma_int_operations(c, m2, a, b);
        let m3 = Machine { stack: seq![m3_val], ip: 3, ..m0 };
        assert(step(c, m2) == Step::Next(m3));
        assert(run(c, m2, (f - 2) as nat) == run(c, m3, (f - 3) as nat));
        assert(seq![m3_val].drop_last() =~= Seq::<ValueView>::empty());
        assert(seq![v].drop_last() =~= Seq::<ValueView>::empty());
        assert(Seq::<ValueView>::empty().push(v) =~= seq![v]);
        if ops.len() == 2 {
            assert(c.instructions[3] == op(OpCode::Not));
            assert(c.instructions[4] == op(OpCode::ReturnValue));
            let m4 = Machine { stack: seq![v], ip: 4, ..m0 };
            assert(step(c, m3) == Step::Next(m4));
            assert(run(c, m3, (f - 3) as nat) == run(c, m4, (f - 4) as nat));
            assert(step(c, m4) == Step::Halt(Ok(v), Machine { stack: seq![], ip: 5, ..m0 }));
        } else {
            assert(c.instructions[3] == op(OpCode::ReturnValue));
            assert(step(c, m3) == Step::Halt(Ok(v), Machine { stack: seq![], ip: 4, ..m0 }));
        }
    }
}

/// Generated code negates: running the code of `return -a` returns the
/// integer `-a` (for every `a` but the least, whose negation does not
/// fit), and the code of `return !b` returns the boolean `!b`.
pub proof fn lemma_unary_code_runs(a: i64, b: bool)
    ensures
        a != i64::MIN ==> (run(
            runnable(program_code(seq![Map::empty()], seq![StmtView::Return(Some(ExprView::Unary(
                UnaryOp::Negate,
                Box::new(ExprView::Int(a)),
            )))]).code),
            fresh_machine(),
            STEP_LIMIT as nat,
        ) matches Some((Ok(r), _)) && r == ValueView::Int(-a as i64)),
        run(
            runnable(program_code(seq![Map::empty()], seq![StmtView::Return(Some(ExprView::Unary(
                UnaryOp::Not,
                Box::new(ExprView::Bool(b)),
            )))]).code),
            fresh_machine(),
            STEP_LIMIT as nat,
        ) matches Some((Ok(r), _)) && r == ValueView::Bool(!b),
{
    let sc = Map::<Seq<char>, usize>::empty();
    let c0 = Code { instrs: seq![], consts: seq![] };
    let g0 = Gen { scopes: seq![sc], code: c0 };
    let f = STEP_LIMIT as nat;
    let m0 = fresh_machine();
    let e = Seq::<ValueView>::empty();
    // -a
    let ss = seq![StmtView::Return(Some(ExprView::Unary(UnaryOp::Negate, Box::new(ExprView::Int(a)))))];
    assert(ss.subrange(1, ss.len() as int) =~= Seq::<StmtView>::empty());
    assert(stmts_code(stmt_code(g0, ss[0]), Seq::<StmtView>::empty()) == stmt_code(g0, ss[0]));
    let ca = expr_code(sc, c0, ExprView::Int(a));
    assert(ca.instrs =~= seq![op1(OpCode::Constant, 0)]);
    assert(ca.consts =~= seq![ConstView::Int(a)]);
    let cu = expr_code(sc, c0, ExprView::Unary(UnaryOp::Negate, Box::new(ExprView::Int(a))));
    assert(cu == emit(ca, op(OpCode::Negate)));
    let code = program_code(seq![Map::empty()], ss).code;
    assert(code.instrs =~= seq![
        op1(OpCode::Constant, 0),
        op(OpCode::Negate),
        op(OpCode::ReturnValue),
        op(OpCode::Nil),
        op(OpCode::Return),
    ]);
    assert(code.consts =~= seq![ConstView::Int(a)]);
    let c = runnable(code);
    assert(c.constants[0] == ValueView::Int(a));
    assert(e.push(ValueView::Int(a)) =~= seq![ValueView::Int(a)]);
    assert(seq![ValueView::Int(a)].drop_last() =~= e);
    let m1 = Machine { stack: seq![ValueView::Int(a)], ip: 1, ..m0 };
    assert(step(c, m0) == Step::Next(m1));
    assert(run(c, m0, f) == run(c, m1, (f - 1) as nat));
    if a != i64::MIN {
        let v = ValueView::Int(-a as i64);
        assert(e.push(v) =~= seq![v]);
        assert(seq![v].drop_last() =~= e);
        let m2 = Machine { stack: seq![v], ip: 2, ..m0 };
        assert(step(c, m1) == Step::Next(m2));
        assert(run(c, m1, (f - 1) as nat) == run(c, m2, (f - 2) as nat));
        assert(step(c, m2) == Step::Halt(Ok(v), Machine { stack: e, ip: 3, ..m0 }));
    }
    // !b
    let ss = seq![StmtView::Return(Some(ExprView::Unary(UnaryOp::Not, Box::new(ExprView::Bool(b)))))];
    assert(ss.subrange(1, ss.len() as int) =~= Seq::<StmtView>::empty());
    assert(stmts_code(stmt_code(g0, ss[0]), Seq::<StmtView>::empty()) == stmt_code(g0, ss[0]));
    let lit = if b { OpCode::True } else { OpCode::False };
    let cb = expr_code(sc, c0, ExprView::Bool(b));
    assert(cb.instrs =~= seq![op(lit)]);
    let cn = expr_code(sc, c0, ExprView::Unary(UnaryOp::Not, Box::new(ExprView::Bool(b))));
    assert(cn == emit(cb, op(OpCode::Not)));
    let code = program_code(seq![Map::empty()], ss).code;
    assert(code.instrs =~= seq![op(lit), op(OpCode::Not), op(OpCode::ReturnValue), op(OpCode::Nil), op(OpCode::Return)]);
    let c = runnable(code);
    let w = ValueView::Bool(b);
    let v = ValueView::Bool(!b);
    assert(e.push(w) =~= seq![w]);
    assert(seq![w].drop_last() =~= e);
    assert(e.push(v) =~= seq![v]);
    assert(seq![v].drop_last() =~= e);
    let m1 = Machine { stack: seq![w], ip: 1, ..m0 };
    let m2 = Machine { stack: seq![v], ip: 2, ..m0 };
    assert(step(c, m0) == Step::Next(m1));
    assert(run(c, m0, f) == run(c, m1, (f - 1) as nat));
    assert(step(c, m1) == Step::Next(m2));
    assert(run(c, m1, (f - 1) as nat) == run(c, m2, (f - 2) as nat));
    assert(step(c, m2) == Step::Halt(Ok(v), Machine { stack: e, ip: 3, ..m0 }));
}

/// Generated code chooses: running the code of
/// `return if c { a } else { b }` returns `a` when `c` holds and `b`
/// otherwise.
pub proof fn lemma_if_code_runs(cond: bool, a: i64, b: i64)
    ensures
        run(
            runnable(program_code(seq![Map::empty()], seq![StmtView::Return(Some(ExprView::If(
                Box::new(ExprView::Bool(cond)),
                Box::new(ExprView::Int(a)),
                Some(Box::new(ExprView::Int(b))),
            )))]).code),
            fresh_machine(),
            STEP_LIMIT as nat,
        ) matches Some((Ok(r), _)) && r == ValueView::Int(if cond { a } else { b }),
{
    let sc = Map::<Seq<char>, usize>::empty();
    let c0 = Code { instrs: seq![], consts: seq![] };
    let g0 = Gen { scopes: seq![sc], code: c0 };
    let f = STEP_LIMIT as nat;
    let m0 = fresh_machine();
    let e = Seq::<ValueView>::empty();
    let ss = seq![StmtView::Return(Some(ExprView::If(
        Box::new(ExprView::Bool(cond)),
        Box::new(ExprView::Int(a)),
        Some(Box::new(ExprView::Int(b))),
    )))];
    assert(ss.subrange(1, ss.len() as int) =~= Seq::<StmtView>::empty());
    assert(stmts_code(stmt_code(g0, ss[0]), Seq::<StmtView>::empty()) == stmt_code(g0, ss[0]));
    let lit = if cond { OpCode::True } else { OpCode::False };
    let c1 = expr_code(sc, c0, ExprView::Bool(cond));
    assert(c1.instrs =~= seq![op(lit)]);
    let c2 = emit(emit(c1, op(OpCode::JumpIfFalse)), op(OpCode::Pop));
    let c3 = expr_code(sc, c2, ExprView::Int(a));
    assert(c3.instrs =~= seq![op(lit), op(OpCode::JumpIfFalse), op(OpCode::Pop), op1(OpCode::Constant, 0)]);
    assert(c3.consts =~= seq![ConstView::Int(a)]);
    let c4 = emit(c3, op(OpCode::Jump));
    let c5 = emit(patch(c4, 1, OpCode::JumpIfFalse, 5), op(OpCode::Pop));
    let c6 = expr_code(sc, c5, ExprView::Int(b));
    assert(c6.instrs =~= seq![
        op(lit),
        op1(OpCode::JumpIfFalse, 5),
        op(OpCode::Pop),
        op1(OpCode::Constant, 0),
        op(OpCode::Jump),
        op(OpCode::Pop),
        op1(OpCode::Constant, 1),
    ]);
    assert(c6.consts =~= seq![ConstView::Int(a), ConstView::Int(b)]);
    let ci = expr_code(sc, c0, ss[0]->Return_0->Some_0);
    assert(ci == patch(c6, 4, OpCode::Jump, 7));
    let code = program_code(seq![Map::empty()], ss).code;
    assert(code.instrs =~= seq![
        op(lit),
        op1(OpCode::JumpIfFalse, 5),
        op(OpCode::Pop),
        op1(OpCode::Constant, 0),
        op1(OpCode::Jump, 7),
        op(OpCode::Pop),
        op1(OpCode::Constant, 1),
        op(OpCode::ReturnValue),
        op(OpCode::Nil),
        op(OpCode::Return),
    ]);
    assert(code.consts =~= seq![ConstView::Int(a), ConstView::Int(b)]);
    let c = runnable(code);
    assert(c.constants[0] == ValueView::Int(a));
    assert(c.constants[1] == ValueView::Int(b));
    let w = ValueView::Bool(cond);
    let v = ValueView::Int(if cond { a } else { b });
    assert(e.push(w) =~= seq![w]);
    assert(seq![w].drop_last() =~= e);
    assert(e.push(v) =~= seq![v]);
    assert(seq![v].drop_last() =~= e);
    let m1 = Machine { stack: seq![w], ip: 1, ..m0 };
    assert(step(c, m0) == Step::Next(m1));
    assert(run(c, m0, f) == run(c, m1, (f - 1) as nat));
    if cond {
        let m2 = Machine { stack: seq![w], ip: 2, ..m0 };
        let m3 = Machine { stack: e, ip: 3, ..m0 };
        let m4 = Machine { stack: seq![v], ip: 4, ..m0 };
        let m7 = Machine { stack: seq![v], ip: 7, ..m0 };
        assert(step(c, m1) == Step::Next(m2));
        assert(run(c, m1, (f - 1) as nat) == run(c, m2, (f - 2) as nat));
        assert(step(c, m2) == Step::Next(m3));
        assert(run(c, m2, (f - 2) as nat) == run(c, m3, (f - 3) as nat));
        assert(step(c, m3) == Step::Next(m4));
        assert(run(c, m3, (f - 3) as nat) == run(c, m4, (f - 4) as nat));
        assert(step(c, m4) == Step::Next(m7));
        assert(run(c, m4, (f - 4) as nat) == run(c, m7, (f - 5) as nat));
        assert(step(c, m7) == Step::Halt(Ok(v), Machine { stack: e, ip: 8, ..m0 }));
    } else {
        let m5 = Machine { stack: seq![w], ip: 5, ..m0 };
        let m6 = Machine { stack: e, ip: 6, ..m0 };
        let m7 = Machine { stack: seq![v], ip: 7, ..m0 };
        assert(step(c, m1) == Step::Next(m5));
        assert(run(c, m1, (f - 1) as nat) == run(c, m5, (f - 2) as nat));
        assert(step(c, m5) == Step::Next(m6));
        assert(run(c, m5, (f - 2) as nat) == run(c, m6, (f - 3) as nat));
        assert(step(c, m6) == Step::Next(m7));
        assert(run(c, m6, (f - 3) as nat) == run(c, m7, (f - 4) as nat));
        assert(step(c, m7) == Step::Halt(Ok(v), Machine { stack: e, ip: 8, ..m0 }));
    }
}

/// Generated code keeps variables: running the code of
/// `let x = a` followed by `return x` returns `a`.
pub proof fn lemma_variable_code_runs(x: Seq<char>, a: i64)
    ensures
        run(
            runnable(program_code(seq![Map::empty()], seq![
                StmtView::Var(VarDeclView {
                    name: x,
                    type_annotation: None,
                    value: Some(ExprView::Int(a)),
                    constant: false,
                    mutable: false,
                }),
                StmtView::Return(Some(ExprView::Ident(x))),
            ]).code),
            fresh_machine(),
            STEP_LIMIT as nat,
        ) matches Some((Ok(r), _)) && r == ValueView::Int(a),
{
    let sc = Map::<Seq<char>, usize>::empty();
    let c0 = Code { instrs: seq![], consts: seq![] };
    let g0 = Gen { scopes: seq![sc], code: c0 };
    let d = VarDeclView { name: x, type_annotation: None, value: Some(ExprView::Int(a)), constant: false, mutable: false };
    let ss = seq![StmtView::Var(d), StmtView::Return(Some(ExprView::Ident(x)))];
    let ca = expr_code(sc, c0, ExprView::Int(a));
    assert(ca.instrs =~= seq![op1(OpCode::Constant, 0)]);
    assert(ca.consts =~= seq![ConstView::Int(a)]);
    assert(sc.dom() =~= Set::<Seq<char>>::empty());
    assert(sc.dom().len() == 0);
    let g1 = stmt_code(g0, ss[0]);
    let sc1 = sc.insert(x, 0usize);
    assert(g1.scopes =~= seq![sc1]);
    assert(g1.code.instrs =~= seq![op1(OpCode::Constant, 0), op1(OpCode::DefineGlobal, 0)]);
    assert(g1.scopes.last() == sc1);
    let g2 = stmt_code(g1, ss[1]);
    assert(g2.code.instrs =~= seq![
        op1(OpCode::Constant, 0),
        op1(OpCode::DefineGlobal, 0),
        op1(OpCode::GetGlobal, 0),
        op(OpCode::ReturnValue),
    ]);
    let rest = ss.subrange(1, ss.len() as int);
    assert(rest =~= seq![ss[1]]);
    assert(rest.subrange(1, rest.len() as int) =~= Seq::<StmtView>::empty());
    assert(stmts_code(g2, Seq::<StmtView>::empty()) == g2);
    assert(stmts_code(g1, rest) == g2);
    assert(stmts_code(g0, ss) == g2);
    let code = program_code(seq![Map::empty()], ss).code;
    assert(code.consts =~= seq![ConstView::Int(a)]);
    let c = runnable(code);
    assert(c.constants[0] == ValueView::Int(a));
    let f = STEP_LIMIT as nat;
    let m0 = fresh_machine();
    let e = Seq::<ValueView>::empty();
    let v = ValueView::Int(a);
    assert(e.push(v) =~= seq![v]);
    assert(seq![v].drop_last() =~= e);
    let m1 = Machine { stack: seq![v], ip: 1, ..m0 };
    assert(step(c, m0) == Step::Next(m1));
    assert(run(c, m0, f) == run(c, m1, (f - 1) as nat));
    let m2 = Machine { stack: e, globals: Map::<usize, ValueView>::empty().insert(0, v), ip: 2, ..m0 };
    assert(step(c, m1) == Step::Next(m2));
    assert(run(c, m1, (f - 1) as nat) == run(c, m2, (f - 2) as nat));
    let m3 = Machine { stack: seq![v], ..m2 };
    let m3 = Machine { ip: 3, ..m3 };
    assert(step(c, m2) == Step::Next(m3));
    assert(run(c, m2, (f - 2) as nat) == run(c, m3, (f - 3) as nat));
    assert(step(c, m3) == Step::Halt(Ok(v), Machine { stack: e, ip: 4, ..m2 }));
}

fn prefixed(prefix: &str, msg: &String) -> (s: String)
    ensures
        s@ == prefix@ + msg@,
{
    let mut s = string_from_str(prefix);
    append_str(&mut s, msg.as_str());
    s
}

/// Lexes, parses, checks, compiles and runs `source`, and gives the lines
/// to show: each line the program printed and its result, or the first
/// error met.
pub fn execute_source(source: &str) -> (lines: Vec<Line>)
    requires
        source@.len() < usize::MAX,
    ensures
        lines_view(lines@) == report(source@),
{
    let mut lines: Vec<Line> = Vec::new();
    let tokens = match tokenize(source) {
        Ok(t) => t,
        Err(e) => {
            lines.push(Line::Stderr(prefixed("Lex error: ", &e)));
            assert(lines_view(lines@) =~= seq![LineView::Stderr("Lex error: "@ + e@)]);
            return lines;
        },
    };
    let ghost t = tokens_view(tokens@);
    assert(t.last() == tokens@.last()@);
    let mut parser = Parser::new(tokens);
    let program = match parser.parse() {
        Ok(p) => p,
        Err(e) => {
            lines.push(Line::Stderr(prefixed("Parse error: ", &e)));
            assert(lines_view(lines@) =~= seq![LineView::Stderr("Parse error: "@ + e@)]);
            return lines;
        },
    };
    let mut checker = TypeChecker::new();
    match checker.check(&program) {
        Ok(()) => {},
        Err(errors) => {
            let mut i: usize = 0;
            while i < errors.len()
                decreases errors.len() - i,
            {
                lines.push(Line::Stderr(prefixed("Type error: ", &errors[i])));
                i = i + 1;
            }
            return lines;
        },
    }
    let mut codegen = Codegen::new();
    let mut chunks = match codegen.generate(&program) {
        Ok(c) => c,
        Err(e) => {
            lines.push(Line::Stderr(prefixed("Codegen error: ", &e)));
            return lines;
        },
    };
    let ghost code = program_code(seq![Map::empty()], crate::ast::stmts_v(program.stmts@)).code;
    let mut vm = VM::new();
    let bc = chunks.pop().unwrap();
    let vmc = VmChunk::from_bytecode_chunk(bc);
    assert(vmc@ == runnable(code));
    let ghost old_machine = vm.machine();
    let idx = vm.add_chunk(vmc);
    assert(vm.chunks_view()[idx as int] == runnable(code));
    let r = vm.interpret(idx);
    let out = vm.take_output();
    let ghost printed = out@.map_values(|s: String| s@);
    let mut i: usize = 0;
    while i < out.len()
        invariant
            i <= out.len(),
            printed == out@.map_values(|s: String| s@),
            lines_view(lines@) == outs(printed.take(i as int)),
        decreases out.len() - i,
    {
        let line = out[i].clone();
        assert(line@ == printed[i as int]);
        let ghost before = lines_view(lines@);
        lines.push(Line::Stdout(line));
        assert(lines_view(lines@) =~= before.push(LineView::Stdout(printed[i as int])));
        i = i + 1;
        assert(lines_view(lines@) =~= outs(printed.take(i as int)));
    }
    assert(printed.take(i as int) =~= printed);
    match r {
        Ok(val) => lines.push(Line::Stdout(val.to_display_string())),
        Err(e) => lines.push(Line::Stderr(prefixed("Runtime error: ", &e))),
    }
    assert(lines_view(lines@).drop_last() =~= outs(printed));
    proof {
        let m0 = fresh_machine();
        assert(m0 == (Machine { ip: 0, ..old_machine }));
        match run(runnable(code), m0, STEP_LIMIT as nat) {
            Some((Ok(v), m)) => {
                assert(lines_view(lines@) =~= outs(m.output).push(LineView::Stdout(value_text(v))));
            },
            Some((Err(e), m)) => {
                assert(lines_view(lines@) =~= outs(m.output).push(LineView::Stderr("Runtime error: "@ + e)));
            },
            None => {
                assert(lines_view(lines@) =~= outs(run_state(runnable(code), m0, STEP_LIMIT as nat).output).push(
                    LineView::Stderr("Runtime error: "@ + "step limit reached"@),
                ));
            },
        }
        assert(report(source@) == run_report(code));
    }
    lines
}

/// The lines that list the tokens of `src`: a count, then each token as
/// `{}` shows it, indented by two spaces.
pub open spec fn token_lines(t: Seq<TokenView>) -> Seq<Seq<char>> {
    seq!["Tokenization successful. "@ + decimal(t.len()) + " tokens."@] + t.map_values(
        |k: TokenView| "  "@ + kind_name(k.kind) + seq!['('] + debug_quoted(k.value) + seq![')'],
    )
}

/// The token listing of `source`, or the lexical error.
pub fn token_listing(source: &str) -> (r: Result<Vec<String>, String>)
    requires
        source@.len() < usize::MAX,
    ensures
        match spec_tokenize(source@) {
            Ok(t) => r matches Ok(v) && v@.map_values(|s: String| s@) == token_lines(t),
            Err(e) => r matches Err(m) && m@ == e,
        },
{
    let tokens = match tokenize(source) {
        Ok(t) => t,
        Err(e) => {
            return Err(e);
        },
    };
    let ghost t = tokens_view(tokens@);
    let mut head = string_from_str("Tokenization successful. ");
    push_decimal(&mut head, tokens.len() as u64);
    append_str(&mut head, " tokens.");
    let mut out: Vec<String> = Vec::new();
    out.push(head);
    let mut i: usize = 0;
    while i < tokens.len()
        invariant
            i <= tokens.len(),
            t == tokens_view(tokens@),
            out@.map_values(|s: String| s@) == token_lines(t).take(i + 1),
        decreases tokens.len() - i,
    {
        let mut line = string_from_str("  ");
        let d = tokens[i].describe();
        append_str(&mut line, d.as_str());
        assert(t[i as int] == tokens@[i as int]@);
        assert(line@ == token_lines(t)[i + 1]);
        let ghost before = out@.map_values(|s: String| s@);
        out.push(line);
        assert(out@.map_values(|s: String| s@) =~= before.push(token_lines(t)[i + 1]));
        i = i + 1;
        assert(out@.map_values(|s: String| s@) =~= token_lines(t).take(i + 1));
    }
    assert(token_lines(t).take(i + 1) =~= token_lines(t));
    Ok(out)
}

} // verus!
