//! The stack virtual machine.
//!
//! `step` states what one instruction does to the machine; `run` repeats
//! steps until the program halts. `VM::interpret` is proved to give the
//! result that `run` gives.

use vstd::prelude::*;
use std::collections::HashMap;
use crate::chunk::{Chunk, ChunkView};
use crate::instruction::{OpCode, InstrView, Instruction, needs_operand};
use crate::value::{Value, ValueView, truthy, value_debug, value_text, values_view};
use crate::text::{append_str, string_from_str};

verus! {

broadcast use vstd::std_specs::hash::group_hash_axioms;

/// The state of a running machine (the chunk it runs is fixed).
#[verifier::ext_equal]
pub struct Machine {
    pub stack: Seq<ValueView>,
    pub globals: Map<usize, ValueView>,
    pub ip: int,
    /// Lines printed by `Print`, oldest first.
    pub output: Seq<Seq<char>>,
}

/// What one step does: go on with a new state, or halt with a result.
pub enum Step {
    Next(Machine),
    Halt(Result<ValueView, Seq<char>>, Machine),
}

/// A chunk the machine can run without reading past its arrays: every
/// operation that reads an operand has one, and every constant index is
/// in the pool.
pub open spec fn chunk_ok(c: ChunkView) -> bool {
    &&& forall|i: int|
        0 <= i < c.instructions.len() && needs_operand(#[trigger] c.instructions[i].opcode)
            ==> c.instructions[i].operands.len() >= 1
    &&& forall|i: int|
        0 <= i < c.instructions.len() && #[trigger] c.instructions[i].opcode == OpCode::Constant
            ==> c.instructions[i].operands[0] < c.constants.len()
}

/// The top of the stack, or nil on an empty stack.
pub open spec fn top_or_nil(s: Seq<ValueView>) -> ValueView {
    if s.len() == 0 {
        ValueView::Nil
    } else {
        s.last()
    }
}

/// The stack without its top (an empty stack stays empty).
pub open spec fn popped(s: Seq<ValueView>) -> Seq<ValueView> {
    if s.len() == 0 {
        s
    } else {
        s.drop_last()
    }
}

pub open spec fn in_i64(x: int) -> bool {
    i64::MIN <= x <= i64::MAX
}

pub open spec fn abs(x: int) -> int {
    if x < 0 {
        -x
    } else {
        x
    }
}

/// Integer division rounding toward zero, as Rust's `/` does.
pub open spec fn trunc_div(x: int, y: int) -> int {
    let q = abs(x) / abs(y);
    if (x < 0) == (y < 0) {
        q
    } else {
        -q
    }
}

/// The remainder that goes with `trunc_div`: it has the sign of `x`, as
/// Rust's `%` does.
pub open spec fn trunc_rem(x: int, y: int) -> int {
    if x < 0 {
        -(abs(x) % abs(y))
    } else {
        abs(x) % abs(y)
    }
}

/// The result of a binary operation on `a` (below) and `b` (on top).
/// Where integer arithmetic would leave `i64`, the error carries the
/// message of the overflow.
pub open spec fn binary(op: OpCode, a: ValueView, b: ValueView) -> Result<ValueView, Seq<char>> {
    match op {
        OpCode::Add => match (a, b) {
            (ValueView::Int(x), ValueView::Int(y)) => if in_i64(x + y) {
                Ok(ValueView::Int((x + y) as i64))
            } else {
                Err("attempt to add with overflow"@)
            },
            (ValueView::Str(x), ValueView::Str(y)) => Ok(ValueView::Str(x + y)),
            _ => Err("Cannot add "@ + value_debug(a) + " and "@ + value_debug(b)),
        },
        OpCode::Subtract => match (a, b) {
            (ValueView::Int(x), ValueView::Int(y)) => if in_i64(x - y) {
                Ok(ValueView::Int((x - y) as i64))
            } else {
                Err("attempt to subtract with overflow"@)
            },
            _ => Err("Cannot subtract"@),
        },
        OpCode::Multiply => match (a, b) {
            (ValueView::Int(x), ValueView::Int(y)) => if in_i64(x * y) {
                Ok(ValueView::Int((x * y) as i64))
            } else {
                Err("attempt to multiply with overflow"@)
            },
            _ => Err("Cannot multiply"@),
        },
        OpCode::Divide => match (a, b) {
            (ValueView::Int(x), ValueView::Int(y)) => if y == 0 {
                Err("Division by zero"@)
            } else if in_i64(trunc_div(x as int, y as int)) {
                Ok(ValueView::Int(trunc_div(x as int, y as int) as i64))
            } else {
                Err("attempt to divide with overflow"@)
            },
            _ => Err("Cannot divide"@),
        },
        OpCode::Mod => match (a, b) {
            (ValueView::Int(x), ValueView::Int(y)) => if y == 0 {
                Err("attempt to calculate the remainder with a divisor of zero"@)
            } else if x == i64::MIN && y == -1 {
                Err("attempt to calculate the remainder with overflow"@)
            } else {
                Ok(ValueView::Int(trunc_rem(x as int, y as int) as i64))
            },
            _ => Err("Cannot mod"@),
        },
        OpCode::Equal => Ok(ValueView::Bool(a == b)),
        OpCode::Greater => match (a, b) {
            (ValueView::Int(x), ValueView::Int(y)) => Ok(ValueView::Bool(x > y)),
            _ => Ok(ValueView::Bool(false)),
        },
        OpCode::Less => match (a, b) {
            (ValueView::Int(x), ValueView::Int(y)) => Ok(ValueView::Bool(x < y)),
            _ => Ok(ValueView::Bool(false)),
        },
        _ => Err(seq![]),
    }
}

pub open spec fn is_binary(op: OpCode) -> bool {
    op == OpCode::Add || op == OpCode::Subtract || op == OpCode::Multiply || op == OpCode::Divide
        || op == OpCode::Mod || op == OpCode::Equal || op == OpCode::Greater || op == OpCode::Less
}

/// The machine with `ip` set to `target` when `ins` has an operand.
pub open spec fn jump_if(m: Machine, ins: InstrView, cond: bool) -> Machine {
    if cond && ins.operands.len() > 0 {
        Machine { ip: ins.operands[0] as int, ..m }
    } else {
        m
    }
}

/// One step of the machine running chunk `c` from state `m`.
pub open spec fn step(c: ChunkView, m: Machine) -> Step {
    if !(0 <= m.ip < c.instructions.len()) {
        Step::Halt(Err("Program counter超出范围"@), m)
    } else {
        let ins = c.instructions[m.ip];
        let m = Machine { ip: m.ip + 1, ..m };
        let s = m.stack;
        let op = ins.opcode;
        if op == OpCode::Constant {
            Step::Next(Machine { stack: s.push(c.constants[ins.operands[0] as int]), ..m })
        } else if op == OpCode::Nil {
            Step::Next(Machine { stack: s.push(ValueView::Nil), ..m })
        } else if op == OpCode::True {
            Step::Next(Machine { stack: s.push(ValueView::Bool(true)), ..m })
        } else if op == OpCode::False {
            Step::Next(Machine { stack: s.push(ValueView::Bool(false)), ..m })
        } else if op == OpCode::Pop {
            Step::Next(Machine { stack: popped(s), ..m })
        } else if op == OpCode::GetLocal {
            let i = ins.operands[0] as int;
            Step::Next(
                Machine {
                    stack: s.push(
                        if i < s.len() {
                            s[i]
                        } else {
                            ValueView::Nil
                        },
                    ),
                    ..m
                },
            )
        } else if op == OpCode::SetLocal {
            let i = ins.operands[0] as int;
            let s1 = popped(s);
            Step::Next(
                Machine {
                    stack: if i < s1.len() {
                        s1.update(i, top_or_nil(s))
                    } else {
                        s1
                    },
                    ..m
                },
            )
        } else if op == OpCode::DefineGlobal || op == OpCode::SetGlobal {
            Step::Next(
                Machine {
                    stack: popped(s),
                    globals: m.globals.insert(ins.operands[0], top_or_nil(s)),
                    ..m
                },
            )
        } else if op == OpCode::GetGlobal {
            let k = ins.operands[0];
            Step::Next(
                Machine {
                    stack: s.push(
                        if m.globals.contains_key(k) {
                            m.globals[k]
                        } else {
                            ValueView::Nil
                        },
                    ),
                    ..m
                },
            )
        } else if is_binary(op) {
            let b = top_or_nil(s);
            let a = top_or_nil(popped(s));
            let s2 = popped(popped(s));
            match binary(op, a, b) {
                Ok(v) => Step::Next(Machine { stack: s2.push(v), ..m }),
                Err(e) => Step::Halt(Err(e), Machine { stack: s2, ..m }),
            }
        } else if op == OpCode::Negate {
            let s1 = popped(s);
            match top_or_nil(s) {
                ValueView::Int(x) => if x == i64::MIN {
                    Step::Halt(Err("attempt to negate with overflow"@), Machine { stack: s1, ..m })
                } else {
                    Step::Next(Machine { stack: s1.push(ValueView::Int((-x) as i64)), ..m })
                },
                _ => Step::Halt(Err("Cannot negate"@), Machine { stack: s1, ..m }),
            }
        } else if op == OpCode::Not {
            Step::Next(
                Machine { stack: popped(s).push(ValueView::Bool(!truthy(top_or_nil(s)))), ..m },
            )
        } else if op == OpCode::Jump {
            if ins.operands.len() == 0 {
                Step::Halt(Err("Jump with no target"@), m)
            } else {
                Step::Next(Machine { ip: ins.operands[0] as int, ..m })
            }
        } else if op == OpCode::JumpIfFalse {
            Step::Next(jump_if(m, ins, !truthy(top_or_nil(s))))
        } else if op == OpCode::JumpIfTrue {
            Step::Next(jump_if(m, ins, truthy(top_or_nil(s))))
        } else if op == OpCode::Loop {
            Step::Next(jump_if(m, ins, true))
        } else if op == OpCode::Call {
            let n = if ins.operands.len() > 0 {
                ins.operands[0] as int
            } else {
                0
            };
            Step::Next(
                Machine {
                    stack: s.take(
                        if n < s.len() {
                            s.len() - n
                        } else {
                            0
                        },
                    ),
                    ..m
                },
            )
        } else if op == OpCode::Print {
            if s.len() > 0 {
                Step::Next(Machine { output: m.output.push(value_text(s.last())), ..m })
            } else {
                Step::Next(m)
            }
        } else if op == OpCode::Return {
            Step::Halt(Ok(ValueView::Nil), m)
        } else {
            // ReturnValue
            Step::Halt(Ok(top_or_nil(s)), Machine { stack: popped(s), ..m })
        }
    }
}

/// Running chunk `c` from `m` for at most `fuel` steps: the result and the
/// final state if the machine halts within them.
pub open spec fn run(c: ChunkView, m: Machine, fuel: nat) -> Option<(Result<ValueView, Seq<char>>, Machine)>
    decreases fuel,
{
    if fuel == 0 {
        None
    } else {
        match step(c, m) {
            Step::Halt(r, m2) => Some((r, m2)),
            Step::Next(m2) => run(c, m2, (fuel - 1) as nat),
        }
    }
}

/// The state of the machine after `fuel` steps of chunk `c` from `m`, or
/// the state in which it halted within them.
pub open spec fn run_state(c: ChunkView, m: Machine, fuel: nat) -> Machine
    decreases fuel,
{
    if fuel == 0 {
        m
    } else {
        match step(c, m) {
            Step::Halt(_, m2) => m2,
            Step::Next(m2) => run_state(c, m2, (fuel - 1) as nat),
        }
    }
}

/// The model of a machine's result.
pub open spec fn result_view(r: Result<Value, String>) -> Result<ValueView, Seq<char>> {
    match r {
        Ok(v) => Ok(v@),
        Err(e) => Err(e@),
    }
}

/// The most steps `interpret` takes before it gives up.
pub const STEP_LIMIT: u64 = 0xffff_ffff_ffff_ffff;

/// Executes chunks of bytecode.
pub struct VM {
    chunks: Vec<Chunk>,
    stack: Vec<Value>,
    globals: HashMap<usize, Value>,
    ip: usize,
    chunk_idx: usize,
    output: Vec<String>,
}

fn pop_or_nil(stack: &mut Vec<Value>) -> (v: Value)
    ensures
        v@ == top_or_nil(values_view(old(stack)@)),
        values_view(final(stack)@) == popped(values_view(old(stack)@)),
{
    match stack.pop() {
        Some(v) => {
            assert(values_view(final(stack)@) =~= popped(values_view(old(stack)@)));
            v
        },
        None => Value::Nil,
    }
}

fn int_binary(op: OpCode, x: i64, y: i64) -> (r: Result<Value, String>)
    requires
        op == OpCode::Add || op == OpCode::Subtract || op == OpCode::Multiply || op == OpCode::Divide
            || op == OpCode::Mod,
    ensures
        result_view(r) == binary(op, ValueView::Int(x), ValueView::Int(y)),
{
    if op == OpCode::Add {
        match x.checked_add(y) {
            Some(v) => Ok(Value::Int(v)),
            None => Err(string_from_str("attempt to add with overflow")),
        }
    } else if op == OpCode::Subtract {
        match x.checked_sub(y) {
            Some(v) => Ok(Value::Int(v)),
            None => Err(string_from_str("attempt to subtract with overflow")),
        }
    } else if op == OpCode::Multiply {
        match x.checked_mul(y) {
            Some(v) => Ok(Value::Int(v)),
            None => Err(string_from_str("attempt to multiply with overflow")),
        }
    } else {
        if op == OpCode::Divide && y == 0 {
            return Err(string_from_str("Division by zero"));
        }
        if op == OpCode::Mod && y == 0 {
            return Err(string_from_str("attempt to calculate the remainder with a divisor of zero"));
        }
        if op == OpCode::Mod && x == i64::MIN && y == -1 {
            return Err(string_from_str("attempt to calculate the remainder with overflow"));
        }
        let ux: u64 = if x < 0 {
            (-(x as i128)) as u64
        } else {
            x as u64
        };
        let uy: u64 = if y < 0 {
            (-(y as i128)) as u64
        } else {
            y as u64
        };
        assert(ux as int == abs(x as int));
        assert(uy as int == abs(y as int));
        if op == OpCode::Divide {
            let q: u64 = ux / uy;
            if (x < 0) == (y < 0) {
                if q > (i64::MAX as u64) {
                    Err(string_from_str("attempt to divide with overflow"))
                } else {
                    Ok(Value::Int(q as i64))
                }
            } else {
                proof {
                    assert(q <= ux) by (nonlinear_arith)
                        requires
                            q == ux / uy,
                            uy >= 1,
                    ;
                }
                Ok(Value::Int((-(q as i128)) as i64))
            }
        } else {
            let rem: u64 = ux % uy;
            proof {
                assert(rem < uy) by (nonlinear_arith)
                    requires
                        rem == ux % uy,
                        uy >= 1,
                ;
            }
            if x < 0 {
                Ok(Value::Int((-(rem as i128)) as i64))
            } else {
                Ok(Value::Int(rem as i64))
            }
        }
    }
}

fn apply_binary(op: OpCode, a: &Value, b: &Value) -> (r: Result<Value, String>)
    requires
        is_binary(op),
    ensures
        result_view(r) == binary(op, a@, b@),
{
    if op == OpCode::Equal {
        return Ok(Value::Bool(a.same(b)));
    }
    if op == OpCode::Greater || op == OpCode::Less {
        return match (a, b) {
            (Value::Int(x), Value::Int(y)) => Ok(
                Value::Bool(
                    if op == OpCode::Greater {
                        *x > *y
                    } else {
                        *x < *y
                    },
                ),
            ),
            _ => Ok(Value::Bool(false)),
        };
    }
    match (a, b) {
        (Value::Int(x), Value::Int(y)) => int_binary(op, *x, *y),
        (Value::String(x), Value::String(y)) => {
            if op == OpCode::Add {
                let mut s = x.clone();
                append_str(&mut s, y.as_str());
                Ok(Value::String(s))
            } else {
                Err(other_error(op, a, b))
            }
        },
        _ => Err(other_error(op, a, b)),
    }
}

/// The error of an arithmetic operation on operands of the wrong kinds.
fn other_error(op: OpCode, a: &Value, b: &Value) -> (e: String)
    requires
        op == OpCode::Add || op == OpCode::Subtract || op == OpCode::Multiply || op == OpCode::Divide
            || op == OpCode::Mod,
        !(a@ is Int && b@ is Int),
        op == OpCode::Add ==> !(a@ is Str && b@ is Str),
    ensures
        Err::<ValueView, Seq<char>>(e@) == binary(op, a@, b@),
{
    if op == OpCode::Add {
        let mut e = string_from_str("Cannot add ");
        let da = a.to_debug_string();
        append_str(&mut e, da.as_str());
        append_str(&mut e, " and ");
        let db = b.to_debug_string();
        append_str(&mut e, db.as_str());
        e
    } else if op == OpCode::Subtract {
        string_from_str("Cannot subtract")
    } else if op == OpCode::Multiply {
        string_from_str("Cannot multiply")
    } else if op == OpCode::Divide {
        string_from_str("Cannot divide")
    } else {
        string_from_str("Cannot mod")
    }
}


/// Division rounds toward zero: the quotient times the divisor plus the
/// remainder is the dividend, the remainder is smaller than the divisor in
/// size and is zero or has the dividend's sign, and the quotient is never
/// larger in size than the dividend.
pub proof fn lemma_trunc_division(x: int, y: int)
    requires
        y != 0,
    ensures
        trunc_div(x, y) * y + trunc_rem(x, y) == x,
        abs(trunc_rem(x, y)) < abs(y),
        trunc_rem(x, y) == 0 || ((trunc_rem(x, y) < 0) == (x < 0)),
        abs(trunc_div(x, y)) <= abs(x),
{
    let ax = abs(x);
    let ay = abs(y);
    let q = ax / ay;
    let r = ax % ay;
    assert(q * ay + r == ax && 0 <= r < ay && q <= ax && 0 <= q) by (nonlinear_arith)
        requires
            ay > 0,
            ax >= 0,
            q == ax / ay,
            r == ax % ay,
    ;
    if x < 0 {
        if y < 0 {
            assert(q * y == -(q * ay)) by (nonlinear_arith)
                requires
                    y == -ay,
            ;
        } else {
            assert((-q) * y == -(q * ay)) by (nonlinear_arith)
                requires
                    y == ay,
            ;
        }
    } else {
        if y < 0 {
            assert((-q) * y == q * ay) by (nonlinear_arith)
                requires
                    y == -ay,
            ;
        }
    }
}

/// The step that replaces the two values on top of the stack by `v` and
/// goes on with the next instruction.
pub open spec fn replaces_top_two(m: Machine, v: ValueView) -> Step {
    Step::Next(Machine { stack: m.stack.drop_last().drop_last().push(v), ip: m.ip + 1, ..m })
}

/// On two integers, with `x` below `y` on top of the stack, the
/// comparisons and arithmetic mean what they say: `Greater` leaves whether
/// x > y (strictly), `Less` whether x < y, `Equal` whether x == y, and
/// `Add`, `Subtract` and `Multiply` leave x + y, x - y and x * y where
/// these fit in an `i64`.
pub proof fn lemma_int_operations(c: ChunkView, m: Machine, x: i64, y: i64)
    requires
        0 <= m.ip < c.instructions.len(),
        m.stack.len() >= 2,
        m.stack.last() == ValueView::Int(y),
        m.stack[m.stack.len() - 2] == ValueView::Int(x),
    ensures
        c.instructions[m.ip].opcode == OpCode::Greater ==> step(c, m) == replaces_top_two(m, ValueView::Bool(x > y)),
        c.instructions[m.ip].opcode == OpCode::Less ==> step(c, m) == replaces_top_two(m, ValueView::Bool(x < y)),
        c.instructions[m.ip].opcode == OpCode::Equal ==> step(c, m) == replaces_top_two(m, ValueView::Bool(x == y)),
        c.instructions[m.ip].opcode == OpCode::Add && i64::MIN <= x + y <= i64::MAX ==> step(c, m)
            == replaces_top_two(m, ValueView::Int((x + y) as i64)),
        c.instructions[m.ip].opcode == OpCode::Subtract && i64::MIN <= x - y <= i64::MAX ==> step(c, m)
            == replaces_top_two(m, ValueView::Int((x - y) as i64)),
        c.instructions[m.ip].opcode == OpCode::Multiply && i64::MIN <= x * y <= i64::MAX ==> step(c, m)
            == replaces_top_two(m, ValueView::Int((x * y) as i64)),
        c.instructions[m.ip].opcode == OpCode::Divide && y != 0 && !(x == i64::MIN && y == -1) ==> step(c, m)
            == replaces_top_two(m, ValueView::Int(trunc_div(x as int, y as int) as i64)),
        c.instructions[m.ip].opcode == OpCode::Mod && y != 0 && !(x == i64::MIN && y == -1) ==> step(c, m)
            == replaces_top_two(m, ValueView::Int(trunc_rem(x as int, y as int) as i64)),
{
    if y != 0 {
        lemma_trunc_division(x as int, y as int);
    }
    let s = m.stack;
    assert(popped(s) == s.drop_last());
    assert(top_or_nil(popped(s)) == ValueView::Int(x));
    assert(popped(popped(s)) == s.drop_last().drop_last());
}

/// A global reads back what was last stored in it: storing the top of
/// the stack in slot `k` and then loading slot `k` leaves that value on
/// top of the rest of the stack, and the slot holds it.
pub proof fn lemma_global_read_after_write(c: ChunkView, m: Machine, k: usize)
    requires
        0 <= m.ip,
        m.ip + 1 < c.instructions.len(),
        m.stack.len() >= 1,
        c.instructions[m.ip].opcode == OpCode::DefineGlobal || c.instructions[m.ip].opcode == OpCode::SetGlobal,
        c.instructions[m.ip].operands.len() >= 1,
        c.instructions[m.ip].operands[0] == k,
        c.instructions[m.ip + 1].opcode == OpCode::GetGlobal,
        c.instructions[m.ip + 1].operands.len() >= 1,
        c.instructions[m.ip + 1].operands[0] == k,
    ensures
        step(c, m) matches Step::Next(m1) && step(c, m1) matches Step::Next(m2) && m2.stack
            == m.stack.drop_last().push(m.stack.last()) && m2.globals[k] == m.stack.last() && m2.ip == m.ip + 2,
{
    let m1 = Machine {
        stack: m.stack.drop_last(),
        globals: m.globals.insert(k, m.stack.last()),
        ip: m.ip + 1,
        ..m
    };
    assert(step(c, m) == Step::Next(m1));
}

/// Giving a finished run more steps changes nothing.
pub proof fn lemma_run_more_fuel(c: ChunkView, m: Machine, n: nat, k: nat)
    requires
        run(c, m, n) is Some,
    ensures
        run(c, m, n + k) == run(c, m, n),
    decreases n,
{
    match step(c, m) {
        Step::Halt(r, m2) => {},
        Step::Next(m2) => {
            lemma_run_more_fuel(c, m2, (n - 1) as nat, k);
            assert((n + k - 1) as nat == ((n - 1) as nat + k) as nat);
        },
    }
}

impl VM {
    /// The models of the loaded chunks.
    pub closed spec fn chunks_view(&self) -> Seq<ChunkView> {
        self.chunks@.map_values(|c: Chunk| c@)
    }

    /// The state of the machine.
    pub closed spec fn machine(&self) -> Machine {
        Machine {
            stack: values_view(self.stack@),
            globals: self.globals@.map_values(|v: Value| v@),
            ip: self.ip as int,
            output: self.output@.map_values(|s: String| s@),
        }
    }

    /// The index of the chunk being run.
    pub closed spec fn current(&self) -> int {
        self.chunk_idx as int
    }

    pub fn new() -> (vm: Self)
        ensures
            vm.chunks_view() == Seq::<ChunkView>::empty(),
            vm.machine() == (Machine {
                stack: seq![],
                globals: Map::empty(),
                ip: 0,
                output: seq![],
            }),
            vm.current() == 0,
    {
        let vm = VM {
            chunks: Vec::new(),
            stack: Vec::new(),
            globals: HashMap::new(),
            ip: 0,
            chunk_idx: 0,
            output: Vec::new(),
        };
        assert(vm.chunks_view() =~= Seq::<ChunkView>::empty());
        assert(vm.machine().stack =~= seq![]);
        assert(vm.machine().globals =~= Map::empty());
        assert(vm.machine().output =~= seq![]);
        vm
    }

    /// Loads `chunk` after the chunks already loaded; returns its index.
    pub fn add_chunk(&mut self, chunk: Chunk) -> (idx: usize)
        ensures
            idx == old(self).chunks_view().len(),
            final(self).chunks_view() == old(self).chunks_view().push(chunk@),
            final(self).machine() == old(self).machine(),
            final(self).current() == old(self).current(),
    {
        let idx: usize = self.chunks.len();
        self.chunks.push(chunk);
        assert(self.chunks_view() =~= old(self).chunks_view().push(chunk@));
        idx
    }

    /// Hands out the lines printed so far and forgets them.
    pub fn take_output(&mut self) -> (out: Vec<String>)
        ensures
            out@.map_values(|s: String| s@) == old(self).machine().output,
            final(self).machine() == (Machine { output: seq![], ..old(self).machine() }),
            final(self).chunks_view() == old(self).chunks_view(),
            final(self).current() == old(self).current(),
    {
        let mut out: Vec<String> = Vec::new();
        std::mem::swap(&mut out, &mut self.output);
        assert(self.machine().output =~= seq![]);
        assert(self.machine() =~= (Machine { output: seq![], ..old(self).machine() }));
        out
    }

    /// Runs one instruction of the current chunk, as `step` says.
    #[verifier::rlimit(60)]
    fn exec_step(&mut self) -> (r: Option<Result<Value, String>>)
        requires
            old(self).chunk_idx < old(self).chunks.len(),
            chunk_ok(old(self).chunks_view()[old(self).chunk_idx as int]),
        ensures
            final(self).chunks == old(self).chunks,
            final(self).chunk_idx == old(self).chunk_idx,
            match step(old(self).chunks_view()[old(self).chunk_idx as int], old(self).machine()) {
                Step::Next(m) => r is None && final(self).machine() == m,
                Step::Halt(res, m) => r matches Some(x) && result_view(x) == res
                    && final(self).machine() == m,
            },
    {
        let ghost c = self.chunks_view()[self.chunk_idx as int];
        let ghost m0 = self.machine();
        let ci = self.chunk_idx;
        assert(c == self.chunks@[ci as int]@);
        if self.ip >= self.chunks[ci].instructions.len() {
            return Some(Err(string_from_str("Program counter超出范围")));
        }
        let inst = self.chunks[ci].instructions[self.ip].clone();
        assert(inst@ == c.instructions[self.ip as int]);
        self.ip = self.ip + 1;
        let op = inst.opcode;
        if op == OpCode::Constant {
            let v = self.chunks[ci].constants[inst.operands[0]].clone();
            self.stack.push(v);
            assert(values_view(self.stack@) =~= m0.stack.push(v@));
            return None;
        } else if op == OpCode::Nil || op == OpCode::True || op == OpCode::False {
            let v = if op == OpCode::Nil {
                Value::Nil
            } else {
                Value::Bool(op == OpCode::True)
            };
            self.stack.push(v);
            assert(values_view(self.stack@) =~= m0.stack.push(v@));
            return None;
        } else if op == OpCode::Pop {
            let _ = pop_or_nil(&mut self.stack);
            return None;
        } else if op == OpCode::GetLocal {
            let idx = inst.operands[0];
            let v = if idx < self.stack.len() {
                self.stack[idx].clone()
            } else {
                Value::Nil
            };
            self.stack.push(v);
            assert(values_view(self.stack@) =~= m0.stack.push(v@));
            return None;
        } else if op == OpCode::SetLocal {
            let idx = inst.operands[0];
            let v = pop_or_nil(&mut self.stack);
            if idx < self.stack.len() {
                let ghost before = values_view(self.stack@);
                self.stack[idx] = v;
                assert(values_view(self.stack@) =~= before.update(idx as int, v@));
            }
            return None;
        } else if op == OpCode::DefineGlobal || op == OpCode::SetGlobal {
            let k = inst.operands[0];
            let v = pop_or_nil(&mut self.stack);
            let ghost vv = v@;
            let ghost g0 = self.globals@;
            self.globals.insert(k, v);
            assert(self.globals@.map_values(|v: Value| v@) =~= g0.map_values(|v: Value| v@).insert(k, vv));
            return None;
        } else if op == OpCode::GetGlobal {
            let k = inst.operands[0];
            let v = match self.globals.get(&k) {
                Some(v) => v.clone(),
                None => Value::Nil,
            };
            self.stack.push(v);
            assert(values_view(self.stack@) =~= m0.stack.push(v@));
            return None;
        } else if op == OpCode::Add || op == OpCode::Subtract || op == OpCode::Multiply || op
            == OpCode::Divide || op == OpCode::Mod || op == OpCode::Equal || op == OpCode::Greater
            || op == OpCode::Less {
            let b = pop_or_nil(&mut self.stack);
            let a = pop_or_nil(&mut self.stack);
            match apply_binary(op, &a, &b) {
                Ok(v) => {
                    let ghost before = values_view(self.stack@);
                    self.stack.push(v);
                    assert(values_view(self.stack@) =~= before.push(v@));
                    return None;
                },
                Err(e) => {
                    return Some(Err(e));
                },
            }
        } else if op == OpCode::Negate {
            let v = pop_or_nil(&mut self.stack);
            match v {
                Value::Int(x) => {
                    if x == i64::MIN {
                        return Some(Err(string_from_str("attempt to negate with overflow")));
                    }
                    let ghost before = values_view(self.stack@);
                    self.stack.push(Value::Int(-x));
                    assert(values_view(self.stack@) =~= before.push(ValueView::Int((-x) as i64)));
                    return None;
                },
                _ => {
                    return Some(Err(string_from_str("Cannot negate")));
                },
            }
        } else if op == OpCode::Not {
            let v = pop_or_nil(&mut self.stack);
            let t = v.is_truthy();
            let ghost before = values_view(self.stack@);
            self.stack.push(Value::Bool(!t));
            assert(values_view(self.stack@) =~= before.push(ValueView::Bool(!t)));
            return None;
        } else if op == OpCode::Jump {
            if inst.operands.len() == 0 {
                return Some(Err(string_from_str("Jump with no target")));
            }
            self.ip = inst.operands[0];
            return None;
        } else if op == OpCode::JumpIfFalse || op == OpCode::JumpIfTrue {
            let n = self.stack.len();
            let t = if n > 0 {
                self.stack[n - 1].is_truthy()
            } else {
                false
            };
            let cond = if op == OpCode::JumpIfFalse {
                !t
            } else {
                t
            };
            if cond && inst.operands.len() > 0 {
                self.ip = inst.operands[0];
            }
            return None;
        } else if op == OpCode::Loop {
            if inst.operands.len() > 0 {
                self.ip = inst.operands[0];
            }
            return None;
        } else if op == OpCode::Call {
            let arity: usize = if inst.operands.len() > 0 {
                inst.operands[0]
            } else {
                0
            };
            let keep: usize = if arity < self.stack.len() {
                self.stack.len() - arity
            } else {
                0
            };
            assert(values_view(self.stack@) =~= m0.stack.take(self.stack.len() as int));
            while self.stack.len() > keep
                invariant
                    keep <= self.stack.len(),
                    self.stack.len() <= m0.stack.len(),
                    values_view(self.stack@) == m0.stack.take(self.stack.len() as int),
                    keep <= m0.stack.len(),
                    self.chunks == old(self).chunks,
                    self.chunk_idx == old(self).chunk_idx,
                    self.ip == old(self).ip + 1,
                    self.globals == old(self).globals,
                    self.output == old(self).output,
                decreases self.stack.len(),
            {
                let ghost before = self.stack@;
                self.stack.pop();
                assert(self.stack@ =~= before.drop_last());
                assert(values_view(self.stack@) =~= values_view(before).drop_last());
                assert(values_view(self.stack@) =~= m0.stack.take(self.stack.len() as int));
            }
            return None;
        } else if op == OpCode::Print {
            let n = self.stack.len();
            if n > 0 {
                let line = self.stack[n - 1].to_display_string();
                let ghost before = self.output@.map_values(|s: String| s@);
                self.output.push(line);
                assert(self.output@.map_values(|s: String| s@) =~= before.push(line@));
            }
            return None;
        } else if op == OpCode::Return {
            return Some(Ok(Value::Nil));
        } else {
            let v = pop_or_nil(&mut self.stack);
            return Some(Ok(v));
        }
    }

    /// Runs chunk `entry_idx` from its first instruction until it returns
    /// or fails, giving up after `STEP_LIMIT` steps.
    pub fn interpret(&mut self, entry_idx: usize) -> (r: Result<Value, String>)
        requires
            entry_idx < old(self).chunks_view().len(),
            chunk_ok(old(self).chunks_view()[entry_idx as int]),
        ensures
            final(self).chunks_view() == old(self).chunks_view(),
            final(self).current() == entry_idx,
            match run(
                old(self).chunks_view()[entry_idx as int],
                Machine { ip: 0, ..old(self).machine() },
                STEP_LIMIT as nat,
            ) {
                Some((res, m)) => result_view(r) == res && final(self).machine() == m,
                None => {
                    &&& r matches Err(e) && e@ == "step limit reached"@
                    &&& final(self).machine() == run_state(
                        old(self).chunks_view()[entry_idx as int],
                        Machine { ip: 0, ..old(self).machine() },
                        STEP_LIMIT as nat,
                    )
                },
            },
    {
        let ghost c = self.chunks_view()[entry_idx as int];
        let ghost m0 = Machine { ip: 0, ..self.machine() };
        assert(c == old(self).chunks_view()[entry_idx as int]);
        assert(m0 == Machine { ip: 0, ..old(self).machine() });
        self.chunk_idx = entry_idx;
        self.ip = 0;
        assert(self.machine() =~= m0);
        let mut steps: u64 = 0;
        loop
            invariant
                steps <= STEP_LIMIT,
                self.chunk_idx == entry_idx,
                entry_idx < self.chunks.len(),
                self.chunks_view() == old(self).chunks_view(),
                c == self.chunks_view()[entry_idx as int],
                c == old(self).chunks_view()[entry_idx as int],
                m0 == (Machine { ip: 0, ..old(self).machine() }),
                chunk_ok(c),
                run(c, m0, STEP_LIMIT as nat) == run(c, self.machine(), (STEP_LIMIT - steps) as nat),
                run_state(c, m0, STEP_LIMIT as nat) == run_state(c, self.machine(), (STEP_LIMIT - steps) as nat),
            decreases STEP_LIMIT - steps,
        {
            if steps == STEP_LIMIT {
                assert(run(c, self.machine(), 0) is None);
                return Err(string_from_str("step limit reached"));
            }
            let ghost cur = self.machine();
            let ghost fuel = (STEP_LIMIT - steps) as nat;
            assert(fuel >= 1);
            let r = self.exec_step();
            match r {
                Some(res) => {
                    assert(run(c, cur, fuel) == Some((result_view(res), self.machine())));
                    assert(run(c, m0, STEP_LIMIT as nat) == Some((result_view(res), self.machine())));
                    return res;
                },
                None => {
                    assert(run(c, cur, fuel) == run(c, self.machine(), (fuel - 1) as nat));
                    assert(run_state(c, cur, fuel) == run_state(c, self.machine(), (fuel - 1) as nat));
                },
            }
            steps = steps + 1;
        }
    }
}

} // verus!
