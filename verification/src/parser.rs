//! The parser: turns tokens into a syntax tree.
//!
//! The grammar is stated by the `p_*` spec functions, each of which takes
//! the tokens and a position and gives the tree it reads and the position
//! after it, or an error message. A sub-parse that succeeds always moves
//! forward; the spec functions check this (`adv`) to make their
//! recursion well founded.

use vstd::prelude::*;
use crate::ast::{
    BinaryOp, BodyView, Expr, ExprOrBlock, ExprView, FnDecl, Program, Stmt, StmtView, TypeAnnotation,
    TypeView, UnaryOp, VarDecl, VarDeclView, expr_v, exprs_v, fields_v, opt_type_v, params_v, stmt_v,
    stmts_v, type_v, types_v,
};
use crate::text::{chars_of, append_str, decimal, push_decimal, string_from_str};
use crate::token::{Token, TokenType, TokenView, kind_name, tokens_view};
use crate::lexer::{StepOut, is_digit, lex_step};

verus! {

// ---------------------------------------------------------------------
// Integer literals
// ---------------------------------------------------------------------

pub open spec fn digit_value(c: char) -> int {
    (c as u32) - 0x30
}

/// Accumulating the decimal digits `d` onto `acc` as `i64::from_str`
/// does: digits are checked one by one, and the first step that leaves
/// `i64` (by the multiplication or the addition) is an overflow.
pub open spec fn accumulate(d: Seq<char>, acc: int, neg: bool) -> Result<i64, Seq<char>>
    decreases d.len(),
{
    if d.len() == 0 {
        Ok(acc as i64)
    } else if !is_digit(d[0]) {
        Err("invalid digit found in string"@)
    } else {
        let next = if neg {
            acc * 10 - digit_value(d[0])
        } else {
            acc * 10 + digit_value(d[0])
        };
        if !(i64::MIN <= acc * 10 <= i64::MAX) || !(i64::MIN <= next <= i64::MAX) {
            if neg {
                Err("number too small to fit in target type"@)
            } else {
                Err("number too large to fit in target type"@)
            }
        } else {
            accumulate(d.drop_first(), next, neg)
        }
    }
}

/// `s.parse::<i64>()`, with the error's message.
pub open spec fn parse_i64(s: Seq<char>) -> Result<i64, Seq<char>> {
    if s.len() == 0 {
        Err("cannot parse integer from empty string"@)
    } else if (s[0] == '+' || s[0] == '-') && s.len() == 1 {
        Err("invalid digit found in string"@)
    } else if s[0] == '+' || s[0] == '-' {
        accumulate(s.drop_first(), 0, s[0] == '-')
    } else {
        accumulate(s, 0, false)
    }
}

// ---------------------------------------------------------------------
// Token helpers
// ---------------------------------------------------------------------

/// Token lists the parser accepts: they end with `Eof`.
pub open spec fn tokens_ok(t: Seq<TokenView>) -> bool {
    t.len() > 0 && t.last().kind == TokenType::Eof
}

/// The kind of token `i` (`Eof` past the end).
pub open spec fn kind_at(t: Seq<TokenView>, i: int) -> TokenType {
    if 0 <= i < t.len() {
        t[i].kind
    } else {
        TokenType::Eof
    }
}

/// A sub-parse that ended at `p_new` moved forward from `p_old`.
pub open spec fn adv(p_new: int, p_old: int, t: Seq<TokenView>) -> bool {
    p_old < p_new <= t.len()
}

pub open spec fn expect_msg(t: Seq<TokenView>, pos: int, what: Seq<char>) -> Seq<char> {
    "Expected "@ + what + " but got "@ + kind_name(t[pos].kind) + " ('"@ + t[pos].value
        + "') at line "@ + decimal(t[pos].line as nat)
}

/// Consuming a token of kind `k` at `pos`.
pub open spec fn p_expect(t: Seq<TokenView>, pos: int, k: TokenType, what: Seq<char>) -> Result<int, Seq<char>> {
    if kind_at(t, pos) == k {
        Ok(pos + 1)
    } else {
        Err(expect_msg(t, pos, what))
    }
}

/// The position of the first token at or after `pos` that is not a newline.
pub open spec fn skip_nl(t: Seq<TokenView>, pos: int) -> int
    decreases t.len() - pos,
{
    if kind_at(t, pos) == TokenType::Newline {
        skip_nl(t, pos + 1)
    } else {
        pos
    }
}

pub proof fn lemma_skip_nl(t: Seq<TokenView>, pos: int)
    requires
        0 <= pos <= t.len(),
    ensures
        pos <= skip_nl(t, pos) <= t.len(),
        kind_at(t, skip_nl(t, pos)) != TokenType::Newline,
    decreases t.len() - pos,
{
    if kind_at(t, pos) == TokenType::Newline {
        lemma_skip_nl(t, pos + 1);
    }
}

/// Binding power of an infix token.
pub open spec fn precedence(k: TokenType) -> int {
    match k {
        TokenType::EqualEqual | TokenType::BangEqual | TokenType::Less | TokenType::Greater
        | TokenType::LessEqual | TokenType::GreaterEqual => 2,
        TokenType::And | TokenType::Or => 1,
        TokenType::Plus | TokenType::Minus => 3,
        TokenType::Star | TokenType::Slash | TokenType::Percent => 4,
        TokenType::OpenParen => 7,
        TokenType::Dot => 8,
        _ => 0,
    }
}

pub open spec fn is_binop_token(k: TokenType) -> bool {
    match k {
        TokenType::Plus | TokenType::Minus | TokenType::Star | TokenType::Slash | TokenType::Percent
        | TokenType::EqualEqual | TokenType::BangEqual | TokenType::Less | TokenType::Greater
        | TokenType::LessEqual | TokenType::GreaterEqual | TokenType::And | TokenType::Or => true,
        _ => false,
    }
}

/// Tokens that continue an expression: assignment, binary operators,
/// calls and field access.
pub open spec fn is_infix(k: TokenType) -> bool {
    k == TokenType::Equal || is_binop_token(k) || k == TokenType::OpenParen || k == TokenType::Dot
}

pub open spec fn binop_of(k: TokenType) -> BinaryOp {
    match k {
        TokenType::Plus => BinaryOp::Add,
        TokenType::Minus => BinaryOp::Sub,
        TokenType::Star => BinaryOp::Mul,
        TokenType::Slash => BinaryOp::Div,
        TokenType::Percent => BinaryOp::Mod,
        TokenType::EqualEqual => BinaryOp::Equal,
        TokenType::BangEqual => BinaryOp::NotEqual,
        TokenType::Less => BinaryOp::Less,
        TokenType::Greater => BinaryOp::Greater,
        TokenType::LessEqual => BinaryOp::LessEqual,
        TokenType::GreaterEqual => BinaryOp::GreaterEqual,
        TokenType::And => BinaryOp::And,
        _ => BinaryOp::Or,
    }
}

/// How each binary operator is written.
pub open spec fn op_symbol(o: BinaryOp) -> Seq<char> {
    match o {
        BinaryOp::Add => seq!['+'],
        BinaryOp::Sub => seq!['-'],
        BinaryOp::Mul => seq!['*'],
        BinaryOp::Div => seq!['/'],
        BinaryOp::Mod => seq!['%'],
        BinaryOp::Equal => seq!['=', '='],
        BinaryOp::NotEqual => seq!['!', '='],
        BinaryOp::Less => seq!['<'],
        BinaryOp::Greater => seq!['>'],
        BinaryOp::LessEqual => seq!['<', '='],
        BinaryOp::GreaterEqual => seq!['>', '='],
        BinaryOp::And => seq!['&', '&'],
        BinaryOp::Or => seq!['|', '|'],
    }
}

/// Each binary operator, written alone, lexes to one operator token that
/// the parser reads back as the same operator; and distinct operator
/// tokens stand for distinct operators.
pub proof fn lemma_operator_tokens(o: BinaryOp, k1: TokenType, k2: TokenType)
    ensures
        ({
            let st = lex_step(op_symbol(o), 0, 1, 1);
            &&& st.pos == op_symbol(o).len()
            &&& st.out matches StepOut::Emit(t) && is_binop_token(t.kind) && binop_of(t.kind) == o
        }),
        is_binop_token(k1) && is_binop_token(k2) && binop_of(k1) == binop_of(k2) ==> k1 == k2,
{
}

/// The token kind of each binary operator.
pub open spec fn op_token(o: BinaryOp) -> TokenType {
    match o {
        BinaryOp::Add => TokenType::Plus,
        BinaryOp::Sub => TokenType::Minus,
        BinaryOp::Mul => TokenType::Star,
        BinaryOp::Div => TokenType::Slash,
        BinaryOp::Mod => TokenType::Percent,
        BinaryOp::Equal => TokenType::EqualEqual,
        BinaryOp::NotEqual => TokenType::BangEqual,
        BinaryOp::Less => TokenType::Less,
        BinaryOp::Greater => TokenType::Greater,
        BinaryOp::LessEqual => TokenType::LessEqual,
        BinaryOp::GreaterEqual => TokenType::GreaterEqual,
        BinaryOp::And => TokenType::And,
        BinaryOp::Or => TokenType::Or,
    }
}

/// How tightly each operator binds: `&&` and `||` loosest, then the
/// comparisons, then `+` and `-`, then `*`, `/` and `%`.
pub open spec fn binding(o: BinaryOp) -> int {
    match o {
        BinaryOp::And | BinaryOp::Or => 1,
        BinaryOp::Equal | BinaryOp::NotEqual | BinaryOp::Less | BinaryOp::Greater | BinaryOp::LessEqual
        | BinaryOp::GreaterEqual => 2,
        BinaryOp::Add | BinaryOp::Sub => 3,
        BinaryOp::Mul | BinaryOp::Div | BinaryOp::Mod => 4,
    }
}

/// The tokens of `x o1 y o2 z` for names `x`, `y`, `z`.
pub open spec fn two_op_tokens(x: Seq<char>, o1: BinaryOp, y: Seq<char>, o2: BinaryOp, z: Seq<char>) -> Seq<TokenView> {
    seq![
        TokenView { kind: TokenType::Identifier, value: x, line: 1, col: 1 },
        TokenView { kind: op_token(o1), value: op_symbol(o1), line: 1, col: 1 },
        TokenView { kind: TokenType::Identifier, value: y, line: 1, col: 1 },
        TokenView { kind: op_token(o2), value: op_symbol(o2), line: 1, col: 1 },
        TokenView { kind: TokenType::Identifier, value: z, line: 1, col: 1 },
        TokenView { kind: TokenType::Eof, value: seq![], line: 1, col: 1 },
    ]
}

/// Operators group by how tightly they bind, and left to right among
/// equals: `x o1 y o2 z` parses as `x o1 (y o2 z)` when `o2` binds more
/// tightly than `o1`, and as `(x o1 y) o2 z` otherwise.
pub proof fn lemma_precedence(x: Seq<char>, o1: BinaryOp, y: Seq<char>, o2: BinaryOp, z: Seq<char>)
    ensures
        p_expr(two_op_tokens(x, o1, y, o2, z), 0, 0) == Ok::<(ExprView, int), Seq<char>>((
            if binding(o2) > binding(o1) {
                ExprView::Binary(
                    Box::new(ExprView::Ident(x)),
                    o1,
                    Box::new(ExprView::Binary(Box::new(ExprView::Ident(y)), o2, Box::new(ExprView::Ident(z)))),
                )
            } else {
                ExprView::Binary(
                    Box::new(ExprView::Binary(Box::new(ExprView::Ident(x)), o1, Box::new(ExprView::Ident(y)))),
                    o2,
                    Box::new(ExprView::Ident(z)),
                )
            },
            5,
        )),
{
    let t = two_op_tokens(x, o1, y, o2, z);
    let k1 = op_token(o1);
    let k2 = op_token(o2);
    let b1 = binding(o1);
    let b2 = binding(o2);
    assert(precedence(k1) == b1 && is_binop_token(k1) && is_infix(k1) && binop_of(k1) == o1 && k1 != TokenType::Eof
        && k1 != TokenType::Equal);
    assert(precedence(k2) == b2 && is_binop_token(k2) && is_infix(k2) && binop_of(k2) == o2 && k2 != TokenType::Eof
        && k2 != TokenType::Equal);
    let xe = ExprView::Ident(x);
    let ye = ExprView::Ident(y);
    let ze = ExprView::Ident(z);
    assert(kind_at(t, 5) == TokenType::Eof);
    assert(p_primary(t, 0) == Ok::<(ExprView, int), Seq<char>>((xe, 1)));
    assert(p_primary(t, 2) == Ok::<(ExprView, int), Seq<char>>((ye, 3)));
    assert(p_primary(t, 4) == Ok::<(ExprView, int), Seq<char>>((ze, 5)));
    assert(p_loop(t, 5, b2 + 1, ze) == Ok::<(ExprView, int), Seq<char>>((ze, 5)));
    assert(p_expr(t, 4, b2 + 1) == Ok::<(ExprView, int), Seq<char>>((ze, 5)));
    let yz = ExprView::Binary(Box::new(ye), o2, Box::new(ze));
    if b2 > b1 {
        assert(p_loop(t, 5, b1 + 1, yz) == Ok::<(ExprView, int), Seq<char>>((yz, 5)));
        assert(p_loop(t, 3, b1 + 1, ye) == Ok::<(ExprView, int), Seq<char>>((yz, 5)));
        assert(p_expr(t, 2, b1 + 1) == Ok::<(ExprView, int), Seq<char>>((yz, 5)));
        let r = ExprView::Binary(Box::new(xe), o1, Box::new(yz));
        assert(p_loop(t, 5, 0, r) == Ok::<(ExprView, int), Seq<char>>((r, 5)));
        assert(p_loop(t, 1, 0, xe) == Ok::<(ExprView, int), Seq<char>>((r, 5)));
    } else {
        assert(p_loop(t, 3, b1 + 1, ye) == Ok::<(ExprView, int), Seq<char>>((ye, 3)));
        assert(p_expr(t, 2, b1 + 1) == Ok::<(ExprView, int), Seq<char>>((ye, 3)));
        let xy = ExprView::Binary(Box::new(xe), o1, Box::new(ye));
        let r = ExprView::Binary(Box::new(xy), o2, Box::new(ze));
        assert(p_loop(t, 5, 0, r) == Ok::<(ExprView, int), Seq<char>>((r, 5)));
        assert(p_loop(t, 3, 0, xy) == Ok::<(ExprView, int), Seq<char>>((r, 5)));
        assert(p_loop(t, 1, 0, xe) == Ok::<(ExprView, int), Seq<char>>((r, 5)));
    }
}

// ---------------------------------------------------------------------
// Types
// ---------------------------------------------------------------------

/// Where `p_type` stops when it fails: at the token that is not a type
/// name, or at the token that should have closed the brackets.
pub open spec fn p_type_stop(t: Seq<TokenView>, pos: int) -> int
    decreases t.len() - pos,
{
    if kind_at(t, pos) != TokenType::Identifier {
        pos
    } else if kind_at(t, pos + 1) == TokenType::OpenBracket {
        match p_type(t, pos + 2) {
            Err(_) => p_type_stop(t, pos + 2),
            Ok((_, p1)) => p1,
        }
    } else {
        pos + 1
    }
}

/// A type: a name, optionally followed by one parameter in brackets.
pub open spec fn p_type(t: Seq<TokenView>, pos: int) -> Result<(TypeView, int), Seq<char>>
    decreases t.len() - pos,
{
    if kind_at(t, pos) != TokenType::Identifier {
        Err(expect_msg(t, pos, "type name"@))
    } else if kind_at(t, pos + 1) == TokenType::OpenBracket {
        match p_type(t, pos + 2) {
            Err(e) => Err(e),
            Ok((param, p1)) => match p_expect(t, p1, TokenType::CloseBracket, "']'"@) {
                Err(e) => Err(e),
                Ok(p2) => Ok((TypeView::Named(t[pos].value, seq![param]), p2)),
            },
        }
    } else {
        Ok((TypeView::Named(t[pos].value, seq![]), pos + 1))
    }
}

// ---------------------------------------------------------------------
// Expressions
// ---------------------------------------------------------------------

/// An expression whose operators bind at least as tightly as `min`.
pub open spec fn p_expr(t: Seq<TokenView>, pos: int, min: int) -> Result<(ExprView, int), Seq<char>>
    decreases t.len() - pos, 1int,
{
    match p_primary(t, pos) {
        Err(e) => Err(e),
        Ok((left, p1)) => if adv(p1, pos, t) {
            p_loop(t, p1, min, left)
        } else {
            Err(seq![])
        },
    }
}

/// The infix operators that follow `left`, from `pos` on.
pub open spec fn p_loop(t: Seq<TokenView>, pos: int, min: int, left: ExprView) -> Result<(ExprView, int), Seq<char>>
    decreases t.len() - pos, 1int,
{
    let k = kind_at(t, pos);
    if k == TokenType::Eof || !is_infix(k) || precedence(k) < min {
        Ok((left, pos))
    } else if k == TokenType::Equal {
        match p_expr(t, pos + 1, precedence(k)) {
            Err(e) => Err(e),
            Ok((right, p1)) => if adv(p1, pos, t) {
                p_loop(t, p1, min, ExprView::Assign(Box::new(left), Box::new(right)))
            } else {
                Err(seq![])
            },
        }
    } else if is_binop_token(k) {
        match p_expr(t, pos + 1, precedence(k) + 1) {
            Err(e) => Err(e),
            Ok((right, p1)) => if adv(p1, pos, t) {
                p_loop(t, p1, min, ExprView::Binary(Box::new(left), binop_of(k), Box::new(right)))
            } else {
                Err(seq![])
            },
        }
    } else if k == TokenType::OpenParen {
        match p_args(t, pos + 1) {
            Err(e) => Err(e),
            Ok((args, p1)) => if adv(p1, pos, t) {
                p_loop(t, p1, min, ExprView::Call(Box::new(left), args))
            } else {
                Err(seq![])
            },
        }
    } else {
        // Dot
        if kind_at(t, pos + 1) == TokenType::Identifier {
            p_loop(t, pos + 2, min, ExprView::Field(Box::new(left), t[pos + 1].value))
        } else {
            Err(expect_msg(t, pos + 1, "field name"@))
        }
    }
}

/// The arguments of a call, after its `(`.
pub open spec fn p_args(t: Seq<TokenView>, pos: int) -> Result<(Seq<ExprView>, int), Seq<char>>
    decreases t.len() - pos, 3int,
{
    if kind_at(t, pos) == TokenType::CloseParen {
        Ok((seq![], pos + 1))
    } else {
        p_arg_list(t, pos, seq![])
    }
}

/// Arguments separated by commas, after the arguments `acc`, then `)`.
pub open spec fn p_arg_list(t: Seq<TokenView>, pos: int, acc: Seq<ExprView>) -> Result<(Seq<ExprView>, int), Seq<char>>
    decreases t.len() - pos, 2int,
{
    match p_expr(t, pos, 0) {
        Err(e) => Err(e),
        Ok((a, p1)) => if adv(p1, pos, t) {
            if kind_at(t, p1) == TokenType::Comma {
                p_arg_list(t, p1 + 1, acc.push(a))
            } else {
                match p_expect(t, p1, TokenType::CloseParen, "')' after call args"@) {
                    Err(e) => Err(e),
                    Ok(p2) => Ok((acc.push(a), p2)),
                }
            }
        } else {
            Err(seq![])
        },
    }
}

/// A primary expression: a literal, a name or struct literal, a unary
/// operator, a parenthesised expression or an `if`.
pub open spec fn p_primary(t: Seq<TokenView>, pos: int) -> Result<(ExprView, int), Seq<char>>
    decreases t.len() - pos, 0int,
{
    let k = kind_at(t, pos);
    if k == TokenType::Number {
        match parse_i64(t[pos].value) {
            Ok(v) => Ok((ExprView::Int(v), pos + 1)),
            Err(m) => Err("Invalid number: "@ + m),
        }
    } else if k == TokenType::String {
        Ok((ExprView::Str(t[pos].value), pos + 1))
    } else if k == TokenType::True {
        Ok((ExprView::Bool(true), pos + 1))
    } else if k == TokenType::False {
        Ok((ExprView::Bool(false), pos + 1))
    } else if k == TokenType::Null {
        Ok((ExprView::Null, pos + 1))
    } else if k == TokenType::Identifier {
        if kind_at(t, pos + 1) == TokenType::OpenBrace {
            p_struct(t, pos + 2, t[pos].value)
        } else {
            Ok((ExprView::Ident(t[pos].value), pos + 1))
        }
    } else if k == TokenType::Minus || k == TokenType::Bang {
        match p_expr(t, pos + 1, 6) {
            Err(e) => Err(e),
            Ok((e, p1)) => Ok((
                ExprView::Unary(
                    if k == TokenType::Minus {
                        UnaryOp::Negate
                    } else {
                        UnaryOp::Not
                    },
                    Box::new(e),
                ),
                p1,
            )),
        }
    } else if k == TokenType::OpenParen {
        match p_expr(t, pos + 1, 0) {
            Err(e) => Err(e),
            Ok((e, p1)) => match p_expect(t, p1, TokenType::CloseParen, "')' after expression"@) {
                Err(m) => Err(m),
                Ok(p2) => Ok((e, p2)),
            },
        }
    } else if k == TokenType::If {
        p_if(t, pos + 1)
    } else {
        Err("Unexpected token "@ + kind_name(k) + " at line "@ + decimal(t[pos].line as nat))
    }
}

/// A struct literal's fields, after `Name {`.
pub open spec fn p_struct(t: Seq<TokenView>, pos: int, name: Seq<char>) -> Result<(ExprView, int), Seq<char>>
    decreases t.len() - pos, 3int,
{
    if kind_at(t, pos) == TokenType::CloseBrace {
        Ok((ExprView::StructLit(name, seq![]), pos + 1))
    } else {
        p_field_list(t, pos, name, seq![])
    }
}

/// `field: value` pairs separated by commas, after the fields `acc`, then `}`.
pub open spec fn p_field_list(
    t: Seq<TokenView>,
    pos: int,
    name: Seq<char>,
    acc: Seq<(Seq<char>, ExprView)>,
) -> Result<(ExprView, int), Seq<char>>
    decreases t.len() - pos, 2int,
{
    if kind_at(t, pos) != TokenType::Identifier {
        Err(expect_msg(t, pos, "field name"@))
    } else if kind_at(t, pos + 1) != TokenType::Colon {
        Err(expect_msg(t, pos + 1, "':' in struct field"@))
    } else {
        match p_expr(t, pos + 2, 0) {
            Err(e) => Err(e),
            Ok((v, p1)) => if adv(p1, pos, t) {
                let acc2 = acc.push((t[pos].value, v));
                if kind_at(t, p1) == TokenType::Comma {
                    p_field_list(t, p1 + 1, name, acc2)
                } else {
                    match p_expect(t, p1, TokenType::CloseBrace, "'}' for struct literal"@) {
                        Err(e) => Err(e),
                        Ok(p2) => Ok((ExprView::StructLit(name, acc2), p2)),
                    }
                }
            } else {
                Err(seq![])
            },
        }
    }
}

/// `if` (already read) `cond { expr }`, optionally followed by `else { expr }`
/// or `else if ...`.
pub open spec fn p_if(t: Seq<TokenView>, pos: int) -> Result<(ExprView, int), Seq<char>>
    decreases t.len() - pos, 3int,
{
    match p_expr(t, pos, 0) {
        Err(e) => Err(e),
        Ok((cond, p1)) => if adv(p1, pos, t) {
            match p_branch(t, p1) {
                Err(e) => Err(e),
                Ok((then, p2)) => if adv(p2, p1, t) {
                    if kind_at(t, p2) == TokenType::Else {
                        if kind_at(t, p2 + 1) == TokenType::If {
                            match p_if(t, p2 + 2) {
                                Err(e) => Err(e),
                                Ok((els, p3)) => Ok((
                                    ExprView::If(Box::new(cond), Box::new(then), Some(Box::new(els))),
                                    p3,
                                )),
                            }
                        } else {
                            match p_branch(t, p2 + 1) {
                                Err(e) => Err(e),
                                Ok((els, p3)) => Ok((
                                    ExprView::If(Box::new(cond), Box::new(then), Some(Box::new(els))),
                                    p3,
                                )),
                            }
                        }
                    } else {
                        Ok((ExprView::If(Box::new(cond), Box::new(then), None), p2))
                    }
                } else {
                    Err(seq![])
                },
            }
        } else {
            Err(seq![])
        },
    }
}

/// A branch of an `if`: `{`, newlines, an expression, newlines, `}`.
pub open spec fn p_branch(t: Seq<TokenView>, pos: int) -> Result<(ExprView, int), Seq<char>>
    decreases t.len() - pos, 2int,
{
    match p_expect(t, pos, TokenType::OpenBrace, "'{' for if branch"@) {
        Err(e) => Err(e),
        Ok(p1) => {
            let p2 = skip_nl(t, p1);
            if 0 <= pos && p1 <= p2 <= t.len() {
                match p_expr(t, p2, 0) {
                    Err(e) => Err(e),
                    Ok((e, p3)) => {
                        let p4 = skip_nl(t, p3);
                        match p_expect(t, p4, TokenType::CloseBrace, "'}' to close if branch"@) {
                            Err(m) => Err(m),
                            Ok(p5) => Ok((e, p5)),
                        }
                    },
                }
            } else {
                Err(seq![])
            }
        },
    }
}

// ---------------------------------------------------------------------
// Statements
// ---------------------------------------------------------------------

/// `let`, `const` or `mut` (at `pos`), a name, an optional type, an
/// optional `= value`.
pub open spec fn p_var_decl(t: Seq<TokenView>, pos: int) -> Result<(StmtView, int), Seq<char>> {
    let constant = kind_at(t, pos) == TokenType::Const;
    let mutable = kind_at(t, pos) == TokenType::Mut;
    if kind_at(t, pos + 1) != TokenType::Identifier {
        Err(expect_msg(t, pos + 1, "variable name"@))
    } else {
        let name = t[pos + 1].value;
        let ty: Result<(Option<TypeView>, int), Seq<char>> = if kind_at(t, pos + 2)
            == TokenType::Identifier {
            match p_type(t, pos + 2) {
                Err(e) => Err(e),
                Ok((ty, p1)) => Ok((Some(ty), p1)),
            }
        } else {
            Ok((None, pos + 2))
        };
        match ty {
            Err(e) => Err(e),
            Ok((ann, p1)) => if kind_at(t, p1) == TokenType::Equal {
                match p_expr(t, p1 + 1, 0) {
                    Err(e) => Err(e),
                    Ok((v, p2)) => Ok((
                        StmtView::Var(
                            VarDeclView { name, type_annotation: ann, value: Some(v), constant, mutable },
                        ),
                        p2,
                    )),
                }
            } else {
                Ok((
                    StmtView::Var(VarDeclView { name, type_annotation: ann, value: None, constant, mutable }),
                    p1,
                ))
            },
        }
    }
}

/// Parameters `name type` separated by commas, after the parameters `acc`.
pub open spec fn p_params(t: Seq<TokenView>, pos: int, acc: Seq<(Seq<char>, TypeView)>) -> Result<
    (Seq<(Seq<char>, TypeView)>, int),
    Seq<char>,
>
    decreases t.len() - pos,
{
    if kind_at(t, pos) != TokenType::Identifier {
        Err(expect_msg(t, pos, "parameter name"@))
    } else {
        match p_type(t, pos + 1) {
            Err(e) => Err(e),
            Ok((ty, p1)) => if adv(p1, pos, t) {
                let acc2 = acc.push((t[pos].value, ty));
                if kind_at(t, p1) == TokenType::Comma {
                    p_params(t, p1 + 1, acc2)
                } else {
                    Ok((acc2, p1))
                }
            } else {
                Err(seq![])
            },
        }
    }
}

/// `return` (at `pos`) with an optional value: none when a newline, `}`
/// or the end follows.
pub open spec fn p_return(t: Seq<TokenView>, pos: int) -> Result<(StmtView, int), Seq<char>> {
    let k = kind_at(t, pos + 1);
    if k == TokenType::Newline || k == TokenType::CloseBrace || k == TokenType::Eof {
        Ok((StmtView::Return(None), pos + 1))
    } else {
        match p_expr(t, pos + 1, 0) {
            Err(e) => Err(e),
            Ok((e, p1)) => Ok((StmtView::Return(Some(e)), p1)),
        }
    }
}

/// A statement.
pub open spec fn p_stmt(t: Seq<TokenView>, pos: int) -> Result<(StmtView, int), Seq<char>>
    decreases t.len() - pos, 3int,
{
    let k = kind_at(t, pos);
    if k == TokenType::Let || k == TokenType::Const || k == TokenType::Mut {
        p_var_decl(t, pos)
    } else if k == TokenType::Fn {
        p_fn_decl(t, pos)
    } else if k == TokenType::Return {
        p_return(t, pos)
    } else if k == TokenType::While {
        p_while(t, pos)
    } else if k == TokenType::For {
        p_for(t, pos)
    } else if k == TokenType::OpenBrace {
        match p_block(t, pos + 1, seq![]) {
            Err(e) => Err(e),
            Ok((b, p1)) => Ok((StmtView::Block(b), p1)),
        }
    } else {
        match p_expr(t, pos, 0) {
            Err(e) => Err(e),
            Ok((e, p1)) => Ok((StmtView::Expr(e), p1)),
        }
    }
}

/// The statements of a block after its `{` and the statements `acc`:
/// newlines are skipped before each statement; the block ends at `}`.
pub open spec fn p_block(t: Seq<TokenView>, pos: int, acc: Seq<StmtView>) -> Result<(Seq<StmtView>, int), Seq<char>>
    decreases t.len() - pos, 4int,
{
    let p = skip_nl(t, pos);
    if !(0 <= pos <= p <= t.len()) {
        Err(seq![])
    } else if kind_at(t, p) == TokenType::CloseBrace || kind_at(t, p) == TokenType::Eof {
        match p_expect(t, p, TokenType::CloseBrace, "'}' to close block"@) {
            Err(e) => Err(e),
            Ok(p1) => Ok((acc, p1)),
        }
    } else {
        match p_stmt(t, p) {
            Err(e) => Err(e),
            Ok((s, p1)) => if adv(p1, p, t) {
                p_block(t, p1, acc.push(s))
            } else {
                Err(seq![])
            },
        }
    }
}

/// `fn` (at `pos`) name `(` parameters `)`, an optional `-> type`, then
/// `= expr` or a block.
pub open spec fn p_fn_decl(t: Seq<TokenView>, pos: int) -> Result<(StmtView, int), Seq<char>>
    decreases t.len() - pos, 2int,
{
    if kind_at(t, pos + 1) != TokenType::Identifier {
        Err(expect_msg(t, pos + 1, "function name"@))
    } else if kind_at(t, pos + 2) != TokenType::OpenParen {
        Err(expect_msg(t, pos + 2, "'(' after function name"@))
    } else {
        let name = t[pos + 1].value;
        let params: Result<(Seq<(Seq<char>, TypeView)>, int), Seq<char>> = if kind_at(t, pos + 3)
            != TokenType::CloseParen {
            p_params(t, pos + 3, seq![])
        } else {
            Ok((seq![], pos + 3))
        };
        match params {
            Err(e) => Err(e),
            Ok((ps, p1)) => match p_expect(t, p1, TokenType::CloseParen, "')' after parameters"@) {
                Err(e) => Err(e),
                Ok(p2) => {
                    let ret: Result<(Option<TypeView>, int), Seq<char>> = if kind_at(t, p2)
                        == TokenType::Arrow {
                        match p_type(t, p2 + 1) {
                            Err(e) => Err(e),
                            Ok((ty, p3)) => Ok((Some(ty), p3)),
                        }
                    } else {
                        Ok((None, p2))
                    };
                    match ret {
                        Err(e) => Err(e),
                        Ok((rt, p3)) => if !(pos < p3) {
                            Err(seq![])
                        } else if kind_at(t, p3) == TokenType::Equal {
                            match p_expr(t, p3 + 1, 0) {
                                Err(e) => Err(e),
                                Ok((e, p4)) => Ok((StmtView::Fn(name, ps, rt, Box::new(BodyView::Expr(e))), p4)),
                            }
                        } else {
                            match p_expect(t, p3, TokenType::OpenBrace, "'{' for function body"@) {
                                Err(e) => Err(e),
                                Ok(p4) => match p_block(t, p4, seq![]) {
                                    Err(e) => Err(e),
                                    Ok((b, p5)) => Ok((StmtView::Fn(name, ps, rt, Box::new(BodyView::Block(b))), p5)),
                                },
                            }
                        },
                    }
                },
            },
        }
    }
}

/// `while` (at `pos`) condition block.
pub open spec fn p_while(t: Seq<TokenView>, pos: int) -> Result<(StmtView, int), Seq<char>>
    decreases t.len() - pos, 2int,
{
    match p_expr(t, pos + 1, 0) {
        Err(e) => Err(e),
        Ok((c, p1)) => match p_expect(t, p1, TokenType::OpenBrace, "'{' for while body"@) {
            Err(e) => Err(e),
            Ok(p2) => if pos < p2 {
                match p_block(t, p2, seq![]) {
                    Err(e) => Err(e),
                    Ok((b, p3)) => Ok((StmtView::While(c, b), p3)),
                }
            } else {
                Err(seq![])
            },
        },
    }
}

/// `for` (at `pos`) variable, any identifier (meant to be `in`), the
/// iterated expression, block.
pub open spec fn p_for(t: Seq<TokenView>, pos: int) -> Result<(StmtView, int), Seq<char>>
    decreases t.len() - pos, 2int,
{
    if kind_at(t, pos + 1) != TokenType::Identifier {
        Err(expect_msg(t, pos + 1, "loop variable"@))
    } else if kind_at(t, pos + 2) != TokenType::Identifier {
        Err(expect_msg(t, pos + 2, "'in' keyword"@))
    } else {
        match p_expr(t, pos + 3, 0) {
            Err(e) => Err(e),
            Ok((it, p1)) => match p_expect(t, p1, TokenType::OpenBrace, "'{' for for body"@) {
                Err(e) => Err(e),
                Ok(p2) => if pos < p2 {
                    match p_block(t, p2, seq![]) {
                        Err(e) => Err(e),
                        Ok((b, p3)) => Ok((StmtView::For(t[pos + 1].value, it, b), p3)),
                    }
                } else {
                    Err(seq![])
                },
            },
        }
    }
}

/// A program from `pos` on, after the statements `acc`: newlines are
/// skipped before each statement; the program ends at `Eof`. The result
/// holds the statements and the position of the `Eof`.
pub open spec fn p_program(t: Seq<TokenView>, pos: int, acc: Seq<StmtView>) -> Result<(Seq<StmtView>, int), Seq<char>>
    decreases t.len() - pos,
{
    let p = skip_nl(t, pos);
    if !(0 <= pos <= p <= t.len()) {
        Err(seq![])
    } else if kind_at(t, p) == TokenType::Eof {
        Ok((acc, p))
    } else {
        match p_stmt(t, p) {
            Err(e) => Err(e),
            Ok((s, p1)) => if adv(p1, p, t) {
                p_program(t, p1, acc.push(s))
            } else {
                Err(seq![])
            },
        }
    }
}


// ---------------------------------------------------------------------
// The parser
// ---------------------------------------------------------------------

fn digit_of(c: char) -> (d: i64)
    requires
        is_digit(c),
    ensures
        d == digit_value(c),
{
    ((c as u32) - 0x30) as i64
}

/// `s.parse::<i64>()`, with the error's message.
fn parse_int(s: &String) -> (r: Result<i64, String>)
    ensures
        match parse_i64(s@) {
            Ok(v) => r == Ok::<i64, String>(v),
            Err(m) => r matches Err(e) && e@ == m,
        },
{
    let cs = chars_of(s);
    let n = cs.len();
    if n == 0 {
        return Err(string_from_str("cannot parse integer from empty string"));
    }
    if (cs[0] == '+' || cs[0] == '-') && n == 1 {
        return Err(string_from_str("invalid digit found in string"));
    }
    let neg = cs[0] == '-';
    let mut i: usize = if cs[0] == '+' || cs[0] == '-' {
        1
    } else {
        0
    };
    let ghost digits = if cs@[0] == '+' || cs@[0] == '-' {
        cs@.drop_first()
    } else {
        cs@
    };
    let ghost first = i;
    let mut acc: i64 = 0;
    assert(cs@.subrange(i as int, n as int) =~= digits);
    while i < n
        invariant
            i <= n,
            n == cs@.len(),
            first <= i,
            neg == (cs@[0] == '-'),
            parse_i64(s@) == accumulate(digits, 0, neg),
            cs@ == s@,
            n > 0,
            digits == cs@.subrange(first as int, n as int),
            accumulate(digits, 0, neg) == accumulate(cs@.subrange(i as int, n as int), acc as int, neg),
        decreases n - i,
    {
        let c = cs[i];
        let ghost rest = cs@.subrange(i as int, n as int);
        assert(rest[0] == c);
        assert(rest.drop_first() =~= cs@.subrange(i + 1, n as int));
        if !(0x30 <= (c as u32) && (c as u32) <= 0x39) {
            return Err(string_from_str("invalid digit found in string"));
        }
        let d = digit_of(c);
        let m = acc.checked_mul(10);
        let next = match m {
            None => None,
            Some(m) => if neg {
                m.checked_sub(d)
            } else {
                m.checked_add(d)
            },
        };
        match next {
            None => {
                if neg {
                    return Err(string_from_str("number too small to fit in target type"));
                } else {
                    return Err(string_from_str("number too large to fit in target type"));
                }
            },
            Some(v) => {
                acc = v;
            },
        }
        i = i + 1;
    }
    assert(cs@.subrange(i as int, n as int) =~= Seq::<char>::empty());
    Ok(acc)
}

fn is_binop_kind(k: TokenType) -> (b: bool)
    ensures
        b == is_binop_token(k),
{
    match k {
        TokenType::Plus | TokenType::Minus | TokenType::Star | TokenType::Slash | TokenType::Percent
        | TokenType::EqualEqual | TokenType::BangEqual | TokenType::Less | TokenType::Greater
        | TokenType::LessEqual | TokenType::GreaterEqual | TokenType::And | TokenType::Or => true,
        _ => false,
    }
}

fn token_to_binop(kind: TokenType) -> (op: BinaryOp)
    requires
        is_binop_token(kind),
    ensures
        op == binop_of(kind),
{
    match kind {
        TokenType::Plus => BinaryOp::Add,
        TokenType::Minus => BinaryOp::Sub,
        TokenType::Star => BinaryOp::Mul,
        TokenType::Slash => BinaryOp::Div,
        TokenType::Percent => BinaryOp::Mod,
        TokenType::EqualEqual => BinaryOp::Equal,
        TokenType::BangEqual => BinaryOp::NotEqual,
        TokenType::Less => BinaryOp::Less,
        TokenType::Greater => BinaryOp::Greater,
        TokenType::LessEqual => BinaryOp::LessEqual,
        TokenType::GreaterEqual => BinaryOp::GreaterEqual,
        TokenType::And => BinaryOp::And,
        _ => BinaryOp::Or,
    }
}

/// Turns tokens into a program.
pub struct Parser {
    tokens: Vec<Token>,
    pos: usize,
}

impl Parser {
    /// The models of the tokens.
    pub closed spec fn toks(&self) -> Seq<TokenView> {
        tokens_view(self.tokens@)
    }

    /// The index of the next token.
    pub closed spec fn position(&self) -> int {
        self.pos as int
    }

    /// The tokens end with `Eof` and the position is inside them.
    pub closed spec fn wf(&self) -> bool {
        tokens_ok(self.toks()) && self.pos < self.tokens.len()
    }

    pub fn new(tokens: Vec<Token>) -> (p: Self)
        ensures
            p.toks() == tokens_view(tokens@),
            p.position() == 0,
            tokens_ok(p.toks()) ==> p.wf(),
    {
        Parser { tokens, pos: 0 }
    }

    fn peek_kind(&self) -> (k: TokenType)
        requires
            self.wf(),
        ensures
            k == kind_at(self.toks(), self.pos as int),
    {
        self.tokens[self.pos].kind
    }

    fn peek(&self) -> (t: &Token)
        requires
            self.wf(),
        ensures
            t@ == self.toks()[self.pos as int],
    {
        &self.tokens[self.pos]
    }

    /// Consumes the next token.
    fn advance(&mut self) -> (t: Token)
        requires
            old(self).wf(),
        ensures
            t@ == old(self).toks()[old(self).pos as int],
            final(self).tokens == old(self).tokens,
            final(self).pos == old(self).pos + 1,
            t.kind != TokenType::Eof ==> final(self).wf(),
    {
        let t = self.tokens[self.pos].clone();
        self.pos = self.pos + 1;
        t
    }

    /// The message for an unexpected next token, where `what` was expected.
    fn expected_error(&self, what: &str) -> (e: String)
        requires
            self.wf(),
        ensures
            e@ == expect_msg(self.toks(), self.pos as int, what@),
    {
        let tok = self.peek();
        let mut e = string_from_str("Expected ");
        append_str(&mut e, what);
        append_str(&mut e, " but got ");
        append_str(&mut e, tok.kind.debug_name());
        append_str(&mut e, " ('");
        append_str(&mut e, tok.value.as_str());
        append_str(&mut e, "') at line ");
        push_decimal(&mut e, tok.line as u64);
        e
    }

    /// Consumes the next token if it has kind `kind`.
    fn expect(&mut self, kind: TokenType, what: &str) -> (r: Result<Token, String>)
        requires
            old(self).wf(),
        ensures
            final(self).tokens == old(self).tokens,
            match p_expect(old(self).toks(), old(self).pos as int, kind, what@) {
                Ok(p) => r matches Ok(t) && t@ == old(self).toks()[old(self).pos as int]
                    && final(self).pos == p && (kind != TokenType::Eof ==> final(self).wf()),
                Err(m) => r matches Err(e) && e@ == m && final(self).pos == old(self).pos,
            },
    {
        if self.peek_kind() == kind {
            Ok(self.advance())
        } else {
            Err(self.expected_error(what))
        }
    }

    fn peek_precedence(&self) -> (p: u8)
        requires
            self.wf(),
        ensures
            p as int == precedence(kind_at(self.toks(), self.pos as int)),
    {
        match self.peek_kind() {
            TokenType::EqualEqual | TokenType::BangEqual | TokenType::Less | TokenType::Greater
            | TokenType::LessEqual | TokenType::GreaterEqual => 2,
            TokenType::And | TokenType::Or => 1,
            TokenType::Plus | TokenType::Minus => 3,
            TokenType::Star | TokenType::Slash | TokenType::Percent => 4,
            TokenType::Equal => 0,
            TokenType::OpenParen => 7,
            TokenType::Dot => 8,
            _ => 0,
        }
    }

    fn skip_newlines(&mut self)
        requires
            old(self).wf(),
        ensures
            final(self).wf(),
            final(self).tokens == old(self).tokens,
            final(self).pos == skip_nl(old(self).toks(), old(self).pos as int),
    {
        let ghost t = self.toks();
        while self.peek_kind() == TokenType::Newline
            invariant
                self.wf(),
                self.tokens == old(self).tokens,
                t == self.toks(),
                skip_nl(t, old(self).pos as int) == skip_nl(t, self.pos as int),
            decreases self.tokens.len() - self.pos,
        {
            self.advance();
        }
    }

    fn parse_type(&mut self) -> (r: Result<TypeAnnotation, String>)
        requires
            old(self).wf(),
        ensures
            final(self).tokens == old(self).tokens,
            match p_type(old(self).toks(), old(self).pos as int) {
                Ok((x, p)) => r matches Ok(y) && type_v(y) == x && final(self).pos == p,
                Err(m) => r matches Err(e) && e@ == m && final(self).pos == p_type_stop(
                    old(self).toks(),
                    old(self).pos as int,
                ),
            },
            r is Ok ==> final(self).wf() && old(self).pos < final(self).pos,
        decreases old(self).tokens.len() - old(self).pos,
    {
        let name_tok = self.expect(TokenType::Identifier, "type name")?;
        let mut params: Vec<TypeAnnotation> = Vec::new();
        if self.peek_kind() == TokenType::OpenBracket {
            self.advance();
            let param = self.parse_type()?;
            let ghost pv = type_v(param);
            params.push(param);
            proof {
                assert(params@ =~= seq![params@[0]]);
                crate::ast::lemma_types_v_one(params@[0]);
            }
            self.expect(TokenType::CloseBracket, "']'")?;
        } else {
            proof {
                crate::ast::lemma_empty_views();
            }
        }
        Ok(TypeAnnotation { name: name_tok.value, params })
    }

    fn parse_expr(&mut self, min_prec: u8) -> (r: Result<Expr, String>)
        requires
            old(self).wf(),
        ensures
            final(self).tokens == old(self).tokens,
            match p_expr(old(self).toks(), old(self).pos as int, min_prec as int) {
                Ok((x, p)) => r matches Ok(y) && expr_v(y) == x && final(self).pos == p,
                Err(m) => r matches Err(e) && e@ == m,
            },
            r is Ok ==> final(self).wf() && old(self).pos < final(self).pos,
        decreases old(self).tokens.len() - old(self).pos, 1int,
    {
        let ghost t = self.toks();
        let ghost start = self.pos as int;
        let mut left = self.parse_primary()?;
        loop
            invariant
                self.wf(),
                self.tokens == old(self).tokens,
                t == self.toks(),
                start == old(self).pos,
                start < self.pos,
                p_expr(t, start, min_prec as int) == p_loop(t, self.pos as int, min_prec as int, expr_v(left)),
            decreases self.tokens.len() - self.pos,
        {
            let k = self.peek_kind();
            if k == TokenType::Eof || !(k == TokenType::Equal || is_binop_kind(k) || k
                == TokenType::OpenParen || k == TokenType::Dot) || self.peek_precedence() < min_prec {
                return Ok(left);
            }
            let prec = self.peek_precedence();
            self.advance();
            if k == TokenType::Equal {
                let right = self.parse_expr(prec)?;
                left = Expr::Assignment { target: Box::new(left), value: Box::new(right) };
            } else if is_binop_kind(k) {
                let right = self.parse_expr(prec + 1)?;
                left = Expr::Binary { left: Box::new(left), operator: token_to_binop(k), right: Box::new(right) };
            } else if k == TokenType::OpenParen {
                let args = self.parse_call_args()?;
                left = Expr::Call { callee: Box::new(left), args };
            } else {
                let field = self.expect(TokenType::Identifier, "field name")?;
                left = Expr::FieldAccess { object: Box::new(left), field: field.value };
            }
        }
    }

    /// The arguments of a call, after its `(`.
    fn parse_call_args(&mut self) -> (r: Result<Vec<Expr>, String>)
        requires
            old(self).wf(),
        ensures
            final(self).tokens == old(self).tokens,
            match p_args(old(self).toks(), old(self).pos as int) {
                Ok((x, p)) => r matches Ok(y) && exprs_v(y@) == x && final(self).pos == p,
                Err(m) => r matches Err(e) && e@ == m,
            },
            r is Ok ==> final(self).wf() && old(self).pos < final(self).pos,
        decreases old(self).tokens.len() - old(self).pos, 3int,
    {
        if self.peek_kind() == TokenType::CloseParen {
            self.advance();
            proof {
                crate::ast::lemma_empty_views();
            }
            return Ok(Vec::new());
        }
        proof {
            crate::ast::lemma_empty_views();
        }
        self.parse_arg_list(Vec::new())
    }

    fn parse_arg_list(&mut self, acc: Vec<Expr>) -> (r: Result<Vec<Expr>, String>)
        requires
            old(self).wf(),
        ensures
            final(self).tokens == old(self).tokens,
            match p_arg_list(old(self).toks(), old(self).pos as int, exprs_v(acc@)) {
                Ok((x, p)) => r matches Ok(y) && exprs_v(y@) == x && final(self).pos == p,
                Err(m) => r matches Err(e) && e@ == m,
            },
            r is Ok ==> final(self).wf() && old(self).pos < final(self).pos,
        decreases old(self).tokens.len() - old(self).pos, 2int,
    {
        let a = self.parse_expr(0)?;
        let mut acc = acc;
        proof {
            crate::ast::lemma_exprs_v_push(acc@, a);
        }
        acc.push(a);
        if self.peek_kind() == TokenType::Comma {
            self.advance();
            self.parse_arg_list(acc)
        } else {
            self.expect(TokenType::CloseParen, "')' after call args")?;
            Ok(acc)
        }
    }

    fn parse_primary(&mut self) -> (r: Result<Expr, String>)
        requires
            old(self).wf(),
        ensures
            final(self).tokens == old(self).tokens,
            match p_primary(old(self).toks(), old(self).pos as int) {
                Ok((x, p)) => r matches Ok(y) && expr_v(y) == x && final(self).pos == p,
                Err(m) => r matches Err(e) && e@ == m,
            },
            r is Ok ==> final(self).wf() && old(self).pos < final(self).pos,
        decreases old(self).tokens.len() - old(self).pos, 0int,
    {
        let tok = self.advance();
        let k = tok.kind;
        if k == TokenType::Number {
            match parse_int(&tok.value) {
                Ok(v) => Ok(Expr::Int(v)),
                Err(m) => {
                    let mut e = string_from_str("Invalid number: ");
                    append_str(&mut e, m.as_str());
                    Err(e)
                },
            }
        } else if k == TokenType::String {
            Ok(Expr::String(tok.value))
        } else if k == TokenType::True {
            Ok(Expr::Bool(true))
        } else if k == TokenType::False {
            Ok(Expr::Bool(false))
        } else if k == TokenType::Null {
            Ok(Expr::Null)
        } else if k == TokenType::Identifier {
            if self.peek_kind() == TokenType::OpenBrace {
                self.advance();
                self.parse_struct(tok.value)
            } else {
                Ok(Expr::Identifier(tok.value))
            }
        } else if k == TokenType::Minus || k == TokenType::Bang {
            let e = self.parse_expr(6)?;
            let operator = if k == TokenType::Minus {
                UnaryOp::Negate
            } else {
                UnaryOp::Not
            };
            Ok(Expr::Unary { operator, right: Box::new(e) })
        } else if k == TokenType::OpenParen {
            let e = self.parse_expr(0)?;
            self.expect(TokenType::CloseParen, "')' after expression")?;
            Ok(e)
        } else if k == TokenType::If {
            self.parse_if()
        } else {
            let mut e = string_from_str("Unexpected token ");
            append_str(&mut e, k.debug_name());
            append_str(&mut e, " at line ");
            push_decimal(&mut e, tok.line as u64);
            Err(e)
        }
    }

    /// A struct literal's fields, after `name {`.
    fn parse_struct(&mut self, name: String) -> (r: Result<Expr, String>)
        requires
            old(self).wf(),
        ensures
            final(self).tokens == old(self).tokens,
            match p_struct(old(self).toks(), old(self).pos as int, name@) {
                Ok((x, p)) => r matches Ok(y) && expr_v(y) == x && final(self).pos == p,
                Err(m) => r matches Err(e) && e@ == m,
            },
            r is Ok ==> final(self).wf() && old(self).pos < final(self).pos,
        decreases old(self).tokens.len() - old(self).pos, 3int,
    {
        proof {
            crate::ast::lemma_empty_views();
        }
        if self.peek_kind() == TokenType::CloseBrace {
            self.advance();
            return Ok(Expr::StructLiteral { name, fields: Vec::new() });
        }
        self.parse_field_list(name, Vec::new())
    }

    fn parse_field_list(&mut self, name: String, acc: Vec<(String, Expr)>) -> (r: Result<Expr, String>)
        requires
            old(self).wf(),
        ensures
            final(self).tokens == old(self).tokens,
            match p_field_list(old(self).toks(), old(self).pos as int, name@, fields_v(acc@)) {
                Ok((x, p)) => r matches Ok(y) && expr_v(y) == x && final(self).pos == p,
                Err(m) => r matches Err(e) && e@ == m,
            },
            r is Ok ==> final(self).wf() && old(self).pos < final(self).pos,
        decreases old(self).tokens.len() - old(self).pos, 2int,
    {
        let field_tok = self.expect(TokenType::Identifier, "field name")?;
        self.expect(TokenType::Colon, "':' in struct field")?;
        let v = self.parse_expr(0)?;
        let mut acc = acc;
        let pair = (field_tok.value, v);
        proof {
            crate::ast::lemma_fields_v_push(acc@, pair);
        }
        acc.push(pair);
        if self.peek_kind() == TokenType::Comma {
            self.advance();
            self.parse_field_list(name, acc)
        } else {
            self.expect(TokenType::CloseBrace, "'}' for struct literal")?;
            Ok(Expr::StructLiteral { name, fields: acc })
        }
    }

    /// An `if` expression, after its `if`.
    fn parse_if(&mut self) -> (r: Result<Expr, String>)
        requires
            old(self).wf(),
        ensures
            final(self).tokens == old(self).tokens,
            match p_if(old(self).toks(), old(self).pos as int) {
                Ok((x, p)) => r matches Ok(y) && expr_v(y) == x && final(self).pos == p,
                Err(m) => r matches Err(e) && e@ == m,
            },
            r is Ok ==> final(self).wf() && old(self).pos < final(self).pos,
        decreases old(self).tokens.len() - old(self).pos, 3int,
    {
        let condition = self.parse_expr(0)?;
        let then_branch = self.parse_branch()?;
        if self.peek_kind() == TokenType::Else {
            self.advance();
            let else_expr = if self.peek_kind() == TokenType::If {
                self.advance();
                self.parse_if()?
            } else {
                self.parse_branch()?
            };
            Ok(
                Expr::If {
                    condition: Box::new(condition),
                    then_branch: Box::new(then_branch),
                    else_branch: Some(Box::new(else_expr)),
                },
            )
        } else {
            Ok(
                Expr::If {
                    condition: Box::new(condition),
                    then_branch: Box::new(then_branch),
                    else_branch: None,
                },
            )
        }
    }

    /// A branch of an `if`: `{ expression }`, with newlines allowed
    /// around the expression.
    fn parse_branch(&mut self) -> (r: Result<Expr, String>)
        requires
            old(self).wf(),
        ensures
            final(self).tokens == old(self).tokens,
            match p_branch(old(self).toks(), old(self).pos as int) {
                Ok((x, p)) => r matches Ok(y) && expr_v(y) == x && final(self).pos == p,
                Err(m) => r matches Err(e) && e@ == m,
            },
            r is Ok ==> final(self).wf() && old(self).pos < final(self).pos,
        decreases old(self).tokens.len() - old(self).pos, 2int,
    {
        let ghost t = self.toks();
        self.expect(TokenType::OpenBrace, "'{' for if branch")?;
        let ghost p1 = self.pos as int;
        self.skip_newlines();
        proof {
            lemma_skip_nl(t, p1);
        }
        let e = self.parse_expr(0)?;
        let ghost p3 = self.pos as int;
        self.skip_newlines();
        proof {
            lemma_skip_nl(t, p3);
        }
        self.expect(TokenType::CloseBrace, "'}' to close if branch")?;
        Ok(e)
    }

    /// Parses the whole program: statements up to `Eof`, newlines skipped
    /// between them.
    pub fn parse(&mut self) -> (r: Result<Program, String>)
        requires
            old(self).wf(),
        ensures
            final(self).toks() == old(self).toks(),
            match p_program(old(self).toks(), old(self).position(), seq![]) {
                Ok((x, p)) => r matches Ok(y) && stmts_v(y.stmts@) == x && final(self).position() == p,
                Err(m) => r matches Err(e) && e@ == m,
            },
            r is Ok ==> final(self).wf(),
    {
        let ghost t = self.toks();
        let ghost start = self.pos as int;
        let mut stmts: Vec<Stmt> = Vec::new();
        proof {
            crate::ast::lemma_empty_views();
        }
        loop
            invariant
                self.wf(),
                self.tokens == old(self).tokens,
                t == self.toks(),
                start == old(self).pos,
                p_program(t, start, seq![]) == p_program(t, self.pos as int, stmts_v(stmts@)),
            decreases self.tokens.len() - self.pos,
        {
            let ghost p0 = self.pos as int;
            self.skip_newlines();
            proof {
                lemma_skip_nl(t, p0);
            }
            if self.peek_kind() == TokenType::Eof {
                return Ok(Program { stmts });
            }
            let st = self.parse_stmt()?;
            proof {
                crate::ast::lemma_stmts_v_push(stmts@, st);
            }
            stmts.push(st);
        }
    }

    fn parse_stmt(&mut self) -> (r: Result<Stmt, String>)
        requires
            old(self).wf(),
        ensures
            final(self).tokens == old(self).tokens,
            match p_stmt(old(self).toks(), old(self).pos as int) {
                Ok((x, p)) => r matches Ok(y) && stmt_v(y) == x && final(self).pos == p,
                Err(m) => r matches Err(e) && e@ == m,
            },
            r is Ok ==> final(self).wf() && old(self).pos < final(self).pos,
        decreases old(self).tokens.len() - old(self).pos, 3int,
    {
        let k = self.peek_kind();
        if k == TokenType::Let || k == TokenType::Const || k == TokenType::Mut {
            self.parse_var_decl()
        } else if k == TokenType::Fn {
            self.parse_fn_decl()
        } else if k == TokenType::Return {
            self.parse_return()
        } else if k == TokenType::While {
            self.parse_while()
        } else if k == TokenType::For {
            self.parse_for()
        } else if k == TokenType::OpenBrace {
            self.advance();
            let body = self.parse_block()?;
            Ok(Stmt::Block(body))
        } else {
            let e = self.parse_expr(0)?;
            Ok(Stmt::Expression(e))
        }
    }

    fn parse_var_decl(&mut self) -> (r: Result<Stmt, String>)
        requires
            old(self).wf(),
            kind_at(old(self).toks(), old(self).pos as int) != TokenType::Eof,
        ensures
            final(self).tokens == old(self).tokens,
            match p_var_decl(old(self).toks(), old(self).pos as int) {
                Ok((x, p)) => r matches Ok(y) && stmt_v(y) == x && final(self).pos == p,
                Err(m) => r matches Err(e) && e@ == m,
            },
            r is Ok ==> final(self).wf() && old(self).pos < final(self).pos,
    {
        let kind = self.peek_kind();
        let constant = kind == TokenType::Const;
        let mutable = kind == TokenType::Mut;
        self.advance();
        let name = self.expect(TokenType::Identifier, "variable name")?.value;
        let type_annotation = if self.peek_kind() == TokenType::Identifier {
            Some(self.parse_type()?)
        } else {
            None
        };
        let value = if self.peek_kind() == TokenType::Equal {
            self.advance();
            Some(self.parse_expr(0)?)
        } else {
            None
        };
        Ok(Stmt::VarDeclaration(VarDecl { name, type_annotation, value, constant, mutable }))
    }

    fn parse_params(&mut self, acc: Vec<(String, TypeAnnotation)>) -> (r: Result<Vec<(String, TypeAnnotation)>, String>)
        requires
            old(self).wf(),
        ensures
            final(self).tokens == old(self).tokens,
            match p_params(old(self).toks(), old(self).pos as int, params_v(acc@)) {
                Ok((x, p)) => r matches Ok(y) && params_v(y@) == x && final(self).pos == p,
                Err(m) => r matches Err(e) && e@ == m,
            },
            r is Ok ==> final(self).wf() && old(self).pos < final(self).pos,
        decreases old(self).tokens.len() - old(self).pos,
    {
        let param_name = self.expect(TokenType::Identifier, "parameter name")?.value;
        let param_type = self.parse_type()?;
        let mut acc = acc;
        let pair = (param_name, param_type);
        let ghost before = acc@;
        acc.push(pair);
        assert(params_v(acc@) =~= params_v(before).push((pair.0@, type_v(pair.1))));
        if self.peek_kind() == TokenType::Comma {
            self.advance();
            self.parse_params(acc)
        } else {
            Ok(acc)
        }
    }

    fn parse_fn_decl(&mut self) -> (r: Result<Stmt, String>)
        requires
            old(self).wf(),
            kind_at(old(self).toks(), old(self).pos as int) == TokenType::Fn,
        ensures
            final(self).tokens == old(self).tokens,
            match p_fn_decl(old(self).toks(), old(self).pos as int) {
                Ok((x, p)) => r matches Ok(y) && stmt_v(y) == x && final(self).pos == p,
                Err(m) => r matches Err(e) && e@ == m,
            },
            r is Ok ==> final(self).wf() && old(self).pos < final(self).pos,
        decreases old(self).tokens.len() - old(self).pos, 2int,
    {
        self.advance();
        let name = self.expect(TokenType::Identifier, "function name")?.value;
        self.expect(TokenType::OpenParen, "'(' after function name")?;
        proof {
            crate::ast::lemma_empty_views();
        }
        let mut params: Vec<(String, TypeAnnotation)> = Vec::new();
        if self.peek_kind() != TokenType::CloseParen {
            params = self.parse_params(Vec::new())?;
        }
        self.expect(TokenType::CloseParen, "')' after parameters")?;
        let return_type = if self.peek_kind() == TokenType::Arrow {
            self.advance();
            Some(self.parse_type()?)
        } else {
            None
        };
        let body = if self.peek_kind() == TokenType::Equal {
            self.advance();
            ExprOrBlock::Expr(self.parse_expr(0)?)
        } else {
            self.expect(TokenType::OpenBrace, "'{' for function body")?;
            ExprOrBlock::Block(self.parse_block()?)
        };
        Ok(Stmt::FnDeclaration(FnDecl { name, params, return_type, body: Box::new(body) }))
    }

    fn parse_return(&mut self) -> (r: Result<Stmt, String>)
        requires
            old(self).wf(),
            kind_at(old(self).toks(), old(self).pos as int) == TokenType::Return,
        ensures
            final(self).tokens == old(self).tokens,
            match p_return(old(self).toks(), old(self).pos as int) {
                Ok((x, p)) => r matches Ok(y) && stmt_v(y) == x && final(self).pos == p,
                Err(m) => r matches Err(e) && e@ == m,
            },
            r is Ok ==> final(self).wf() && old(self).pos < final(self).pos,
    {
        self.advance();
        let k = self.peek_kind();
        if k == TokenType::Newline || k == TokenType::CloseBrace || k == TokenType::Eof {
            Ok(Stmt::Return(None))
        } else {
            let e = self.parse_expr(0)?;
            Ok(Stmt::Return(Some(e)))
        }
    }

    fn parse_while(&mut self) -> (r: Result<Stmt, String>)
        requires
            old(self).wf(),
            kind_at(old(self).toks(), old(self).pos as int) == TokenType::While,
        ensures
            final(self).tokens == old(self).tokens,
            match p_while(old(self).toks(), old(self).pos as int) {
                Ok((x, p)) => r matches Ok(y) && stmt_v(y) == x && final(self).pos == p,
                Err(m) => r matches Err(e) && e@ == m,
            },
            r is Ok ==> final(self).wf() && old(self).pos < final(self).pos,
        decreases old(self).tokens.len() - old(self).pos, 2int,
    {
        self.advance();
        let condition = self.parse_expr(0)?;
        self.expect(TokenType::OpenBrace, "'{' for while body")?;
        let body = self.parse_block()?;
        Ok(Stmt::While(condition, body))
    }

    fn parse_for(&mut self) -> (r: Result<Stmt, String>)
        requires
            old(self).wf(),
            kind_at(old(self).toks(), old(self).pos as int) == TokenType::For,
        ensures
            final(self).tokens == old(self).tokens,
            match p_for(old(self).toks(), old(self).pos as int) {
                Ok((x, p)) => r matches Ok(y) && stmt_v(y) == x && final(self).pos == p,
                Err(m) => r matches Err(e) && e@ == m,
            },
            r is Ok ==> final(self).wf() && old(self).pos < final(self).pos,
        decreases old(self).tokens.len() - old(self).pos, 2int,
    {
        self.advance();
        let var = self.expect(TokenType::Identifier, "loop variable")?.value;
        // any identifier is taken where `in` belongs
        self.expect(TokenType::Identifier, "'in' keyword")?;
        let iter = Box::new(self.parse_expr(0)?);
        self.expect(TokenType::OpenBrace, "'{' for for body")?;
        let body = self.parse_block()?;
        Ok(Stmt::For { var, iter, body })
    }

    /// The statements of a block, after its `{`, up to and including its `}`.
    fn parse_block(&mut self) -> (r: Result<Vec<Stmt>, String>)
        requires
            old(self).wf(),
        ensures
            final(self).tokens == old(self).tokens,
            match p_block(old(self).toks(), old(self).pos as int, seq![]) {
                Ok((x, p)) => r matches Ok(y) && stmts_v(y@) == x && final(self).pos == p,
                Err(m) => r matches Err(e) && e@ == m,
            },
            r is Ok ==> final(self).wf() && old(self).pos < final(self).pos,
        decreases old(self).tokens.len() - old(self).pos, 4int,
    {
        let ghost t = self.toks();
        let ghost start = self.pos as int;
        let mut stmts: Vec<Stmt> = Vec::new();
        proof {
            crate::ast::lemma_empty_views();
        }
        loop
            invariant
                self.wf(),
                self.tokens == old(self).tokens,
                t == self.toks(),
                start == old(self).pos,
                start <= self.pos,
                p_block(t, start, seq![]) == p_block(t, self.pos as int, stmts_v(stmts@)),
            decreases self.tokens.len() - self.pos,
        {
            let ghost p0 = self.pos as int;
            self.skip_newlines();
            proof {
                lemma_skip_nl(t, p0);
            }
            let k = self.peek_kind();
            if k == TokenType::CloseBrace || k == TokenType::Eof {
                self.expect(TokenType::CloseBrace, "'}' to close block")?;
                return Ok(stmts);
            }
            let st = self.parse_stmt()?;
            proof {
                crate::ast::lemma_stmts_v_push(stmts@, st);
            }
            stmts.push(st);
        }
    }
}

} // verus!
