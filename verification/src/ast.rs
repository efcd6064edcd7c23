//! The syntax tree, and its mathematical model.

use vstd::prelude::*;
use crate::text::string_from_str;

verus! {

/// A type written in the source: a name and type parameters.
#[derive(Debug)]
pub struct TypeAnnotation {
    pub name: String,
    pub params: Vec<TypeAnnotation>,
}

#[derive(Debug, Clone, Copy, PartialEq, Eq, Structural)]
pub enum BinaryOp {
    Add,
    Sub,
    Mul,
    Div,
    Mod,
    Equal,
    NotEqual,
    Less,
    Greater,
    LessEqual,
    GreaterEqual,
    And,
    Or,
}

#[derive(Debug, Clone, Copy, PartialEq, Eq, Structural)]
pub enum UnaryOp {
    Negate,
    Not,
}

#[derive(Debug)]
pub enum Pattern {
    Identifier(String),
    EnumVariant(String, Vec<String>),
}

#[derive(Debug)]
pub struct MatchArm {
    pub pattern: Pattern,
    pub body: Box<Expr>,
}

#[derive(Debug)]
pub enum Expr {
    Int(i64),
    Bool(bool),
    String(String),
    Null,
    Identifier(String),
    Binary { left: Box<Expr>, operator: BinaryOp, right: Box<Expr> },
    Unary { operator: UnaryOp, right: Box<Expr> },
    Assignment { target: Box<Expr>, value: Box<Expr> },
    Call { callee: Box<Expr>, args: Vec<Expr> },
    If { condition: Box<Expr>, then_branch: Box<Expr>, else_branch: Option<Box<Expr>> },
    Match { value: Box<Expr>, arms: Vec<MatchArm> },
    StructLiteral { name: String, fields: Vec<(String, Expr)> },
    FieldAccess { object: Box<Expr>, field: String },
    Array(Vec<Expr>),
    Tuple(Vec<Expr>),
}

#[derive(Debug)]
pub struct VarDecl {
    pub name: String,
    pub type_annotation: Option<TypeAnnotation>,
    pub value: Option<Expr>,
    pub constant: bool,
    pub mutable: bool,
}

#[derive(Debug)]
pub struct FnDecl {
    pub name: String,
    pub params: Vec<(String, TypeAnnotation)>,
    pub return_type: Option<TypeAnnotation>,
    pub body: Box<ExprOrBlock>,
}

#[derive(Debug)]
pub enum ExprOrBlock {
    Expr(Expr),
    Block(Vec<Stmt>),
}

#[derive(Debug)]
pub enum Stmt {
    VarDeclaration(VarDecl),
    FnDeclaration(FnDecl),
    Expression(Expr),
    Return(Option<Expr>),
    While(Expr, Vec<Stmt>),
    For { var: String, iter: Box<Expr>, body: Vec<Stmt> },
    Block(Vec<Stmt>),
}

#[derive(Debug)]
pub struct Program {
    pub stmts: Vec<Stmt>,
}

// ---------------------------------------------------------------------
// The model: the same trees with text as character sequences.
// ---------------------------------------------------------------------

pub enum TypeView {
    Named(Seq<char>, Seq<TypeView>),
}

pub enum PatternView {
    Ident(Seq<char>),
    Variant(Seq<char>, Seq<Seq<char>>),
}

pub enum ExprView {
    Int(i64),
    Bool(bool),
    Str(Seq<char>),
    Null,
    Ident(Seq<char>),
    Binary(Box<ExprView>, BinaryOp, Box<ExprView>),
    Unary(UnaryOp, Box<ExprView>),
    Assign(Box<ExprView>, Box<ExprView>),
    Call(Box<ExprView>, Seq<ExprView>),
    If(Box<ExprView>, Box<ExprView>, Option<Box<ExprView>>),
    Match(Box<ExprView>, Seq<(PatternView, ExprView)>),
    StructLit(Seq<char>, Seq<(Seq<char>, ExprView)>),
    Field(Box<ExprView>, Seq<char>),
    Array(Seq<ExprView>),
    Tuple(Seq<ExprView>),
}

pub struct VarDeclView {
    pub name: Seq<char>,
    pub type_annotation: Option<TypeView>,
    pub value: Option<ExprView>,
    pub constant: bool,
    pub mutable: bool,
}

pub enum BodyView {
    Expr(ExprView),
    Block(Seq<StmtView>),
}

pub enum StmtView {
    Var(VarDeclView),
    Fn(Seq<char>, Seq<(Seq<char>, TypeView)>, Option<TypeView>, Box<BodyView>),
    Expr(ExprView),
    Return(Option<ExprView>),
    While(ExprView, Seq<StmtView>),
    For(Seq<char>, ExprView, Seq<StmtView>),
    Block(Seq<StmtView>),
}

pub open spec fn type_v(t: TypeAnnotation) -> TypeView
    decreases t,
{
    TypeView::Named(t.name@, types_v(t.params@))
}

pub open spec fn types_v(ts: Seq<TypeAnnotation>) -> Seq<TypeView>
    decreases ts,
{
    if ts.len() == 0 {
        seq![]
    } else {
        seq![type_v(ts[0])] + types_v(ts.subrange(1, ts.len() as int))
    }
}

pub open spec fn opt_type_v(t: Option<TypeAnnotation>) -> Option<TypeView> {
    match t {
        Some(t) => Some(type_v(t)),
        None => None,
    }
}

pub open spec fn strings_v(ss: Seq<String>) -> Seq<Seq<char>> {
    ss.map_values(|s: String| s@)
}

pub open spec fn pattern_v(p: Pattern) -> PatternView {
    match p {
        Pattern::Identifier(s) => PatternView::Ident(s@),
        Pattern::EnumVariant(s, ss) => PatternView::Variant(s@, strings_v(ss@)),
    }
}

pub open spec fn expr_v(e: Expr) -> ExprView
    decreases e,
{
    match e {
        Expr::Int(v) => ExprView::Int(v),
        Expr::Bool(b) => ExprView::Bool(b),
        Expr::String(s) => ExprView::Str(s@),
        Expr::Null => ExprView::Null,
        Expr::Identifier(s) => ExprView::Ident(s@),
        Expr::Binary { left, operator, right } => ExprView::Binary(
            Box::new(expr_v(*left)),
            operator,
            Box::new(expr_v(*right)),
        ),
        Expr::Unary { operator, right } => ExprView::Unary(operator, Box::new(expr_v(*right))),
        Expr::Assignment { target, value } => ExprView::Assign(
            Box::new(expr_v(*target)),
            Box::new(expr_v(*value)),
        ),
        Expr::Call { callee, args } => ExprView::Call(Box::new(expr_v(*callee)), exprs_v(args@)),
        Expr::If { condition, then_branch, else_branch } => ExprView::If(
            Box::new(expr_v(*condition)),
            Box::new(expr_v(*then_branch)),
            match else_branch {
                Some(e) => Some(Box::new(expr_v(*e))),
                None => None,
            },
        ),
        Expr::Match { value, arms } => ExprView::Match(Box::new(expr_v(*value)), arms_v(arms@)),
        Expr::StructLiteral { name, fields } => ExprView::StructLit(name@, fields_v(fields@)),
        Expr::FieldAccess { object, field } => ExprView::Field(Box::new(expr_v(*object)), field@),
        Expr::Array(es) => ExprView::Array(exprs_v(es@)),
        Expr::Tuple(es) => ExprView::Tuple(exprs_v(es@)),
    }
}

pub open spec fn exprs_v(es: Seq<Expr>) -> Seq<ExprView>
    decreases es,
{
    if es.len() == 0 {
        seq![]
    } else {
        seq![expr_v(es[0])] + exprs_v(es.subrange(1, es.len() as int))
    }
}

pub open spec fn arms_v(arms: Seq<MatchArm>) -> Seq<(PatternView, ExprView)>
    decreases arms,
{
    if arms.len() == 0 {
        seq![]
    } else {
        seq![(pattern_v(arms[0].pattern), expr_v(*arms[0].body))] + arms_v(
            arms.subrange(1, arms.len() as int),
        )
    }
}

pub open spec fn fields_v(fs: Seq<(String, Expr)>) -> Seq<(Seq<char>, ExprView)>
    decreases fs,
{
    if fs.len() == 0 {
        seq![]
    } else {
        seq![(fs[0].0@, expr_v(fs[0].1))] + fields_v(fs.subrange(1, fs.len() as int))
    }
}

pub open spec fn opt_expr_v(e: Option<Expr>) -> Option<ExprView> {
    match e {
        Some(e) => Some(expr_v(e)),
        None => None,
    }
}

pub open spec fn params_v(ps: Seq<(String, TypeAnnotation)>) -> Seq<(Seq<char>, TypeView)> {
    ps.map_values(|p: (String, TypeAnnotation)| (p.0@, type_v(p.1)))
}

pub open spec fn stmt_v(s: Stmt) -> StmtView
    decreases s,
{
    match s {
        Stmt::VarDeclaration(d) => StmtView::Var(
            VarDeclView {
                name: d.name@,
                type_annotation: opt_type_v(d.type_annotation),
                value: opt_expr_v(d.value),
                constant: d.constant,
                mutable: d.mutable,
            },
        ),
        Stmt::FnDeclaration(f) => StmtView::Fn(
            f.name@,
            params_v(f.params@),
            opt_type_v(f.return_type),
            Box::new(
                match *f.body {
                    ExprOrBlock::Expr(e) => BodyView::Expr(expr_v(e)),
                    ExprOrBlock::Block(b) => BodyView::Block(stmts_v(b@)),
                },
            ),
        ),
        Stmt::Expression(e) => StmtView::Expr(expr_v(e)),
        Stmt::Return(e) => StmtView::Return(opt_expr_v(e)),
        Stmt::While(c, b) => StmtView::While(expr_v(c), stmts_v(b@)),
        Stmt::For { var, iter, body } => StmtView::For(var@, expr_v(*iter), stmts_v(body@)),
        Stmt::Block(b) => StmtView::Block(stmts_v(b@)),
    }
}

pub open spec fn stmts_v(ss: Seq<Stmt>) -> Seq<StmtView>
    decreases ss,
{
    if ss.len() == 0 {
        seq![]
    } else {
        seq![stmt_v(ss[0])] + stmts_v(ss.subrange(1, ss.len() as int))
    }
}

impl TypeAnnotation {
    /// A type with the given name and no parameters.
    pub fn simple(name: &str) -> (t: Self)
        ensures
            type_v(t) == TypeView::Named(name@, seq![]),
    {
        let t = TypeAnnotation { name: string_from_str(name), params: Vec::new() };
        assert(types_v(t.params@) =~= seq![]);
        t
    }
}


pub proof fn lemma_exprs_v_push(s: Seq<Expr>, e: Expr)
    ensures
        exprs_v(s.push(e)) == exprs_v(s).push(expr_v(e)),
    decreases s.len(),
{
    if s.len() == 0 {
        assert(s.push(e).subrange(1, 1) =~= Seq::<Expr>::empty());
        assert(exprs_v(Seq::<Expr>::empty()) =~= seq![]);
        assert(exprs_v(s.push(e)) =~= exprs_v(s).push(expr_v(e)));
    } else {
        let rest = s.subrange(1, s.len() as int);
        assert(s.push(e).subrange(1, s.len() as int + 1) =~= rest.push(e));
        lemma_exprs_v_push(rest, e);
        assert(exprs_v(s.push(e)) =~= exprs_v(s).push(expr_v(e)));
    }
}

pub proof fn lemma_fields_v_push(s: Seq<(String, Expr)>, f: (String, Expr))
    ensures
        fields_v(s.push(f)) == fields_v(s).push((f.0@, expr_v(f.1))),
    decreases s.len(),
{
    if s.len() == 0 {
        assert(s.push(f).subrange(1, 1) =~= Seq::<(String, Expr)>::empty());
        assert(fields_v(Seq::<(String, Expr)>::empty()) =~= seq![]);
        assert(fields_v(s.push(f)) =~= fields_v(s).push((f.0@, expr_v(f.1))));
    } else {
        let rest = s.subrange(1, s.len() as int);
        assert(s.push(f).subrange(1, s.len() as int + 1) =~= rest.push(f));
        lemma_fields_v_push(rest, f);
        assert(fields_v(s.push(f)) =~= fields_v(s).push((f.0@, expr_v(f.1))));
    }
}

pub proof fn lemma_stmts_v_push(s: Seq<Stmt>, x: Stmt)
    ensures
        stmts_v(s.push(x)) == stmts_v(s).push(stmt_v(x)),
    decreases s.len(),
{
    if s.len() == 0 {
        assert(s.push(x).subrange(1, 1) =~= Seq::<Stmt>::empty());
        assert(stmts_v(Seq::<Stmt>::empty()) =~= seq![]);
        assert(stmts_v(s.push(x)) =~= stmts_v(s).push(stmt_v(x)));
    } else {
        let rest = s.subrange(1, s.len() as int);
        assert(s.push(x).subrange(1, s.len() as int + 1) =~= rest.push(x));
        lemma_stmts_v_push(rest, x);
        assert(stmts_v(s.push(x)) =~= stmts_v(s).push(stmt_v(x)));
    }
}

pub proof fn lemma_types_v_one(t: TypeAnnotation)
    ensures
        types_v(seq![t]) == seq![type_v(t)],
{
    assert(seq![t].subrange(1, 1) =~= Seq::<TypeAnnotation>::empty());
    assert(types_v(Seq::<TypeAnnotation>::empty()) =~= seq![]);
    assert(types_v(seq![t]) =~= seq![type_v(t)]);
}

pub proof fn lemma_empty_views()
    ensures
        exprs_v(Seq::<Expr>::empty()) == Seq::<ExprView>::empty(),
        fields_v(Seq::<(String, Expr)>::empty()) == Seq::<(Seq<char>, ExprView)>::empty(),
        stmts_v(Seq::<Stmt>::empty()) == Seq::<StmtView>::empty(),
        types_v(Seq::<TypeAnnotation>::empty()) == Seq::<TypeView>::empty(),
        params_v(Seq::<(String, TypeAnnotation)>::empty()) == Seq::<(Seq<char>, TypeView)>::empty(),
{
    assert(params_v(Seq::<(String, TypeAnnotation)>::empty()) =~= Seq::<(Seq<char>, TypeView)>::empty());
}


pub proof fn lemma_stmts_v_index(s: Seq<Stmt>)
    ensures
        stmts_v(s).len() == s.len(),
        forall|i: int| 0 <= i < s.len() ==> #[trigger] stmts_v(s)[i] == stmt_v(s[i]),
    decreases s.len(),
{
    if s.len() > 0 {
        let rest = s.subrange(1, s.len() as int);
        lemma_stmts_v_index(rest);
        assert forall|i: int| 0 <= i < s.len() implies #[trigger] stmts_v(s)[i] == stmt_v(s[i]) by {
            if i > 0 {
                assert(stmts_v(s)[i] == stmts_v(rest)[i - 1]);
                assert(rest[i - 1] == s[i]);
            }
        }
    }
}

pub proof fn lemma_exprs_v_index(s: Seq<Expr>)
    ensures
        exprs_v(s).len() == s.len(),
        forall|i: int| 0 <= i < s.len() ==> #[trigger] exprs_v(s)[i] == expr_v(s[i]),
    decreases s.len(),
{
    if s.len() > 0 {
        let rest = s.subrange(1, s.len() as int);
        lemma_exprs_v_index(rest);
        assert forall|i: int| 0 <= i < s.len() implies #[trigger] exprs_v(s)[i] == expr_v(s[i]) by {
            if i > 0 {
                assert(exprs_v(s)[i] == exprs_v(rest)[i - 1]);
                assert(rest[i - 1] == s[i]);
            }
        }
    }
}

pub proof fn lemma_fields_v_index(s: Seq<(String, Expr)>)
    ensures
        fields_v(s).len() == s.len(),
        forall|i: int| 0 <= i < s.len() ==> #[trigger] fields_v(s)[i] == (s[i].0@, expr_v(s[i].1)),
    decreases s.len(),
{
    if s.len() > 0 {
        let rest = s.subrange(1, s.len() as int);
        lemma_fields_v_index(rest);
        assert forall|i: int| 0 <= i < s.len() implies #[trigger] fields_v(s)[i] == (s[i].0@, expr_v(s[i].1)) by {
            if i > 0 {
                assert(fields_v(s)[i] == fields_v(rest)[i - 1]);
                assert(rest[i - 1] == s[i]);
            }
        }
    }
}

} // verus!
