//! The type checker: infers a type for each declared variable.
//!
//! It records no errors: `check` always succeeds; what it keeps is the
//! type it inferred or read for each variable of the outermost scope.

use vstd::prelude::*;
use crate::ast::{
    BinaryOp, Expr, ExprOrBlock, ExprView, Program, Stmt, StmtView, TypeAnnotation, TypeView, expr_v,
    stmt_v, stmts_v, type_v,
};
use crate::scope::Scope;
use crate::text::{chars_of, same_chars, string_from_str};
use crate::types::{TyView, Type, ty_name, ty_v, tys_v};

verus! {

/// The variables in scope: scopes innermost last, then the globals.
pub open spec fn lookup(
    scopes: Seq<Map<Seq<char>, TyView>>,
    globals: Map<Seq<char>, TyView>,
    name: Seq<char>,
) -> TyView
    decreases scopes.len(),
{
    if scopes.len() == 0 {
        if globals.contains_key(name) {
            globals[name]
        } else {
            TyView::Unknown
        }
    } else if scopes.last().contains_key(name) {
        scopes.last()[name]
    } else {
        lookup(scopes.drop_last(), globals, name)
    }
}

/// Operators whose result is a boolean.
pub open spec fn yields_bool(op: BinaryOp) -> bool {
    !(op == BinaryOp::Add || op == BinaryOp::Sub || op == BinaryOp::Mul || op == BinaryOp::Div || op
        == BinaryOp::Mod)
}

/// The type inferred for an expression.
pub open spec fn infer(
    scopes: Seq<Map<Seq<char>, TyView>>,
    globals: Map<Seq<char>, TyView>,
    e: ExprView,
) -> TyView
    decreases e,
{
    match e {
        ExprView::Int(_) => TyView::I64,
        ExprView::Bool(_) => TyView::Bool,
        ExprView::Str(_) => TyView::Str,
        ExprView::Null => TyView::Unknown,
        ExprView::Ident(n) => lookup(scopes, globals, n),
        ExprView::Binary(_, op, _) => if yields_bool(op) {
            TyView::Bool
        } else {
            TyView::I64
        },
        ExprView::Unary(_, r) => infer(scopes, globals, *r),
        ExprView::Assign(_, v) => infer(scopes, globals, *v),
        ExprView::Call(c, _) => match infer(scopes, globals, *c) {
            TyView::Function(_, ret) => *ret,
            _ => TyView::Unknown,
        },
        ExprView::If(_, t, _) => infer(scopes, globals, *t),
        _ => TyView::Unknown,
    }
}

/// The type a written type names: a primitive type by its name, else unknown.
pub open spec fn annotation_type(a: TypeView) -> TyView {
    match a {
        TypeView::Named(n, _) => if n == seq!['i', '3', '2'] {
            TyView::I32
        } else if n == seq!['i', '6', '4'] {
            TyView::I64
        } else if n == seq!['u', '3', '2'] {
            TyView::U32
        } else if n == seq!['u', '6', '4'] {
            TyView::U64
        } else if n == seq!['f', '3', '2'] {
            TyView::F32
        } else if n == seq!['f', '6', '4'] {
            TyView::F64
        } else if n == seq!['b', 'o', 'o', 'l'] {
            TyView::Bool
        } else if n == seq!['s', 't', 'r', 'i', 'n', 'g'] {
            TyView::Str
        } else {
            TyView::Unknown
        },
    }
}

/// The eight types that a written type can name.
pub open spec fn annotatable(t: TyView) -> bool {
    t is I32 || t is I64 || t is U32 || t is U64 || t is F32 || t is F64 || t is Bool || t is Str
}

/// A written type names one of the eight primitive types exactly when it
/// carries that type's name; its type parameters never matter, and any
/// other name gives the unknown type.
pub proof fn lemma_annotation_type(n: Seq<char>, ps: Seq<TypeView>, t: TyView)
    ensures
        annotatable(t) ==> annotation_type(TypeView::Named(ty_name(t), ps)) == t,
        annotation_type(TypeView::Named(n, ps)) == annotation_type(TypeView::Named(n, seq![])),
        annotatable(annotation_type(TypeView::Named(n, ps))) ==> ty_name(
            annotation_type(TypeView::Named(n, ps)),
        ) == n,
        !annotatable(annotation_type(TypeView::Named(n, ps))) ==> annotation_type(
            TypeView::Named(n, ps),
        ) == TyView::Unknown,
{
    reveal_strlit("i32");
    reveal_strlit("i64");
    reveal_strlit("u32");
    reveal_strlit("u64");
    reveal_strlit("f32");
    reveal_strlit("f64");
    reveal_strlit("bool");
    reveal_strlit("string");
    assert("i32"@ =~= seq!['i', '3', '2']);
    assert("i64"@ =~= seq!['i', '6', '4']);
    assert("u32"@ =~= seq!['u', '3', '2']);
    assert("u64"@ =~= seq!['u', '6', '4']);
    assert("f32"@ =~= seq!['f', '3', '2']);
    assert("f64"@ =~= seq!['f', '6', '4']);
    assert("bool"@ =~= seq!['b', 'o', 'o', 'l']);
    assert("string"@ =~= seq!['s', 't', 'r', 'i', 'n', 'g']);
}

/// Checking a statement keeps the number of scopes and every scope but
/// the innermost; only a variable declaration changes the innermost one,
/// binding the declared name.
pub proof fn lemma_checked_stmt(
    scopes: Seq<Map<Seq<char>, TyView>>,
    globals: Map<Seq<char>, TyView>,
    s: StmtView,
)
    requires
        scopes.len() >= 1,
    ensures
        checked_stmt(scopes, globals, s).len() == scopes.len(),
        checked_stmt(scopes, globals, s).drop_last() == scopes.drop_last(),
        !(s is Var) ==> checked_stmt(scopes, globals, s) == scopes,
        s is Var ==> checked_stmt(scopes, globals, s).last().dom() == scopes.last().dom().insert(s->Var_0.name),
{
    assert(checked_stmt(scopes, globals, s).drop_last() =~= scopes.drop_last());
}

/// The scopes after checking a statement: a variable declaration binds
/// its name in the innermost scope to its written type, else to the type
/// of its value, else to unknown; the scopes that other statements open
/// are closed again, so they leave the scopes as they were.
pub open spec fn checked_stmt(
    scopes: Seq<Map<Seq<char>, TyView>>,
    globals: Map<Seq<char>, TyView>,
    s: StmtView,
) -> Seq<Map<Seq<char>, TyView>> {
    match s {
        StmtView::Var(d) => {
            let ty = match d.type_annotation {
                Some(a) => annotation_type(a),
                None => match d.value {
                    Some(v) => infer(scopes, globals, v),
                    None => TyView::Unknown,
                },
            };
            scopes.update(scopes.len() - 1, scopes.last().insert(d.name, ty))
        },
        _ => scopes,
    }
}

/// The scopes after checking statements in order.
pub open spec fn checked_stmts(
    scopes: Seq<Map<Seq<char>, TyView>>,
    globals: Map<Seq<char>, TyView>,
    ss: Seq<StmtView>,
) -> Seq<Map<Seq<char>, TyView>>
    decreases ss.len(),
{
    if ss.len() == 0 {
        scopes
    } else {
        checked_stmts(checked_stmt(scopes, globals, ss[0]), globals, ss.drop_first())
    }
}

/// The type of `print` and `println`: a function of one generic argument
/// returning nothing.
pub open spec fn printer_type() -> TyView {
    TyView::Function(seq![TyView::Generic("T"@)], Box::new(TyView::Void))
}

fn printer() -> (t: Type)
    ensures
        t@ == printer_type(),
{
    let mut params: Vec<Type> = Vec::new();
    params.push(Type::Generic("T"));
    proof {
        assert(params@ =~= seq![Type::Generic("T")]);
        crate::types::lemma_tys_v_push(Seq::<Type>::empty(), Type::Generic("T"));
        assert(tys_v(Seq::<Type>::empty()) =~= seq![]);
        assert(Seq::<Type>::empty().push(Type::Generic("T")) =~= params@);
        assert(tys_v(params@) == seq![ty_v(Type::Generic("T"))]);
        assert(ty_v(Type::Generic("T")) == TyView::Generic("T"@));
    }
    let t = Type::Function { params, ret: Box::new(Type::Void) };
    assert(ty_v(Type::Void) == TyView::Void);
    assert(t@ == TyView::Function(tys_v(params@), Box::new(TyView::Void)));
    t
}

/// Infers types of variables.
pub struct TypeChecker {
    globals: Scope<Type>,
    locals: Vec<Scope<Type>>,
    errors: Vec<String>,
}

impl TypeChecker {
    /// The scopes, outermost first, as maps.
    pub closed spec fn scopes(&self) -> Seq<Map<Seq<char>, TyView>> {
        self.locals@.map_values(|s: Scope<Type>| s.map())
    }

    /// The global names and their types.
    pub closed spec fn global_types(&self) -> Map<Seq<char>, TyView> {
        self.globals.map()
    }

    /// There is a scope; no scope binds a name twice; no error is recorded.
    pub closed spec fn wf(&self) -> bool {
        &&& self.locals.len() >= 1
        &&& forall|i: int| 0 <= i < self.locals@.len() ==> #[trigger] self.locals@[i].wf()
        &&& self.globals.wf()
        &&& self.errors.len() == 0
    }

    pub fn new() -> (tc: Self)
        ensures
            tc.wf(),
            tc.scopes() == seq![Map::<Seq<char>, TyView>::empty()],
            tc.global_types() == Map::<Seq<char>, TyView>::empty().insert("print"@, printer_type()).insert(
                "println"@,
                printer_type(),
            ),
    {
        let mut globals: Scope<Type> = Scope::new();
        globals.insert(string_from_str("print"), printer());
        globals.insert(string_from_str("println"), printer());
        let mut locals: Vec<Scope<Type>> = Vec::new();
        locals.push(Scope::new());
        let tc = TypeChecker { globals, locals, errors: Vec::new() };
        assert(tc.scopes() =~= seq![Map::<Seq<char>, TyView>::empty()]);
        tc
    }

    fn lookup_name(&self, name: &String) -> (t: Type)
        requires
            self.wf(),
        ensures
            t@ == lookup(self.scopes(), self.global_types(), name@),
    {
        let ghost scopes = self.scopes();
        let mut i: usize = self.locals.len();
        assert(scopes.take(i as int) =~= scopes);
        while i > 0
            invariant
                i <= self.locals.len(),
                self.wf(),
                scopes == self.scopes(),
                lookup(scopes, self.global_types(), name@) == lookup(
                    scopes.take(i as int),
                    self.global_types(),
                    name@,
                ),
            decreases i,
        {
            assert(scopes.take(i as int).drop_last() =~= scopes.take(i - 1));
            assert(scopes.take(i as int).last() == self.locals@[i - 1].map());
            i = i - 1;
            assert(self.locals@[i as int].wf());
            match self.locals[i].get(name) {
                Some(t) => {
                    return t.copy();
                },
                None => {},
            }
        }
        assert(scopes.take(0) =~= Seq::<Map<Seq<char>, TyView>>::empty());
        match self.globals.get(name) {
            Some(t) => t.copy(),
            None => Type::Unknown,
        }
    }

    fn infer_expr(&self, expr: &Expr) -> (t: Type)
        requires
            self.wf(),
        ensures
            t@ == infer(self.scopes(), self.global_types(), expr_v(*expr)),
        decreases expr,
    {
        match expr {
            Expr::Int(_) => Type::I64,
            Expr::Bool(_) => Type::Bool,
            Expr::String(_) => Type::String,
            Expr::Null => Type::Unknown,
            Expr::Identifier(name) => self.lookup_name(name),
            Expr::Binary { left, operator, right } => {
                let _l = self.infer_expr(left);
                let _r = self.infer_expr(right);
                match operator {
                    BinaryOp::Equal | BinaryOp::NotEqual | BinaryOp::Less | BinaryOp::Greater
                    | BinaryOp::LessEqual | BinaryOp::GreaterEqual | BinaryOp::And | BinaryOp::Or => Type::Bool,
                    _ => Type::I64,
                }
            },
            Expr::Unary { right, .. } => self.infer_expr(right),
            Expr::Assignment { value, .. } => self.infer_expr(value),
            Expr::Call { callee, .. } => {
                match self.infer_expr(callee) {
                    Type::Function { ret, .. } => *ret,
                    _ => Type::Unknown,
                }
            },
            Expr::If { condition, then_branch, else_branch } => {
                self.infer_expr(condition);
                let t = self.infer_expr(then_branch);
                match else_branch {
                    Some(e) => {
                        self.infer_expr(e);
                    },
                    None => {},
                }
                t
            },
            Expr::FieldAccess { object, .. } => {
                self.infer_expr(object);
                Type::Unknown
            },
            Expr::StructLiteral { .. } => Type::Unknown,
            Expr::Match { value, .. } => {
                self.infer_expr(value);
                Type::Unknown
            },
            Expr::Array(_) => Type::Unknown,
            Expr::Tuple(_) => Type::Unknown,
        }
    }

    /// The type a written type names (see `annotation_type`).
    pub fn type_from_annotation(&self, ann: &TypeAnnotation) -> (t: Type)
        ensures
            t@ == annotation_type(type_v(*ann)),
    {
        let n = chars_of(&ann.name);
        let a_i32 = ['i', '3', '2'];
        let a_i64 = ['i', '6', '4'];
        let a_u32 = ['u', '3', '2'];
        let a_u64 = ['u', '6', '4'];
        let a_f32 = ['f', '3', '2'];
        let a_f64 = ['f', '6', '4'];
        let a_bool = ['b', 'o', 'o', 'l'];
        let a_string = ['s', 't', 'r', 'i', 'n', 'g'];
        assert(a_i32@ =~= seq!['i', '3', '2']);
        assert(a_i64@ =~= seq!['i', '6', '4']);
        assert(a_u32@ =~= seq!['u', '3', '2']);
        assert(a_u64@ =~= seq!['u', '6', '4']);
        assert(a_f32@ =~= seq!['f', '3', '2']);
        assert(a_f64@ =~= seq!['f', '6', '4']);
        assert(a_bool@ =~= seq!['b', 'o', 'o', 'l']);
        assert(a_string@ =~= seq!['s', 't', 'r', 'i', 'n', 'g']);
        if same_chars(&n, &a_i32) {
            Type::I32
        } else if same_chars(&n, &a_i64) {
            Type::I64
        } else if same_chars(&n, &a_u32) {
            Type::U32
        } else if same_chars(&n, &a_u64) {
            Type::U64
        } else if same_chars(&n, &a_f32) {
            Type::F32
        } else if same_chars(&n, &a_f64) {
            Type::F64
        } else if same_chars(&n, &a_bool) {
            Type::Bool
        } else if same_chars(&n, &a_string) {
            Type::String
        } else {
            Type::Unknown
        }
    }

    fn push_scope(&mut self)
        requires
            old(self).wf(),
        ensures
            final(self).wf(),
            final(self).scopes() == old(self).scopes().push(Map::empty()),
            final(self).global_types() == old(self).global_types(),
    {
        self.locals.push(Scope::new());
        assert(self.scopes() =~= old(self).scopes().push(Map::empty()));
    }

    fn pop_scope(&mut self)
        requires
            old(self).wf(),
            old(self).locals.len() >= 2,
        ensures
            final(self).wf(),
            final(self).scopes() == old(self).scopes().drop_last(),
            final(self).global_types() == old(self).global_types(),
    {
        self.locals.pop();
        assert(self.scopes() =~= old(self).scopes().drop_last());
    }

    /// Binds `name` to `ty` in the innermost scope.
    fn bind(&mut self, name: String, ty: Type)
        requires
            old(self).wf(),
        ensures
            final(self).wf(),
            final(self).scopes() == old(self).scopes().update(
                old(self).scopes().len() - 1,
                old(self).scopes().last().insert(name@, ty@),
            ),
            final(self).global_types() == old(self).global_types(),
    {
        let ghost n = name@;
        let ghost tv = ty@;
        let last: usize = self.locals.len() - 1;
        assert(self.locals@[last as int].wf());
        let mut top = self.locals.pop().unwrap();
        top.insert(name, ty);
        self.locals.push(top);
        assert(self.scopes() =~= old(self).scopes().update(
            old(self).scopes().len() - 1,
            old(self).scopes().last().insert(n, tv),
        ));
    }

    /// Checks one statement (see `checked_stmt`); the result is always `None`.
    pub fn check_stmt(&mut self, stmt: &Stmt) -> (r: Option<Type>)
        requires
            old(self).wf(),
        ensures
            final(self).wf(),
            r is None,
            final(self).scopes() == checked_stmt(old(self).scopes(), old(self).global_types(), stmt_v(*stmt)),
            final(self).global_types() == old(self).global_types(),
        decreases stmt, 1int,
    {
        match stmt {
            Stmt::VarDeclaration(decl) => {
                let inferred = match &decl.value {
                    Some(v) => Some(self.infer_expr(v)),
                    None => None,
                };
                let declared = match &decl.type_annotation {
                    Some(a) => Some(self.type_from_annotation(a)),
                    None => None,
                };
                let ty = match declared {
                    Some(t) => t,
                    None => match inferred {
                        Some(t) => t,
                        None => Type::Unknown,
                    },
                };
                self.bind(decl.name.clone(), ty);
                None
            },
            Stmt::FnDeclaration(fndecl) => {
                self.push_scope();
                let mut i: usize = 0;
                while i < fndecl.params.len()
                    invariant
                        self.wf(),
                        self.scopes().len() == old(self).scopes().len() + 1,
                        self.scopes().drop_last() == old(self).scopes(),
                        self.global_types() == old(self).global_types(),
                    decreases fndecl.params.len() - i,
                {
                    self.bind(fndecl.params[i].0.clone(), Type::Unknown);
                    i = i + 1;
                }
                match &*fndecl.body {
                    ExprOrBlock::Expr(e) => {
                        self.infer_expr(e);
                    },
                    ExprOrBlock::Block(stmts) => {
                        self.check_block(stmts);
                    },
                }
                self.pop_scope();
                None
            },
            Stmt::Expression(expr) => {
                self.infer_expr(expr);
                None
            },
            Stmt::Return(val) => {
                match val {
                    Some(v) => {
                        self.infer_expr(v);
                    },
                    None => {},
                }
                None
            },
            Stmt::While(cond, body) => {
                self.infer_expr(cond);
                self.push_scope();
                self.check_block(body);
                self.pop_scope();
                None
            },
            Stmt::For { iter, body, .. } => {
                self.infer_expr(iter);
                self.push_scope();
                self.check_block(body);
                self.pop_scope();
                None
            },
            Stmt::Block(stmts) => {
                self.push_scope();
                self.check_block(stmts);
                self.pop_scope();
                None
            },
        }
    }

    /// Checks statements in order; only the innermost scope changes.
    fn check_block(&mut self, stmts: &Vec<Stmt>)
        requires
            old(self).wf(),
        ensures
            final(self).wf(),
            final(self).scopes().len() == old(self).scopes().len(),
            final(self).scopes().drop_last() == old(self).scopes().drop_last(),
            final(self).global_types() == old(self).global_types(),
            final(self).scopes() == checked_stmts(old(self).scopes(), old(self).global_types(), stmts_v(stmts@)),
        decreases stmts@, 0int,
    {
        let ghost g = self.global_types();
        let ghost ss = stmts_v(stmts@);
        proof {
            crate::ast::lemma_stmts_v_index(stmts@);
        }
        assert(ss.skip(0) =~= ss);
        let mut i: usize = 0;
        while i < stmts.len()
            invariant
                self.wf(),
                i <= stmts.len(),
                ss.len() == stmts.len(),
                forall|j: int| 0 <= j < stmts.len() ==> #[trigger] ss[j] == stmt_v(stmts@[j]),
                self.scopes().len() == old(self).scopes().len(),
                self.scopes().drop_last() == old(self).scopes().drop_last(),
                g == self.global_types(),
                g == old(self).global_types(),
                checked_stmts(old(self).scopes(), g, ss) == checked_stmts(self.scopes(), g, ss.skip(i as int)),
            decreases stmts.len() - i,
        {
            assert(decreases_to!(stmts@ => stmts@[i as int]));
            assert(ss.skip(i as int).drop_first() =~= ss.skip(i + 1));
            assert(ss.skip(i as int)[0] == stmt_v(stmts@[i as int]));
            let ghost before = self.scopes();
            self.check_stmt(&stmts[i]);
            assert(self.scopes().drop_last() =~= before.drop_last());
            i = i + 1;
        }
        assert(ss.skip(i as int) =~= Seq::<StmtView>::empty());
    }

    /// Checks a program. No error is ever recorded, so the result is
    /// always `Ok`; the outermost scope gains the program's variables.
    pub fn check(&mut self, program: &Program) -> (r: Result<(), Vec<String>>)
        requires
            old(self).wf(),
        ensures
            final(self).wf(),
            r == Ok::<(), Vec<String>>(()),
            final(self).scopes() == checked_stmts(
                old(self).scopes(),
                old(self).global_types(),
                stmts_v(program.stmts@),
            ),
            final(self).global_types() == old(self).global_types(),
    {
        let ghost g = self.global_types();
        let ghost ss = stmts_v(program.stmts@);
        proof {
            crate::ast::lemma_stmts_v_index(program.stmts@);
        }
        assert(ss.skip(0) =~= ss);
        let mut i: usize = 0;
        while i < program.stmts.len()
            invariant
                self.wf(),
                i <= program.stmts.len(),
                ss.len() == program.stmts.len(),
                forall|j: int| 0 <= j < program.stmts.len() ==> #[trigger] ss[j] == stmt_v(program.stmts@[j]),
                g == self.global_types(),
                g == old(self).global_types(),
                checked_stmts(old(self).scopes(), g, ss) == checked_stmts(self.scopes(), g, ss.skip(i as int)),
            decreases program.stmts.len() - i,
        {
            assert(ss.skip(i as int).drop_first() =~= ss.skip(i + 1));
            assert(ss.skip(i as int)[0] == stmt_v(program.stmts@[i as int]));
            self.check_stmt(&program.stmts[i]);
            i = i + 1;
        }
        assert(ss.skip(i as int) =~= Seq::<StmtView>::empty());
        if self.errors.is_empty() {
            Ok(())
        } else {
            Err(self.errors.clone())
        }
    }
}

} // verus!
