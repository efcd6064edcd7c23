//! The types of the type checker.

use vstd::prelude::*;

verus! {

#[derive(Debug)]
pub enum Type {
    I32,
    I64,
    U32,
    U64,
    F32,
    F64,
    Bool,
    String,
    Void,
    Never,
    Function { params: Vec<Type>, ret: Box<Type> },
    Struct { name: String, fields: Vec<(String, Type)> },
    Enum { name: String, variants: Vec<(String, Option<Type>)> },
    Array(Box<Type>),
    Ref(Box<Type>),
    MutRef(Box<Type>),
    Tuple(Vec<Type>),
    Generic(&'static str),
    Unknown,
}

/// The model of a type.
pub enum TyView {
    I32,
    I64,
    U32,
    U64,
    F32,
    F64,
    Bool,
    Str,
    Void,
    Never,
    Function(Seq<TyView>, Box<TyView>),
    Struct(Seq<char>, Seq<(Seq<char>, TyView)>),
    Enum(Seq<char>, Seq<(Seq<char>, Option<TyView>)>),
    Array(Box<TyView>),
    Ref(Box<TyView>),
    MutRef(Box<TyView>),
    Tuple(Seq<TyView>),
    Generic(Seq<char>),
    Unknown,
}

pub open spec fn ty_v(t: Type) -> TyView
    decreases t,
{
    match t {
        Type::I32 => TyView::I32,
        Type::I64 => TyView::I64,
        Type::U32 => TyView::U32,
        Type::U64 => TyView::U64,
        Type::F32 => TyView::F32,
        Type::F64 => TyView::F64,
        Type::Bool => TyView::Bool,
        Type::String => TyView::Str,
        Type::Void => TyView::Void,
        Type::Never => TyView::Never,
        Type::Function { params, ret } => TyView::Function(tys_v(params@), Box::new(ty_v(*ret))),
        Type::Struct { name, fields } => TyView::Struct(name@, tfields_v(fields@)),
        Type::Enum { name, variants } => TyView::Enum(name@, variants_v(variants@)),
        Type::Array(t) => TyView::Array(Box::new(ty_v(*t))),
        Type::Ref(t) => TyView::Ref(Box::new(ty_v(*t))),
        Type::MutRef(t) => TyView::MutRef(Box::new(ty_v(*t))),
        Type::Tuple(ts) => TyView::Tuple(tys_v(ts@)),
        Type::Generic(s) => TyView::Generic(s@),
        Type::Unknown => TyView::Unknown,
    }
}

pub open spec fn tys_v(ts: Seq<Type>) -> Seq<TyView>
    decreases ts,
{
    if ts.len() == 0 {
        seq![]
    } else {
        seq![ty_v(ts[0])] + tys_v(ts.subrange(1, ts.len() as int))
    }
}

pub open spec fn tfields_v(fs: Seq<(String, Type)>) -> Seq<(Seq<char>, TyView)>
    decreases fs,
{
    if fs.len() == 0 {
        seq![]
    } else {
        seq![(fs[0].0@, ty_v(fs[0].1))] + tfields_v(fs.subrange(1, fs.len() as int))
    }
}

pub open spec fn variants_v(vs: Seq<(String, Option<Type>)>) -> Seq<(Seq<char>, Option<TyView>)>
    decreases vs,
{
    if vs.len() == 0 {
        seq![]
    } else {
        seq![
            (
                vs[0].0@,
                match vs[0].1 {
                    Some(t) => Some(ty_v(t)),
                    None => None,
                },
            ),
        ] + variants_v(vs.subrange(1, vs.len() as int))
    }
}

impl View for Type {
    type V = TyView;

    open spec fn view(&self) -> TyView {
        ty_v(*self)
    }
}

/// The numeric types.
pub open spec fn numeric(t: TyView) -> bool {
    t is I32 || t is I64 || t is U32 || t is U64 || t is F32 || t is F64
}

/// The name of a primitive type; `?` for the others.
pub open spec fn ty_name(t: TyView) -> Seq<char> {
    match t {
        TyView::I32 => "i32"@,
        TyView::I64 => "i64"@,
        TyView::U32 => "u32"@,
        TyView::U64 => "u64"@,
        TyView::F32 => "f32"@,
        TyView::F64 => "f64"@,
        TyView::Bool => "bool"@,
        TyView::Str => "string"@,
        TyView::Void => "void"@,
        TyView::Never => "never"@,
        _ => "?"@,
    }
}

fn copy_types(ts: &Vec<Type>) -> (r: Vec<Type>)
    ensures
        tys_v(r@) == tys_v(ts@),
    decreases ts@, 0int,
{
    let mut r: Vec<Type> = Vec::new();
    let mut i: usize = 0;
    while i < ts.len()
        invariant
            i <= ts.len(),
            tys_v(r@) == tys_v(ts@.take(i as int)),
        decreases ts.len() - i,
    {
        assert(decreases_to!(ts@ => ts@[i as int]));
        let t = ts[i].copy();
        proof {
            lemma_tys_v_push(r@, t);
            lemma_tys_v_push(ts@.take(i as int), ts@[i as int]);
            assert(ts@.take(i as int).push(ts@[i as int]) =~= ts@.take(i + 1));
        }
        r.push(t);
        i = i + 1;
    }
    assert(ts@.take(i as int) =~= ts@);
    r
}

fn copy_tfields(fields: &Vec<(String, Type)>) -> (r: Vec<(String, Type)>)
    ensures
        tfields_v(r@) == tfields_v(fields@),
    decreases fields@, 0int,
{
    let mut fs: Vec<(String, Type)> = Vec::new();
    let mut i: usize = 0;
    while i < fields.len()
        invariant
            i <= fields.len(),
            tfields_v(fs@) == tfields_v(fields@.take(i as int)),
        decreases fields.len() - i,
    {
        assert(decreases_to!(fields@ => fields@[i as int]));
        assert(decreases_to!(fields@[i as int] => fields@[i as int].1));
        let f = (fields[i].0.clone(), fields[i].1.copy());
        proof {
            lemma_tfields_v_push(fs@, f);
            lemma_tfields_v_push(fields@.take(i as int), fields@[i as int]);
            assert(fields@.take(i as int).push(fields@[i as int]) =~= fields@.take(i + 1));
        }
        fs.push(f);
        i = i + 1;
    }
    assert(fields@.take(i as int) =~= fields@);
    fs
}

fn copy_variants(variants: &Vec<(String, Option<Type>)>) -> (r: Vec<(String, Option<Type>)>)
    ensures
        variants_v(r@) == variants_v(variants@),
    decreases variants@, 0int,
{
    let mut vs: Vec<(String, Option<Type>)> = Vec::new();
    let mut i: usize = 0;
    while i < variants.len()
        invariant
            i <= variants.len(),
            variants_v(vs@) == variants_v(variants@.take(i as int)),
        decreases variants.len() - i,
    {
        assert(decreases_to!(variants@ => variants@[i as int]));
        assert(decreases_to!(variants@[i as int] => variants@[i as int].1));
        let payload = match &variants[i].1 {
            Some(t) => {
                assert(decreases_to!(variants@[i as int].1 => *t));
                Some(t.copy())
            },
            None => None,
        };
        let f = (variants[i].0.clone(), payload);
        proof {
            lemma_variants_v_push(vs@, f);
            lemma_variants_v_push(variants@.take(i as int), variants@[i as int]);
            assert(variants@.take(i as int).push(variants@[i as int]) =~= variants@.take(i + 1));
        }
        vs.push(f);
        i = i + 1;
    }
    assert(variants@.take(i as int) =~= variants@);
    vs
}

pub proof fn lemma_tys_v_push(s: Seq<Type>, t: Type)
    ensures
        tys_v(s.push(t)) == tys_v(s).push(ty_v(t)),
    decreases s.len(),
{
    if s.len() == 0 {
        assert(s.push(t).subrange(1, 1) =~= Seq::<Type>::empty());
        assert(tys_v(Seq::<Type>::empty()) =~= seq![]);
        assert(tys_v(s.push(t)) =~= tys_v(s).push(ty_v(t)));
    } else {
        let rest = s.subrange(1, s.len() as int);
        assert(s.push(t).subrange(1, s.len() as int + 1) =~= rest.push(t));
        lemma_tys_v_push(rest, t);
        assert(tys_v(s.push(t)) =~= tys_v(s).push(ty_v(t)));
    }
}

pub proof fn lemma_tfields_v_push(s: Seq<(String, Type)>, f: (String, Type))
    ensures
        tfields_v(s.push(f)) == tfields_v(s).push((f.0@, ty_v(f.1))),
    decreases s.len(),
{
    if s.len() == 0 {
        assert(s.push(f).subrange(1, 1) =~= Seq::<(String, Type)>::empty());
        assert(tfields_v(Seq::<(String, Type)>::empty()) =~= seq![]);
        assert(tfields_v(s.push(f)) =~= tfields_v(s).push((f.0@, ty_v(f.1))));
    } else {
        let rest = s.subrange(1, s.len() as int);
        assert(s.push(f).subrange(1, s.len() as int + 1) =~= rest.push(f));
        lemma_tfields_v_push(rest, f);
        assert(tfields_v(s.push(f)) =~= tfields_v(s).push((f.0@, ty_v(f.1))));
    }
}

pub proof fn lemma_variants_v_push(s: Seq<(String, Option<Type>)>, f: (String, Option<Type>))
    ensures
        variants_v(s.push(f)) == variants_v(s).push(
            (
                f.0@,
                match f.1 {
                    Some(t) => Some(ty_v(t)),
                    None => None,
                },
            ),
        ),
    decreases s.len(),
{
    if s.len() == 0 {
        assert(s.push(f).subrange(1, 1) =~= Seq::<(String, Option<Type>)>::empty());
        assert(variants_v(Seq::<(String, Option<Type>)>::empty()) =~= seq![]);
        assert(variants_v(s.push(f)) =~= variants_v(s).push(
            (
                f.0@,
                match f.1 {
                    Some(t) => Some(ty_v(t)),
                    None => None,
                },
            ),
        ));
    } else {
        let rest = s.subrange(1, s.len() as int);
        assert(s.push(f).subrange(1, s.len() as int + 1) =~= rest.push(f));
        lemma_variants_v_push(rest, f);
        assert(variants_v(s.push(f)) =~= variants_v(s).push(
            (
                f.0@,
                match f.1 {
                    Some(t) => Some(ty_v(t)),
                    None => None,
                },
            ),
        ));
    }
}

impl Type {
    pub fn is_numeric(&self) -> (b: bool)
        ensures
            b == numeric(self@),
    {
        match self {
            Type::I32 | Type::I64 | Type::U32 | Type::U64 | Type::F32 | Type::F64 => true,
            _ => false,
        }
    }

    pub fn name(&self) -> (r: &'static str)
        ensures
            r@ == ty_name(self@),
    {
        match self {
            Type::I32 => "i32",
            Type::I64 => "i64",
            Type::U32 => "u32",
            Type::U64 => "u64",
            Type::F32 => "f32",
            Type::F64 => "f64",
            Type::Bool => "bool",
            Type::String => "string",
            Type::Void => "void",
            Type::Never => "never",
            _ => "?",
        }
    }

    /// A copy of this type.
    pub fn copy(&self) -> (r: Type)
        ensures
            r@ == self@,
        decreases self, 1int,
    {
        match self {
            Type::I32 => Type::I32,
            Type::I64 => Type::I64,
            Type::U32 => Type::U32,
            Type::U64 => Type::U64,
            Type::F32 => Type::F32,
            Type::F64 => Type::F64,
            Type::Bool => Type::Bool,
            Type::String => Type::String,
            Type::Void => Type::Void,
            Type::Never => Type::Never,
            Type::Function { params, ret } => {
                let ps = copy_types(params);
                let r = ret.copy();
                Type::Function { params: ps, ret: Box::new(r) }
            },
            Type::Struct { name, fields } => Type::Struct { name: name.clone(), fields: copy_tfields(fields) },
            Type::Enum { name, variants } => Type::Enum { name: name.clone(), variants: copy_variants(variants) },
            Type::Array(t) => Type::Array(Box::new(t.copy())),
            Type::Ref(t) => Type::Ref(Box::new(t.copy())),
            Type::MutRef(t) => Type::MutRef(Box::new(t.copy())),
            Type::Tuple(ts) => Type::Tuple(copy_types(ts)),
            Type::Generic(s) => Type::Generic(s),
            Type::Unknown => Type::Unknown,
        }
    }
}

} // verus!
