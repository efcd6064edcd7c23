//! Runtime values of the virtual machine.

use vstd::prelude::*;
use crate::instruction::{Constant, ConstView};
use crate::text::{append_str, debug_quoted, debug_string, decimal, push_char, push_decimal};

verus! {

/// A runtime value.
#[derive(Debug)]
pub enum Value {
    Nil,
    Bool(bool),
    Int(i64),
    String(String),
}

/// The model of a runtime value.
pub enum ValueView {
    Nil,
    Bool(bool),
    Int(i64),
    Str(Seq<char>),
}

impl View for Value {
    type V = ValueView;

    open spec fn view(&self) -> ValueView {
        match self {
            Value::Nil => ValueView::Nil,
            Value::Bool(b) => ValueView::Bool(*b),
            Value::Int(v) => ValueView::Int(*v),
            Value::String(s) => ValueView::Str(s@),
        }
    }
}

/// The models of a sequence of values.
pub open spec fn values_view(s: Seq<Value>) -> Seq<ValueView> {
    s.map_values(|v: Value| v@)
}

/// Nil and `false` are false; every other value is true.
pub open spec fn truthy(v: ValueView) -> bool {
    match v {
        ValueView::Nil => false,
        ValueView::Bool(b) => b,
        _ => true,
    }
}

/// The value a constant stands for.
pub open spec fn const_value(c: ConstView) -> ValueView {
    match c {
        ConstView::Nil => ValueView::Nil,
        ConstView::Bool(b) => ValueView::Bool(b),
        ConstView::Int(v) => ValueView::Int(v),
        ConstView::Str(s) => ValueView::Str(s),
    }
}

/// The decimal text of a signed integer, with a leading `-` when negative.
pub open spec fn int_text(v: i64) -> Seq<char> {
    if v < 0 {
        seq!['-'] + decimal((-v) as nat)
    } else {
        decimal(v as nat)
    }
}

/// The text `{}` prints for a value.
pub open spec fn value_text(v: ValueView) -> Seq<char> {
    match v {
        ValueView::Nil => "nil"@,
        ValueView::Bool(b) => if b {
            "true"@
        } else {
            "false"@
        },
        ValueView::Int(i) => int_text(i),
        ValueView::Str(s) => s,
    }
}

/// The text `{:?}` prints for a value.
pub open spec fn value_debug(v: ValueView) -> Seq<char> {
    match v {
        ValueView::Nil => "Nil"@,
        ValueView::Bool(b) => "Bool("@ + (if b {
            "true"@
        } else {
            "false"@
        }) + seq![')'],
        ValueView::Int(i) => "Int("@ + int_text(i) + seq![')'],
        ValueView::Str(s) => "String("@ + debug_quoted(s) + seq![')'],
    }
}

/// Appends the decimal text of `v` to `s`.
pub fn push_int(s: &mut String, v: i64)
    ensures
        final(s)@ == old(s)@ + int_text(v),
{
    if v < 0 {
        push_char(s, '-');
        let m: u64 = (-(v as i128)) as u64;
        push_decimal(s, m);
        assert(final(s)@ =~= old(s)@ + int_text(v));
    } else {
        push_decimal(s, v as u64);
    }
}

impl Clone for Value {
    fn clone(&self) -> (r: Self)
        ensures
            r == *self,
    {
        match self {
            Value::Nil => Value::Nil,
            Value::Bool(b) => Value::Bool(*b),
            Value::Int(v) => Value::Int(*v),
            Value::String(s) => Value::String(s.clone()),
        }
    }
}

impl Value {
    pub fn is_truthy(&self) -> (b: bool)
        ensures
            b == truthy(self@),
    {
        match self {
            Value::Nil => false,
            Value::Bool(b) => *b,
            _ => true,
        }
    }

    /// Whether two values are equal: same variant and same contents.
    pub fn same(&self, other: &Value) -> (b: bool)
        ensures
            b == (self@ == other@),
    {
        match (self, other) {
            (Value::Nil, Value::Nil) => true,
            (Value::Bool(a), Value::Bool(b)) => *a == *b,
            (Value::Int(a), Value::Int(b)) => *a == *b,
            (Value::String(a), Value::String(b)) => *a == *b,
            _ => false,
        }
    }

    /// The text that `{}` printed for a value.
    pub fn to_display_string(&self) -> (r: String)
        ensures
            r@ == value_text(self@),
    {
        match self {
            Value::Nil => String::from_str("nil"),
            Value::Bool(b) => if *b {
                String::from_str("true")
            } else {
                String::from_str("false")
            },
            Value::Int(v) => {
                let mut r = String::new();
                push_int(&mut r, *v);
                assert(r@ =~= value_text(self@));
                r
            },
            Value::String(s) => s.clone(),
        }
    }

    /// The text that `{:?}` prints for a value.
    pub fn to_debug_string(&self) -> (r: String)
        ensures
            r@ == value_debug(self@),
    {
        match self {
            Value::Nil => String::from_str("Nil"),
            Value::Bool(b) => {
                let mut r = String::from_str("Bool(");
                if *b {
                    append_str(&mut r, "true");
                } else {
                    append_str(&mut r, "false");
                }
                push_char(&mut r, ')');
                r
            },
            Value::Int(v) => {
                let mut r = String::from_str("Int(");
                push_int(&mut r, *v);
                push_char(&mut r, ')');
                assert(r@ =~= value_debug(self@));
                r
            },
            Value::String(s) => {
                let q = debug_string(s);
                string_debug_text(&q)
            },
        }
    }
}

/// `String(` and `quoted` and `)`: how a string value shows once its
/// text is quoted.
pub fn string_debug_text(quoted: &String) -> (r: String)
    ensures
        r@ == "String("@ + quoted@ + seq![')'],
{
    let mut r = String::from_str("String(");
    append_str(&mut r, quoted.as_str());
    push_char(&mut r, ')');
    r
}

impl PartialEq for Value {
    fn eq(&self, other: &Value) -> (r: bool) {
        self.same(other)
    }
}

impl vstd::std_specs::cmp::PartialEqSpecImpl for Value {
    open spec fn obeys_eq_spec() -> bool {
        true
    }

    open spec fn eq_spec(&self, other: &Value) -> bool {
        self@ == other@
    }
}

impl From<Constant> for Value {
    fn from(c: Constant) -> (v: Value) {
        match c {
            Constant::Nil => Value::Nil,
            Constant::Bool(b) => Value::Bool(b),
            Constant::Int(v) => Value::Int(v),
            Constant::String(s) => Value::String(s),
        }
    }
}

impl vstd::std_specs::convert::FromSpecImpl<Constant> for Value {
    open spec fn obeys_from_spec() -> bool {
        true
    }

    open spec fn from_spec(c: Constant) -> Value {
        match c {
            Constant::Nil => Value::Nil,
            Constant::Bool(b) => Value::Bool(b),
            Constant::Int(v) => Value::Int(v),
            Constant::String(s) => Value::String(s),
        }
    }
}

} // verus!
