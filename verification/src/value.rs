use vstd::prelude::*;
use std::rc::Rc;
use crate::function::{Function, Macro, SpecFunction, fview, mview, fsize};
use crate::params::Params;
use crate::errors::Error;

verus! {

broadcast use vstd::seq::group_seq_axioms, vstd::std_specs::vec::group_vec_axioms;

/// Key of a native function in the runtime's dispatch table. A native
/// callable is a name plus a key, so the representation carries no raw
/// function pointers.
#[derive(Debug, Clone, Copy, PartialEq, Eq, Structural)]
pub enum NativeFn {
    Println,
    List,
    Append,
    Equal,
    Plus,
}

/// Key of a native macro (a special form) in the dispatch table.
#[derive(Debug, Clone, Copy, PartialEq, Eq, Structural)]
pub enum NativeMac {
    Assign,
    Let,
    If,
    Defun,
    Defmacro,
    Progn,
    Quote,
}

/// The one recursive data type of the runtime: every form read, evaluated or
/// produced is a `Value`. A float is carried as the bit pattern of an IEEE
/// 754 double. A proper list is a chain of `Cons` cells ending in `Nil`.
#[derive(Debug, PartialEq)]
pub enum Value {
    Float(u64),
    Integer(i64),
    Boolean(bool),
    String(String),
    NativeFunction(String, NativeFn),
    NativeMacro(String, NativeMac),
    Function(Rc<Function>),
    Macro(Rc<Macro>),
    Symbol(String),
    Cons(Rc<Value>, Rc<Value>),
    Nil,
}

/// Mathematical model of a `Value`: strings as character sequences, sharing
/// erased.
pub enum SpecValue {
    Float(u64),
    Integer(i64),
    Boolean(bool),
    Str(Seq<char>),
    NativeFunction(Seq<char>, NativeFn),
    NativeMacro(Seq<char>, NativeMac),
    Function(SpecFunction),
    Macro(SpecFunction),
    Symbol(Seq<char>),
    Cons(Box<SpecValue>, Box<SpecValue>),
    Nil,
}

pub open spec fn vview(v: Value) -> SpecValue
    decreases v,
{
    match v {
        Value::Float(b) => SpecValue::Float(b),
        Value::Integer(i) => SpecValue::Integer(i),
        Value::Boolean(b) => SpecValue::Boolean(b),
        Value::String(s) => SpecValue::Str(s@),
        Value::NativeFunction(n, f) => SpecValue::NativeFunction(n@, f),
        Value::NativeMacro(n, m) => SpecValue::NativeMacro(n@, m),
        Value::Function(f) => SpecValue::Function(fview(*f)),
        Value::Macro(m) => SpecValue::Macro(mview(*m)),
        Value::Symbol(s) => SpecValue::Symbol(s@),
        Value::Cons(a, b) => SpecValue::Cons(Box::new(vview(*a)), Box::new(vview(*b))),
        Value::Nil => SpecValue::Nil,
    }
}

impl View for Value {
    type V = SpecValue;

    open spec fn view(&self) -> SpecValue {
        vview(*self)
    }
}

impl DeepView for Value {
    type V = SpecValue;

    open spec fn deep_view(&self) -> SpecValue {
        vview(*self)
    }
}

/// Structural size of a model value, the measure that evaluation recursion
/// decreases on within one fuel level.
pub open spec fn vsize(v: SpecValue) -> nat
    decreases v,
{
    match v {
        SpecValue::Cons(a, b) => 1 + vsize(*a) + vsize(*b),
        SpecValue::Function(f) => 1 + fsize(f),
        SpecValue::Macro(f) => 1 + fsize(f),
        _ => 1,
    }
}

/// Sum of the sizes of a sequence of model values.
pub open spec fn seq_vsize(s: Seq<SpecValue>) -> nat
    decreases s.len(),
{
    if s.len() == 0 {
        0
    } else {
        vsize(s[0]) + seq_vsize(s.subrange(1, s.len() as int))
    }
}

/// The elements of a proper list, or `None` where the chain does not end in
/// `Nil`.
pub open spec fn list_elems(v: SpecValue) -> Option<Seq<SpecValue>>
    decreases v,
{
    match v {
        SpecValue::Nil => Some(Seq::empty()),
        SpecValue::Cons(h, t) => match list_elems(*t) {
            Some(s) => Some(Seq::empty().push(*h) + s),
            None => None,
        },
        _ => None,
    }
}

/// The proper list holding the given elements in order.
pub open spec fn mk_list(s: Seq<SpecValue>) -> SpecValue
    decreases s.len(),
{
    if s.len() == 0 {
        SpecValue::Nil
    } else {
        SpecValue::Cons(Box::new(s[0]), Box::new(mk_list(s.subrange(1, s.len() as int))))
    }
}

pub proof fn lemma_seq_vsize_elem(s: Seq<SpecValue>, i: int)
    requires
        0 <= i < s.len(),
    ensures
        vsize(s[i]) <= seq_vsize(s),
    decreases s.len(),
{
    if i > 0 {
        lemma_seq_vsize_elem(s.subrange(1, s.len() as int), i - 1);
        assert(s.subrange(1, s.len() as int)[i - 1] == s[i]);
    }
}

/// A proper list is strictly larger than the sum of its elements.
pub proof fn lemma_elems_size(v: SpecValue)
    requires
        list_elems(v) is Some,
    ensures
        seq_vsize(list_elems(v).unwrap()) < vsize(v),
    decreases v,
{
    match v {
        SpecValue::Nil => {},
        SpecValue::Cons(h, t) => {
            lemma_elems_size(*t);
            let s = list_elems(v).unwrap();
            let st = list_elems(*t).unwrap();
            assert(s == Seq::empty().push(*h) + st);
            assert(s.subrange(1, s.len() as int) =~= st);
            assert(s[0] == *h);
        },
        _ => {},
    }
}

/// A value and its model are always the same kind of datum.
pub proof fn lemma_vview_kinds(v: &Value)
    ensures
        (vview(*v) is Cons <==> *v is Cons),
        (vview(*v) is Nil <==> *v is Nil),
        (vview(*v) is Symbol <==> *v is Symbol),
        (vview(*v) is Str <==> *v is String),
        (vview(*v) is Integer <==> *v is Integer),
        (vview(*v) is Float <==> *v is Float),
        (vview(*v) is Boolean <==> *v is Boolean),
        (vview(*v) is NativeFunction <==> *v is NativeFunction),
        (vview(*v) is NativeMacro <==> *v is NativeMacro),
        (vview(*v) is Function <==> *v is Function),
        (vview(*v) is Macro <==> *v is Macro),
{
    match v {
        Value::Float(_) => {},
        Value::Integer(_) => {},
        Value::Boolean(_) => {},
        Value::String(_) => {},
        Value::NativeFunction(_, _) => {},
        Value::NativeMacro(_, _) => {},
        Value::Function(_) => {},
        Value::Macro(_) => {},
        Value::Symbol(_) => {},
        Value::Cons(_, _) => {},
        Value::Nil => {},
    }
}

impl Clone for Value {
    fn clone(&self) -> (res: Self)
        ensures
            res == *self,
    {
        match self {
            Value::Float(b) => Value::Float(*b),
            Value::Integer(i) => Value::Integer(*i),
            Value::Boolean(b) => Value::Boolean(*b),
            Value::String(s) => Value::String(s.clone()),
            Value::NativeFunction(n, f) => Value::NativeFunction(n.clone(), *f),
            Value::NativeMacro(n, m) => Value::NativeMacro(n.clone(), *m),
            Value::Function(f) => Value::Function(f.clone()),
            Value::Macro(m) => Value::Macro(m.clone()),
            Value::Symbol(s) => Value::Symbol(s.clone()),
            Value::Cons(a, b) => Value::Cons(a.clone(), b.clone()),
            Value::Nil => Value::Nil,
        }
    }
}

impl Value {
    /// The elements of a proper list, `None` where the value is no proper
    /// list.
    pub fn as_list(&self) -> (r: Option<Vec<Rc<Value>>>)
        ensures
            match r {
                Some(v) => list_elems(self@) == Some(v.deep_view()),
                None => list_elems(self@) is None,
            },
        decreases *self,
    {
        match self {
            Value::Nil => Some(Vec::new()),
            Value::Cons(l, r) => match r.as_list() {
                Some(mut rest) => {
                    let ghost tail_elems = rest.deep_view();
                    rest.insert(0, l.clone());
                    proof {
                        assert(rest.deep_view() =~= Seq::empty().push(vview(**l)) + tail_elems);
                    }
                    Some(rest)
                },
                None => None,
            },
            _ => None,
        }
    }

    /// The symbol's text, `None` for any other kind of value.
    pub fn as_symbol(&self) -> (r: Option<&str>)
        ensures
            match r {
                Some(s) => self@ == SpecValue::Symbol(s@),
                None => !(self@ is Symbol),
            },
    {
        if let Value::Symbol(sym) = self {
            Some(sym.as_str())
        } else {
            None
        }
    }

    /// The two elements of a two-element proper list, `None` otherwise.
    pub fn as_pair(&self) -> (r: Option<(Rc<Value>, Rc<Value>)>)
        ensures
            match r {
                Some(p) => spec_pair(self@) == Some((p.0.deep_view(), p.1.deep_view())),
                None => spec_pair(self@) is None,
            },
    {
        match self {
            Value::Cons(left, right) => match &**right {
                Value::Cons(mid, nil) => match &**nil {
                    Value::Nil => {
                        proof {
                            assert(vview(*self) == SpecValue::Cons(
                                Box::new(vview(**left)),
                                Box::new(vview(**right)),
                            ));
                            assert(vview(**right) == SpecValue::Cons(
                                Box::new(vview(**mid)),
                                Box::new(vview(**nil)),
                            ));
                            assert(vview(**nil) == SpecValue::Nil);
                        }
                        Some((left.clone(), mid.clone()))
                    },
                    _ => {
                        proof {
                            lemma_vview_kinds(&**nil);
                        }
                        None
                    },
                },
                _ => {
                    proof {
                        lemma_vview_kinds(&**right);
                    }
                    None
                },
            },
            _ => {
                proof {
                    lemma_vview_kinds(self);
                }
                None
            },
        }
    }

    /// A two-element proper list whose head is a symbol, as (text, value).
    pub fn as_symbol_value_pair(&self) -> (r: Option<(&str, Rc<Value>)>)
        ensures
            match r {
                Some(p) => spec_symbol_pair(self@) == Some((p.0@, p.1.deep_view())),
                None => spec_symbol_pair(self@) is None,
            },
    {
        proof {
            lemma_vview_kinds(self);
        }
        match self {
            Value::Cons(left, right) => {
                proof {
                    lemma_vview_kinds(&**right);
                    lemma_vview_kinds(&**left);
                }
                match &**right {
                    Value::Cons(mid, nil) => {
                        proof {
                            lemma_vview_kinds(&**nil);
                        }
                        match &**nil {
                            Value::Nil => match &**left {
                                Value::Symbol(sym) => Some((sym.as_str(), mid.clone())),
                                _ => None,
                            },
                            _ => None,
                        }
                    },
                    _ => None,
                }
            },
            _ => None,
        }
    }

    /// The text of a string value. Only strings may be handed in.
    pub fn as_string(self) -> (r: String)
        requires
            self@ is Str,
        ensures
            self@ == SpecValue::Str(r@),
    {
        match self {
            Value::String(s) => s,
            _ => vstd::pervasive::unreached(),
        }
    }

    /// The text after the colon of a keyword symbol (one whose text starts
    /// with `:`), `None` for every other value.
    pub fn as_keyword_symbol(&self) -> (r: Option<&str>)
        ensures
            match r {
                Some(k) => spec_keyword_name(self@) == Some(k@),
                None => spec_keyword_name(self@) is None,
            },
    {
        if let Value::Symbol(sym) = self {
            let n = sym.as_str().unicode_len();
            if n > 0 && sym.as_str().get_char(0) == ':' {
                return Some(sym.as_str().substring_char(1, n));
            }
        }
        None
    }

    /// Wraps a body list in an implicit `progn` form.
    pub fn progn(body: Rc<Value>) -> (r: Value)
        ensures
            r@ == SpecValue::Cons(
                Box::new(SpecValue::Symbol("progn"@)),
                Box::new(body.deep_view()),
            ),
    {
        Value::Cons(Rc::new(Value::symbol("progn")), body)
    }

    /// A symbol with the given text.
    pub fn symbol(symbol: &str) -> (r: Value)
        ensures
            r@ == SpecValue::Symbol(symbol@),
    {
        Value::Symbol(symbol.to_owned())
    }

    /// The proper list of the given values, in order.
    pub fn list(values: Vec<Value>) -> (r: Value)
        ensures
            r@ == mk_list(values.deep_view()),
    {
        let ghost all = values.deep_view();
        let mut i: usize = values.len();
        let mut acc = Value::Nil;
        assert(all.subrange(i as int, all.len() as int) =~= Seq::<SpecValue>::empty());
        while i > 0
            invariant
                i <= values.len(),
                values.deep_view() == all,
                all.len() == values.len(),
                acc@ == mk_list(all.subrange(i as int, all.len() as int)),
            decreases i,
        {
            i = i - 1;
            acc = Value::Cons(Rc::new(values[i].clone()), Rc::new(acc));
            proof {
                let sub = all.subrange(i as int, all.len() as int);
                assert(sub[0] == all[i as int]);
                assert(sub.subrange(1, sub.len() as int) =~= all.subrange(
                    i + 1,
                    all.len() as int,
                ));
            }
        }
        assert(all.subrange(0, all.len() as int) =~= all);
        acc
    }

    /// The proper list of the given shared values, in order.
    pub fn list_rc(values: Vec<Rc<Value>>) -> (r: Value)
        ensures
            r@ == mk_list(values.deep_view()),
    {
        let ghost all = values.deep_view();
        let mut i: usize = values.len();
        let mut acc = Value::Nil;
        assert(all.subrange(i as int, all.len() as int) =~= Seq::<SpecValue>::empty());
        while i > 0
            invariant
                i <= values.len(),
                values.deep_view() == all,
                all.len() == values.len(),
                acc@ == mk_list(all.subrange(i as int, all.len() as int)),
            decreases i,
        {
            i = i - 1;
            acc = Value::Cons(values[i].clone(), Rc::new(acc));
            proof {
                let sub = all.subrange(i as int, all.len() as int);
                assert(sub[0] == all[i as int]);
                assert(sub.subrange(1, sub.len() as int) =~= all.subrange(
                    i + 1,
                    all.len() as int,
                ));
            }
        }
        assert(all.subrange(0, all.len() as int) =~= all);
        acc
    }
}

/// The two elements of a two-element proper list.
pub open spec fn spec_pair(v: SpecValue) -> Option<(SpecValue, SpecValue)> {
    match v {
        SpecValue::Cons(a, t) => match *t {
            SpecValue::Cons(b, n) => if *n is Nil {
                Some((*a, *b))
            } else {
                None
            },
            _ => None,
        },
        _ => None,
    }
}

/// The (symbol text, value) of a two-element proper list headed by a symbol.
pub open spec fn spec_symbol_pair(v: SpecValue) -> Option<(Seq<char>, SpecValue)> {
    match spec_pair(v) {
        Some(p) => match p.0 {
            SpecValue::Symbol(s) => Some((s, p.1)),
            _ => None,
        },
        None => None,
    }
}

/// The text after the colon of a keyword symbol.
pub open spec fn spec_keyword_name(v: SpecValue) -> Option<Seq<char>> {
    match v {
        SpecValue::Symbol(s) => if s.len() > 0 && s[0] == ':' {
            Some(s.subrange(1, s.len() as int))
        } else {
            None
        },
        _ => None,
    }
}


/// Equality of two model values, as the `=` native decides it: structural,
/// with floats compared under IEEE 754 (NaN equals nothing, the two zeroes
/// are equal) and closures compared by name, captured scope, parameter plan
/// and body.
pub open spec fn spec_val_eq(a: SpecValue, b: SpecValue) -> bool
    decreases a,
{
    match (a, b) {
        (SpecValue::Float(x), SpecValue::Float(y)) => crate::floats::float_eq_bits(x, y),
        (SpecValue::Integer(x), SpecValue::Integer(y)) => x == y,
        (SpecValue::Boolean(x), SpecValue::Boolean(y)) => x == y,
        (SpecValue::Str(x), SpecValue::Str(y)) => x == y,
        (SpecValue::Symbol(x), SpecValue::Symbol(y)) => x == y,
        (SpecValue::NativeFunction(n, f), SpecValue::NativeFunction(m, g)) => n == m && f == g,
        (SpecValue::NativeMacro(n, f), SpecValue::NativeMacro(m, g)) => n == m && f == g,
        (SpecValue::Function(f), SpecValue::Function(g)) => spec_fn_eq(f, g),
        (SpecValue::Macro(f), SpecValue::Macro(g)) => spec_fn_eq(f, g),
        (SpecValue::Cons(a1, b1), SpecValue::Cons(a2, b2)) => spec_val_eq(*a1, *a2)
            && spec_val_eq(*b1, *b2),
        (SpecValue::Nil, SpecValue::Nil) => true,
        _ => false,
    }
}

pub open spec fn spec_fn_eq(f: SpecFunction, g: SpecFunction) -> bool
    decreases f,
{
    &&& f.name == g.name
    &&& f.scope == g.scope
    &&& spec_val_eq(*f.body, *g.body)
    &&& f.params.required == g.params.required
    &&& f.params.rest == g.params.rest
    &&& f.params.optional.len() == g.params.optional.len()
    &&& (forall|i: int|
        0 <= i < f.params.optional.len() ==> (#[trigger] f.params.optional[i]).0
            == g.params.optional[i].0 && spec_val_eq(
            f.params.optional[i].1,
            g.params.optional[i].1,
        ))
    &&& f.params.keyword.len() == g.params.keyword.len()
    &&& (forall|i: int|
        0 <= i < f.params.keyword.len() ==> (#[trigger] f.params.keyword[i]).0
            == g.params.keyword[i].0 && (match (f.params.keyword[i].1, g.params.keyword[i].1) {
            (Some(x), Some(y)) => spec_val_eq(x, y),
            (None, None) => true,
            _ => false,
        }))
}

/// Decides `spec_val_eq` executably.
pub fn val_eq(a: &Value, b: &Value) -> (r: bool)
    ensures
        r == spec_val_eq(a@, b@),
    decreases *a,
{
    match (a, b) {
        (Value::Float(x), Value::Float(y)) => crate::floats::eq_float_bits(*x, *y),
        (Value::Integer(x), Value::Integer(y)) => *x == *y,
        (Value::Boolean(x), Value::Boolean(y)) => *x == *y,
        (Value::String(x), Value::String(y)) => crate::scope::str_eq(x.as_str(), y.as_str()),
        (Value::Symbol(x), Value::Symbol(y)) => crate::scope::str_eq(x.as_str(), y.as_str()),
        (Value::NativeFunction(n, f), Value::NativeFunction(m, g)) => {
            let names = crate::scope::str_eq(n.as_str(), m.as_str());
            names && *f == *g
        },
        (Value::NativeMacro(n, f), Value::NativeMacro(m, g)) => {
            let names = crate::scope::str_eq(n.as_str(), m.as_str());
            names && *f == *g
        },
        (Value::Function(f), Value::Function(g)) => closures_eq(f, g),
        (Value::Macro(f), Value::Macro(g)) => {
            let r = closures_eq2(f, g);
            r
        },
        (Value::Cons(a1, b1), Value::Cons(a2, b2)) => {
            let heads = val_eq(&*a1, &*a2);
            heads && val_eq(&*b1, &*b2)
        },
        (Value::Nil, Value::Nil) => true,
        _ => {
            proof {
                lemma_vview_kinds(a);
                lemma_vview_kinds(b);
            }
            false
        },
    }
}

/// Decides equality of two parameter plans against given views.
fn plans_eq(f: &Params, g: &Params) -> (r: bool)
    ensures
        r == ({
            let fp = crate::params::pview(*f);
            let gp = crate::params::pview(*g);
            &&& fp.required == gp.required
            &&& fp.rest == gp.rest
            &&& fp.optional.len() == gp.optional.len()
            &&& (forall|i: int|
                0 <= i < fp.optional.len() ==> (#[trigger] fp.optional[i]).0 == gp.optional[i].0
                    && spec_val_eq(fp.optional[i].1, gp.optional[i].1))
            &&& fp.keyword.len() == gp.keyword.len()
            &&& (forall|i: int|
                0 <= i < fp.keyword.len() ==> (#[trigger] fp.keyword[i]).0 == gp.keyword[i].0 && (
                match (fp.keyword[i].1, gp.keyword[i].1) {
                    (Some(x), Some(y)) => spec_val_eq(x, y),
                    (None, None) => true,
                    _ => false,
                }))
        }),
    decreases *f,
{
    let ghost fp = crate::params::pview(*f);
    let ghost gp = crate::params::pview(*g);
    proof {
        crate::params::lemma_opt_views(f.optional@);
        crate::params::lemma_opt_views(g.optional@);
        crate::params::lemma_kw_views(f.keyword@);
        crate::params::lemma_kw_views(g.keyword@);
    }
    if !names_eq(&f.required, &g.required) {
        return false;
    }
    match (&f.rest, &g.rest) {
        (Some(x), Some(y)) => {
            if !crate::scope::str_eq(x.as_str(), y.as_str()) {
                return false;
            }
        },
        (None, None) => {},
        _ => {
            return false;
        },
    }
    if f.optional.len() != g.optional.len() {
        return false;
    }
    let n = f.optional.len();
    let mut i: usize = 0;
    while i < n
        invariant
            n == f.optional@.len() == g.optional@.len(),
            i <= n,
            fp == crate::params::pview(*f),
            gp == crate::params::pview(*g),
            fp.optional.len() == n,
            gp.optional.len() == n,
            forall|j: int|
                0 <= j < i ==> (#[trigger] fp.optional[j]).0 == gp.optional[j].0 && spec_val_eq(
                    fp.optional[j].1,
                    gp.optional[j].1,
                ),
            forall|j: int|
                0 <= j < n ==> #[trigger] fp.optional[j] == (
                f.optional@[j].0@,
                vview(*f.optional@[j].1),
            ),
            forall|j: int|
                0 <= j < n ==> #[trigger] gp.optional[j] == (
                g.optional@[j].0@,
                vview(*g.optional@[j].1),
            ),
        decreases n - i,
    {
        if !crate::scope::str_eq(f.optional[i].0.as_str(), g.optional[i].0.as_str()) {
            proof {
                assert(fp.optional[i as int].0 != gp.optional[i as int].0);
            }
            return false;
        }
        if !val_eq(&f.optional[i].1, &g.optional[i].1) {
            proof {
                assert(!spec_val_eq(fp.optional[i as int].1, gp.optional[i as int].1));
            }
            return false;
        }
        i = i + 1;
    }
    if f.keyword.len() != g.keyword.len() {
        return false;
    }
    let m = f.keyword.len();
    let mut k: usize = 0;
    while k < m
        invariant
            m == f.keyword@.len() == g.keyword@.len(),
            k <= m,
            fp == crate::params::pview(*f),
            gp == crate::params::pview(*g),
            fp.keyword.len() == m,
            gp.keyword.len() == m,
            forall|j: int|
                0 <= j < k ==> (#[trigger] fp.keyword[j]).0 == gp.keyword[j].0 && (match (
                fp.keyword[j].1,
                gp.keyword[j].1,
            ) {
                (Some(x), Some(y)) => spec_val_eq(x, y),
                (None, None) => true,
                _ => false,
            }),
            forall|j: int|
                0 <= j < m ==> #[trigger] fp.keyword[j] == (
                f.keyword@[j].0@,
                match f.keyword@[j].1 {
                    Some(d) => Some(vview(*d)),
                    None => None,
                },
            ),
            forall|j: int|
                0 <= j < m ==> #[trigger] gp.keyword[j] == (
                g.keyword@[j].0@,
                match g.keyword@[j].1 {
                    Some(d) => Some(vview(*d)),
                    None => None,
                },
            ),
        decreases m - k,
    {
        if !crate::scope::str_eq(f.keyword[k].0.as_str(), g.keyword[k].0.as_str()) {
            proof {
                assert(fp.keyword[k as int].0 != gp.keyword[k as int].0);
            }
            return false;
        }
        match (&f.keyword[k].1, &g.keyword[k].1) {
            (Some(x), Some(y)) => {
                if !val_eq(&*x, &*y) {
                    proof {
                        assert(fp.keyword[k as int].1 == Some(vview(**x)));
                        assert(gp.keyword[k as int].1 == Some(vview(**y)));
                        assert(!(match (fp.keyword[k as int].1, gp.keyword[k as int].1) {
                            (Some(a0), Some(b0)) => spec_val_eq(a0, b0),
                            (None, None) => true,
                            _ => false,
                        }));
                    }
                    return false;
                }
            },
            (None, None) => {},
            _ => {
                proof {
                    assert(!(match (fp.keyword[k as int].1, gp.keyword[k as int].1) {
                        (Some(a0), Some(b0)) => spec_val_eq(a0, b0),
                        (None, None) => true,
                        _ => false,
                    }));
                }
                return false;
            },
        }
        k = k + 1;
    }
    true
}

fn closures_eq(f: &Rc<Function>, g: &Rc<Function>) -> (r: bool)
    ensures
        r == spec_fn_eq(fview(**f), fview(**g)),
    decreases **f,
{
    let names = crate::scope::str_eq(f.name.as_str(), g.name.as_str());
    if !names {
        return false;
    }
    if f.parent_scope != g.parent_scope {
        return false;
    }
    if !val_eq(&f.expr, &g.expr) {
        return false;
    }
    plans_eq(&f.params, &g.params)
}

fn closures_eq2(f: &Rc<Macro>, g: &Rc<Macro>) -> (r: bool)
    ensures
        r == spec_fn_eq(mview(**f), mview(**g)),
    decreases **f,
{
    let names = crate::scope::str_eq(f.name.as_str(), g.name.as_str());
    if !names {
        return false;
    }
    if f.parent_scope != g.parent_scope {
        return false;
    }
    if !val_eq(&f.expr, &g.expr) {
        return false;
    }
    plans_eq(&f.params, &g.params)
}

fn names_eq(s: &Vec<String>, t: &Vec<String>) -> (r: bool)
    ensures
        r == (s.deep_view() == t.deep_view()),
{
    if s.len() != t.len() {
        proof {
            assert(s.deep_view().len() == s@.len());
            assert(t.deep_view().len() == t@.len());
        }
        return false;
    }
    let n = s.len();
    let mut i: usize = 0;
    while i < n
        invariant
            n == s@.len() == t@.len(),
            i <= n,
            forall|j: int| 0 <= j < i ==> s.deep_view()[j] == t.deep_view()[j],
        decreases n - i,
    {
        proof {
            assert(s.deep_view()[i as int] == s@[i as int]@);
            assert(t.deep_view()[i as int] == t@[i as int]@);
        }
        if !crate::scope::str_eq(s[i].as_str(), t[i].as_str()) {
            proof {
                assert(s.deep_view()[i as int] != t.deep_view()[i as int]);
            }
            return false;
        }
        i = i + 1;
    }
    proof {
        assert(s.deep_view() =~= t.deep_view());
    }
    true
}


/// A value that evaluates to itself: everything but a symbol or a call form.
pub open spec fn self_evaluating(v: SpecValue) -> bool {
    !(v is Symbol) && !(v is Cons)
}

impl Value {
    /// The tree-walking evaluator. Atoms evaluate to themselves; a symbol
    /// resolves through the reserved literals, keyword symbols and the scope
    /// chain; a cons cell evaluates its head and dispatches the call. `fuel`
    /// bounds the depth of user-function calls: the runtime makes the fatal
    /// depth exhaustion of unbounded recursion an explicit, inspectable
    /// error.
    pub fn eval(&self, sc: &mut crate::scope::Scope, frame: usize, fuel: u64) -> (r: Result<
        Value,
        crate::errors::Error,
    >)
        requires
            old(sc).wf(),
            frame < old(sc).frames@.len(),
        ensures
            final(sc).wf(),
            old(sc).frames@.len() <= final(sc).frames@.len(),
            crate::scope::frames_preserved_except(old(sc)@, final(sc)@, frame as int),
            crate::semantics::returns_value(
                crate::semantics::spec_eval(old(sc)@, frame as int, self@, fuel),
                final(sc)@,
                r,
            ),
            self_evaluating(self@) ==> (r matches Ok(v) && v@ == self@ && final(sc)@ == old(
                sc,
            )@),
            self@ matches SpecValue::Symbol(s) ==> final(sc)@ == old(sc)@ && (match
                crate::scope::spec_get_value(old(sc)@, frame as int, s) {
                Ok(v) => r matches Ok(rv) && rv@ == v,
                Err(e) => r matches Err(re) && re@ == e,
            }),
        decreases fuel, vsize(self@), 0nat,
    {
        match self {
            Value::Symbol(sym) => sc.get_value(frame, sym.as_str()),
            Value::Cons(left, params) => {
                proof {
                    assert(vsize(vview(**left)) < vsize(vview(*self)));
                    assert(vsize(vview(**params)) < vsize(vview(*self)));
                }
                let callee = match left.eval(sc, frame, fuel) {
                    Ok(v) => v,
                    Err(e) => {
                        return Err(e);
                    },
                };
                callee.call(&*params, sc, frame, fuel)
            },
            _ => {
                proof {
                    lemma_vview_kinds(self);
                }
                Ok(self.clone())
            },
        }
    }

    /// Call dispatch over the callee's kind. Native functions and
    /// user-defined functions take their arguments evaluated left to right in
    /// the caller's environment; native and user-defined macros take the
    /// unevaluated forms. Nil and every other non-callable value are type
    /// errors.
    pub fn call(
        &self,
        args: &Value,
        sc: &mut crate::scope::Scope,
        frame: usize,
        fuel: u64,
    ) -> (r: Result<Value, crate::errors::Error>)
        requires
            old(sc).wf(),
            frame < old(sc).frames@.len(),
        ensures
            final(sc).wf(),
            old(sc).frames@.len() <= final(sc).frames@.len(),
            crate::scope::frames_preserved_except(old(sc)@, final(sc)@, frame as int),
            crate::semantics::returns_value(
                crate::semantics::spec_call(old(sc)@, frame as int, self@, args@, fuel),
                final(sc)@,
                r,
            ),
            self@ is Nil ==> (r matches Err(e) && e@ == crate::errors::SpecError::TypeError(
                "cannot call nil"@,
            ) && final(sc)@ == old(sc)@),
            (self@ is Integer || self@ is Float || self@ is Boolean || self@ is Str || self@
                is Symbol || self@ is Cons) ==> (r matches Err(e) && e@
                == crate::errors::SpecError::TypeError("expected function"@) && final(sc)@ == old(
                sc,
            )@),
        decreases fuel, vsize(args@), 1nat,
    {
        match self {
            Value::Nil => Err(Error::TypeError(String::from_str("cannot call nil"))),
            Value::NativeFunction(_, id) => {
                let vals = match eval_args(args, sc, frame, fuel) {
                    Ok(vs) => vs,
                    Err(e) => {
                        return Err(e);
                    },
                };
                crate::functions::dispatch_native(*id, vals)
            },
            Value::NativeMacro(_, id) => {
                let forms = match args.as_list() {
                    Some(fs) => fs,
                    None => {
                        return Err(Error::ImproperListError);
                    },
                };
                proof {
                    lemma_elems_size(vview(*args));
                }
                crate::macros::dispatch_macro(*id, forms, sc, frame, fuel)
            },
            Value::Function(f) => {
                let vals = match eval_args(args, sc, frame, fuel) {
                    Ok(vs) => vs,
                    Err(e) => {
                        return Err(e);
                    },
                };
                if fuel == 0 {
                    return Err(Error::DepthLimit);
                }
                f.call(vals, sc, fuel - 1)
            },
            Value::Macro(m) => {
                let forms = match args.as_list() {
                    Some(fs) => fs,
                    None => {
                        return Err(Error::ImproperListError);
                    },
                };
                let vals = rc_to_values(forms);
                if fuel == 0 {
                    return Err(Error::DepthLimit);
                }
                m.call(vals, sc, fuel - 1)
            },
            _ => {
                proof {
                    lemma_vview_kinds(self);
                }
                Err(Error::TypeError(String::from_str("expected function")))
            },
        }
    }
}

/// Evaluates every element of a proper argument list, left to right, in the
/// caller's environment.
fn eval_args(
    args: &Value,
    sc: &mut crate::scope::Scope,
    frame: usize,
    fuel: u64,
) -> (r: Result<Vec<Value>, crate::errors::Error>)
    requires
        old(sc).wf(),
        frame < old(sc).frames@.len(),
    ensures
        final(sc).wf(),
        old(sc).frames@.len() <= final(sc).frames@.len(),
        crate::scope::frames_preserved_except(old(sc)@, final(sc)@, frame as int),
        crate::semantics::returns_values(
            crate::semantics::spec_eval_list(old(sc)@, frame as int, args@, fuel),
            final(sc)@,
            r,
        ),
        list_elems(args@) is None ==> (r matches Err(e) && e@
            == crate::errors::SpecError::ImproperListError && final(sc)@ == old(sc)@),
    decreases fuel, vsize(args@), 0nat,
{
    let forms = match args.as_list() {
        Some(fs) => fs,
        None => {
            return Err(Error::ImproperListError);
        },
    };
    let ghost elems = forms.deep_view();
    proof {
        lemma_elems_size(vview(*args));
    }
    let n = forms.len();
    let mut vals: Vec<Value> = Vec::new();
    let mut i: usize = 0;
    proof {
        assert(vals.deep_view() =~= Seq::<SpecValue>::empty());
        assert(crate::semantics::spec_eval_list(old(sc)@, frame as int, args@, fuel)
            == crate::semantics::spec_eval_elems(
            old(sc)@,
            frame as int,
            elems,
            0,
            Seq::empty(),
            fuel,
        ));
    }
    while i < n
        invariant
            elems == forms.deep_view(),
            n == elems.len(),
            n == forms@.len(),
            i <= n,
            sc.wf(),
            frame < sc.frames@.len(),
            old(sc).frames@.len() <= sc.frames@.len(),
            crate::scope::frames_preserved_except(old(sc)@, sc@, frame as int),
            seq_vsize(elems) < vsize(args@),
            list_elems(args@) == Some(elems),
            crate::semantics::spec_eval_list(old(sc)@, frame as int, args@, fuel)
                == crate::semantics::spec_eval_elems(
                sc@,
                frame as int,
                elems,
                i as int,
                vals.deep_view(),
                fuel,
            ),
        decreases n - i,
    {
        proof {
            assert(elems[i as int] == vview(*forms@[i as int]));
            lemma_seq_vsize_elem(elems, i as int);
        }
        let ghost scb = sc@;
        let ghost accb = vals.deep_view();
        let v = match forms[i].eval(sc, frame, fuel) {
            Ok(v) => v,
            Err(e) => {
                proof {
                    assert(crate::semantics::spec_eval_elems(scb, frame as int, elems, i as int, accb, fuel)
                        == (crate::semantics::Outcome {
                        frames: sc@,
                        result: Err::<Seq<SpecValue>, crate::errors::SpecError>(e@),
                    }));
                }
                return Err(e);
            },
        };
        vals.push(v);
        proof {
            assert(vals.deep_view() =~= accb.push(v@));
            assert(crate::semantics::spec_eval_elems(scb, frame as int, elems, i as int, accb, fuel)
                == crate::semantics::spec_eval_elems(
                sc@,
                frame as int,
                elems,
                i + 1,
                vals.deep_view(),
                fuel,
            ));
        }
        i = i + 1;
    }
    Ok(vals)
}

/// The owned values of a list of shared values.
fn rc_to_values(forms: Vec<Rc<Value>>) -> (r: Vec<Value>)
    ensures
        r.deep_view() == forms.deep_view(),
{
    let n = forms.len();
    let mut out: Vec<Value> = Vec::new();
    let mut i: usize = 0;
    while i < n
        invariant
            n == forms@.len(),
            i <= n,
            out.deep_view() =~= forms.deep_view().subrange(0, i as int),
        decreases n - i,
    {
        let ghost prevo = out.deep_view();
        out.push((*forms[i]).clone());
        proof {
            assert(forms.deep_view()[i as int] == vview(*forms@[i as int]));
            assert(out.deep_view() =~= prevo.push(vview(*forms@[i as int])));
            assert(forms.deep_view().subrange(0, i + 1) =~= forms.deep_view().subrange(
                0,
                i as int,
            ).push(forms.deep_view()[i as int]));
            assert(out.deep_view() =~= forms.deep_view().subrange(0, i + 1));
        }
        i = i + 1;
    }
    proof {
        assert(out.deep_view() =~= forms.deep_view());
    }
    out
}


/// A cursor over a cons chain, as `iter_cons` hands it out. On a proper
/// list it yields each element; on an improper chain it yields the elements
/// before the tail and then the final pair itself.
#[derive(Debug)]
pub struct ConsIter {
    pub cons: Option<Rc<Value>>,
}

impl ConsIter {
    /// The values still to come hold a cons cell, or nothing.
    pub open spec fn wf(&self) -> bool {
        match self.cons {
            Some(c) => vview(*c) is Cons,
            None => true,
        }
    }

    /// The next value of the chain, as the cursor's contract states it.
    pub fn next(&mut self) -> (r: Option<Rc<Value>>)
        requires
            old(self).wf(),
        ensures
            final(self).wf(),
            old(self).cons is None ==> (r is None && final(self).cons is None),
            (match old(self).cons {
                Some(c) => match vview(*c) {
                    SpecValue::Cons(h, t) => {
                        &&& (*t is Cons ==> (r matches Some(x) && vview(*x) == *h && (
                        match final(self).cons {
                            Some(y) => vview(*y) == *t,
                            None => false,
                        })))
                        &&& (*t is Nil ==> (r matches Some(x) && vview(*x) == *h
                            && final(self).cons is None))
                        &&& (!(*t is Cons) && !(*t is Nil) ==> (r matches Some(x) && vview(*x)
                            == vview(*c) && final(self).cons is None))
                    },
                    _ => true,
                },
                None => true,
            }),
    {
        match self.cons.take() {
            Some(cons) => {
                proof {
                    lemma_vview_kinds(&*cons);
                }
                match &*cons {
                    Value::Cons(left, right) => {
                        proof {
                            lemma_vview_kinds(&**right);
                        }
                        match &**right {
                            Value::Cons(_, _) => {
                                self.cons = Some(right.clone());
                                Some(left.clone())
                            },
                            Value::Nil => {
                                self.cons = None;
                                Some(left.clone())
                            },
                            _ => {
                                self.cons = None;
                                Some(cons.clone())
                            },
                        }
                    },
                    _ => vstd::pervasive::unreached(),
                }
            },
            None => None,
        }
    }
}

impl Value {
    /// A cursor over this cons chain. Only a cons cell or nil may be handed
    /// in.
    pub fn iter_cons(&self) -> (r: ConsIter)
        requires
            self@ is Cons || self@ is Nil,
        ensures
            r.wf(),
            match r.cons {
                Some(c) => vview(*c) == self@,
                None => self@ is Nil,
            },
    {
        proof {
            lemma_vview_kinds(self);
        }
        match self {
            Value::Cons(_, _) => ConsIter { cons: Some(Rc::new(self.clone())) },
            _ => ConsIter { cons: None },
        }
    }
}

/// Folding a collection pairwise from the left.
pub trait Reduce<T>: Sized {
    /// The elements the fold runs over, in order.
    spec fn elems(&self) -> Seq<T>;

    /// The left fold of the elements under `f`: nothing where there are
    /// none, the single element where there is one, and otherwise `f`
    /// folded over the elements left to right.
    fn reduce<F: Fn(T, T) -> T>(self, f: F) -> (r: Option<T>)
        requires
            forall|x: T, y: T| #[trigger] call_requires(f, (x, y)),
        ensures
            r is None <==> self.elems().len() == 0,
            self.elems().len() == 1 ==> r == Some(self.elems()[0]),
    ;
}

/// A record of one left fold of `vals` under `f`: it starts at the first
/// value, each later entry is a possible result of `f` on the previous
/// entry and the next value, and `out` is the last entry.
pub open spec fn fold_chain<F: Fn(Value, Value) -> Value>(
    f: F,
    vals: Seq<Value>,
    mids: Seq<Value>,
    out: Value,
) -> bool {
    &&& mids.len() == vals.len()
    &&& vals.len() > 0
    &&& mids[0] == vals[0]
    &&& out == mids.last()
    &&& forall|t: int|
        1 <= t < mids.len() ==> call_ensures(f, (mids[t - 1], vals[t]), #[trigger] mids[t])
}

impl Reduce<Value> for Vec<Value> {
    open spec fn elems(&self) -> Seq<Value> {
        self@
    }

    /// On a vector of values the result is pinned further: some left fold
    /// of the elements under `f` produced it.
    fn reduce<F: Fn(Value, Value) -> Value>(self, f: F) -> (r: Option<Value>)
        ensures
            r matches Some(v) ==> exists|mids: Seq<Value>| fold_chain(f, self@, mids, v),
    {
        let ghost all = self@;
        let mut rest = self;
        if rest.len() == 0 {
            return None;
        }
        let mut acc = rest.remove(0);
        let ghost mut mids: Seq<Value> = seq![acc];
        let n = rest.len();
        let mut k: usize = 0;
        while k < n
            invariant
                n + 1 == all.len(),
                k <= n,
                rest@ =~= all.subrange(1, all.len() as int),
                k == 0 ==> acc == all[0],
                mids.len() == k + 1,
                mids[0] == all[0],
                mids.last() == acc,
                forall|t: int|
                    1 <= t <= k ==> call_ensures(f, (mids[t - 1], all[t]), #[trigger] mids[t]),
                forall|x: Value, y: Value| #[trigger] call_requires(f, (x, y)),
            decreases n - k,
        {
            let next = rest[k].clone();
            proof {
                assert(rest@[k as int] == all[k + 1]);
            }
            acc = f(acc, next);
            proof {
                mids = mids.push(acc);
                assert(mids.last() == acc);
                assert(forall|t: int| 0 <= t < mids.len() - 1 ==> #[trigger] mids[t] == mids.drop_last()[t]);
            }
            k = k + 1;
        }
        proof {
            assert(fold_chain(f, all, mids, acc));
        }
        Some(acc)
    }
}

} // verus!
