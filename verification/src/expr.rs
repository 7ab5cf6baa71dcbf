use vstd::prelude::*;
use crate::value::{Value, SpecValue, mk_list};
use crate::errors::{Error, SpecError};

verus! {

broadcast use vstd::seq::group_seq_axioms, vstd::std_specs::vec::group_vec_axioms;

/// A parsed form: what the reader produces before evaluation. The two
/// template markers only ever appear inside a backquote template; a marker
/// that survives to this level is a misplaced comma.
#[derive(Debug, PartialEq)]
pub enum Expr {
    Float(u64),
    Integer(i64),
    Boolean(bool),
    String(String),
    Symbol(String),
    Sexpr(Vec<Expr>),
    TemplateExpr(Box<Expr>),
    TemplateListExpr(Box<Expr>),
}

/// Mathematical model of an `Expr`.
pub enum SpecExpr {
    Float(u64),
    Integer(i64),
    Boolean(bool),
    Str(Seq<char>),
    Symbol(Seq<char>),
    Sexpr(Seq<SpecExpr>),
    TemplateExpr(Box<SpecExpr>),
    TemplateListExpr(Box<SpecExpr>),
}

pub open spec fn eviews(s: Seq<Expr>) -> Seq<SpecExpr>
    decreases s,
{
    if s.len() == 0 {
        Seq::empty()
    } else {
        Seq::empty().push(eview(s[0])) + eviews(s.subrange(1, s.len() as int))
    }
}

pub open spec fn eview(e: Expr) -> SpecExpr
    decreases e,
{
    match e {
        Expr::Float(b) => SpecExpr::Float(b),
        Expr::Integer(i) => SpecExpr::Integer(i),
        Expr::Boolean(b) => SpecExpr::Boolean(b),
        Expr::String(s) => SpecExpr::Str(s@),
        Expr::Symbol(s) => SpecExpr::Symbol(s@),
        Expr::Sexpr(es) => SpecExpr::Sexpr(eviews(es@)),
        Expr::TemplateExpr(b) => SpecExpr::TemplateExpr(Box::new(eview(*b))),
        Expr::TemplateListExpr(b) => SpecExpr::TemplateListExpr(Box::new(eview(*b))),
    }
}

impl View for Expr {
    type V = SpecExpr;

    open spec fn view(&self) -> SpecExpr {
        eview(*self)
    }
}

impl DeepView for Expr {
    type V = SpecExpr;

    open spec fn deep_view(&self) -> SpecExpr {
        eview(*self)
    }
}

/// Elementwise reading of `eviews`.
pub proof fn lemma_eviews(s: Seq<Expr>)
    ensures
        eviews(s).len() == s.len(),
        forall|i: int| 0 <= i < s.len() ==> #[trigger] eviews(s)[i] == eview(s[i]),
    decreases s.len(),
{
    if s.len() > 0 {
        lemma_eviews(s.subrange(1, s.len() as int));
        assert(forall|i: int| 1 <= i < s.len() ==> s.subrange(1, s.len() as int)[i - 1] == s[i]);
    }
}

/// No template marker stands anywhere in the form: the form can be turned
/// into a plain value.
pub open spec fn no_markers(e: SpecExpr) -> bool
    decreases e,
{
    match e {
        SpecExpr::TemplateExpr(_) => false,
        SpecExpr::TemplateListExpr(_) => false,
        SpecExpr::Sexpr(es) => forall|i: int| 0 <= i < es.len() ==> no_markers(#[trigger] es[i]),
        _ => true,
    }
}

/// The value a marker-free form denotes, with a list form becoming a proper
/// list.
pub open spec fn spec_into_value(e: SpecExpr) -> SpecValue
    decreases e,
{
    match e {
        SpecExpr::Float(b) => SpecValue::Float(b),
        SpecExpr::Integer(i) => SpecValue::Integer(i),
        SpecExpr::Boolean(b) => SpecValue::Boolean(b),
        SpecExpr::Str(s) => SpecValue::Str(s),
        SpecExpr::Symbol(s) => SpecValue::Symbol(s),
        SpecExpr::Sexpr(es) => mk_list(into_values(es)),
        SpecExpr::TemplateExpr(_) => SpecValue::Nil,
        SpecExpr::TemplateListExpr(_) => SpecValue::Nil,
    }
}

pub open spec fn into_values(s: Seq<SpecExpr>) -> Seq<SpecValue>
    decreases s,
{
    if s.len() == 0 {
        Seq::empty()
    } else {
        Seq::empty().push(spec_into_value(s[0])) + into_values(s.subrange(1, s.len() as int))
    }
}

/// What the template compiler produces for one form: a bare symbol is
/// quoted; a list becomes an `append` of one-element `list` calls, an
/// unquote-splice child spliced in unwrapped, closed by `nil`; an unquote
/// node stands for its embedded expression verbatim; atoms stand for
/// themselves.
pub open spec fn spec_template(e: SpecExpr) -> SpecExpr
    decreases e, 1nat,
{
    match e {
        SpecExpr::Symbol(s) => SpecExpr::Sexpr(
            seq![SpecExpr::Symbol("quote"@), SpecExpr::Symbol(s)],
        ),
        SpecExpr::Sexpr(children) => SpecExpr::Sexpr(
            Seq::empty().push(SpecExpr::Symbol("append"@)) + template_children(children) + Seq::empty().push(
                SpecExpr::Symbol("nil"@),
            ),
        ),
        SpecExpr::TemplateExpr(inner) => *inner,
        _ => e,
    }
}

pub open spec fn template_children(s: Seq<SpecExpr>) -> Seq<SpecExpr>
    decreases s, 2nat,
{
    if s.len() == 0 {
        Seq::empty()
    } else {
        Seq::empty().push(template_child(s[0])) + template_children(
            s.subrange(1, s.len() as int),
        )
    }
}

pub open spec fn template_child(e: SpecExpr) -> SpecExpr
    decreases e, 2nat,
{
    match e {
        SpecExpr::TemplateListExpr(inner) => *inner,
        _ => SpecExpr::Sexpr(seq![SpecExpr::Symbol("list"@), spec_template(e)]),
    }
}

impl Expr {
    /// The symbol's text, `None` for any other kind of form.
    pub fn as_symbol(self) -> (r: Option<String>)
        ensures
            match r {
                Some(s) => self@ == SpecExpr::Symbol(s@),
                None => !(self@ is Symbol),
            },
    {
        if let Expr::Symbol(sym) = self {
            Some(sym)
        } else {
            None
        }
    }

    /// The children of a list form, `None` otherwise.
    pub fn as_sexpr(self) -> (r: Option<Vec<Expr>>)
        ensures
            match r {
                Some(es) => self@ == SpecExpr::Sexpr(es.deep_view()),
                None => !(self@ is Sexpr),
            },
    {
        if let Expr::Sexpr(expressions) = self {
            proof {
                lemma_eviews(expressions@);
                assert(expressions.deep_view() =~= eviews(expressions@));
            }
            Some(expressions)
        } else {
            None
        }
    }

    /// The two elements of a two-element list form, `None` otherwise.
    pub fn as_pair(self) -> (r: Option<(Expr, Expr)>)
        ensures
            match r {
                Some(p) => self@ matches SpecExpr::Sexpr(es) && es.len() == 2 && es[0] == p.0@
                    && es[1] == p.1@,
                None => !(self@ matches SpecExpr::Sexpr(es) && es.len() == 2),
            },
    {
        match self {
            Expr::Sexpr(expressions) => {
                proof {
                    lemma_eviews(expressions@);
                }
                if expressions.len() == 2 {
                    let mut it = expressions;
                    let second = it.remove(1);
                    let first = it.remove(0);
                    Some((first, second))
                } else {
                    None
                }
            },
            _ => None,
        }
    }

    /// A two-element list form whose head is a symbol, as (text, form).
    pub fn as_symbol_value_pair(self) -> (r: Option<(String, Expr)>)
        ensures
            match r {
                Some(p) => self@ matches SpecExpr::Sexpr(es) && es.len() == 2 && es[0]
                    == SpecExpr::Symbol(p.0@) && es[1] == p.1@,
                None => !(self@ matches SpecExpr::Sexpr(es) && es.len() == 2 && es[0] is Symbol),
            },
    {
        match self.as_pair() {
            Some((left, right)) => match left.as_symbol() {
                Some(symbol) => Some((symbol, right)),
                None => None,
            },
            None => None,
        }
    }

    /// The string's text, `None` for any other kind of form.
    pub fn as_string(self) -> (r: Option<String>)
        ensures
            match r {
                Some(s) => self@ == SpecExpr::Str(s@),
                None => !(self@ is Str),
            },
    {
        if let Expr::String(s) = self {
            Some(s)
        } else {
            None
        }
    }

    /// The value a form denotes. Only marker-free forms may be handed in: a
    /// comma outside a backquote is rejected by the reader before this point.
    pub fn into_value(self) -> (r: Value)
        requires
            no_markers(self@),
        ensures
            r@ == spec_into_value(self@),
        decreases self,
    {
        match self {
            Expr::Integer(i) => Value::Integer(i),
            Expr::Float(f) => Value::Float(f),
            Expr::Boolean(b) => Value::Boolean(b),
            Expr::String(s) => Value::String(s),
            Expr::Symbol(sym) => Value::Symbol(sym),
            Expr::Sexpr(exprs) => {
                let ghost gvec = exprs;
                let ghost orig = exprs@;
                let ghost es = eviews(exprs@);
                proof {
                    lemma_eviews(exprs@);
                    lemma_into_values(es);
                }
                let n = exprs.len();
                let mut vals: Vec<Value> = Vec::new();
                let mut i: usize = 0;
                // Consume the children front to back.
                let mut rest = exprs;
                proof {
                    assert(rest@ =~= orig.subrange(i as int, n as int));
                }
                while i < n
                    invariant
                        es.len() == n,
                        orig.len() == n,
                        es == eviews(orig),
                        i <= n,
                        rest@ =~= orig.subrange(i as int, n as int),
                        self == Expr::Sexpr(gvec),
                        gvec@ == orig,
                        forall|j: int| 0 <= j < es.len() ==> no_markers(#[trigger] es[j]),
                        forall|j: int| 0 <= j < es.len() ==> #[trigger] es[j] == eview(orig[j]),
                        vals.deep_view() =~= into_values(es).subrange(0, i as int),
                    decreases n - i,
                {
                    let ghost prevv = vals.deep_view();
                    let e = rest.remove(0);
                    proof {
                        lemma_into_values(es);
                        assert(e == orig[i as int]);
                        assert(rest@ =~= orig.subrange(i + 1, n as int));
                        assert(decreases_to!(gvec => orig));
                        assert(decreases_to!(orig => e));
                        assert(self->Sexpr_0 == gvec);
                        assert(decreases_to!(self => self->Sexpr_0));
                    }
                    let v = e.into_value();
                    vals.push(v);
                    proof {
                        assert(vals.deep_view() =~= prevv.push(spec_into_value(es[i as int])));
                        assert(into_values(es).subrange(0, i + 1) =~= into_values(es).subrange(
                            0,
                            i as int,
                        ).push(into_values(es)[i as int]));
                    }
                    i = i + 1;
                }
                proof {
                    assert(vals.deep_view() =~= into_values(es));
                }
                Value::list(vals)
            },
            Expr::TemplateExpr(_) => vstd::pervasive::unreached(),
            Expr::TemplateListExpr(_) => vstd::pervasive::unreached(),
        }
    }

    /// A `progn` form wrapping the given forms.
    pub fn progn(expressions: Vec<Expr>) -> (r: Expr)
        ensures
            r@ == SpecExpr::Sexpr(
                Seq::empty().push(SpecExpr::Symbol("progn"@)) + expressions.deep_view(),
            ),
    {
        let mut sexpr: Vec<Expr> = Vec::new();
        sexpr.push(Expr::Symbol(String::from_str("progn")));
        let ghost exprviews = expressions.deep_view();
        let ghost orig = expressions@;
        let n = expressions.len();
        let mut rest = expressions;
        let mut i: usize = 0;
        proof {
            lemma_eviews(orig);
            assert(rest@ =~= orig.subrange(0, n as int));
        }
        while i < n
            invariant
                exprviews.len() == n,
                orig.len() == n,
                i <= n,
                rest@ =~= orig.subrange(i as int, n as int),
                forall|j: int| 0 <= j < n ==> #[trigger] exprviews[j] == eview(orig[j]),
                sexpr.deep_view() =~= Seq::empty().push(SpecExpr::Symbol("progn"@))
                    + exprviews.subrange(0, i as int),
            decreases n - i,
        {
            let ghost prevs = sexpr.deep_view();
            let e = rest.remove(0);
            proof {
                assert(e == orig[i as int]);
                assert(rest@ =~= orig.subrange(i + 1, n as int));
            }
            sexpr.push(e);
            proof {
                assert(sexpr.deep_view() =~= prevs.push(exprviews[i as int]));
                assert(Seq::empty().push(SpecExpr::Symbol("progn"@)) + exprviews.subrange(
                    0,
                    i + 1,
                ) =~= (Seq::empty().push(SpecExpr::Symbol("progn"@)) + exprviews.subrange(
                    0,
                    i as int,
                )).push(exprviews[i as int]));
            }
            i = i + 1;
        }
        proof {
            assert(exprviews.subrange(0, n as int) =~= exprviews);
            lemma_eviews(sexpr@);
            assert(sexpr.deep_view() =~= eviews(sexpr@));
        }
        Expr::Sexpr(sexpr)
    }

    /// A `quote` form wrapping the given form.
    pub fn quote(expr: Expr) -> (r: Expr)
        ensures
            r@ == SpecExpr::Sexpr(seq![SpecExpr::Symbol("quote"@), expr@]),
    {
        let ghost ev = eview(expr);
        let mut sexpr: Vec<Expr> = Vec::new();
        sexpr.push(Expr::Symbol(String::from_str("quote")));
        sexpr.push(expr);
        proof {
            lemma_eviews(sexpr@);
            assert(eviews(sexpr@) =~= seq![SpecExpr::Symbol("quote"@), ev]);
        }
        Expr::Sexpr(sexpr)
    }

    /// The quasiquote compiler over forms, as `spec_template` states it. An
    /// unquote-splice node may not stand as the whole template.
    pub fn template(expr: Expr) -> (r: Expr)
        requires
            !(expr@ is TemplateListExpr),
        ensures
            r@ == spec_template(expr@),
        decreases expr,
    {
        match expr {
            Expr::Symbol(s) => Expr::quote(Expr::Symbol(s)),
            Expr::Sexpr(children) => {
                let ghost cs = eviews(children@);
                proof {
                    lemma_eviews(children@);
                    lemma_template_children(cs);
                }
                let mut sexpr: Vec<Expr> = Vec::new();
                sexpr.push(Expr::symbol("append"));
                let ghost gvec = children;
                let ghost orig = children@;
                let n = children.len();
                let mut rest = children;
                let mut i: usize = 0;
                proof {
                    assert(rest@ =~= orig.subrange(0, n as int));
                }
                while i < n
                    invariant
                        cs.len() == n,
                        orig.len() == n,
                        i <= n,
                        rest@ =~= orig.subrange(i as int, n as int),
                        expr == Expr::Sexpr(gvec),
                        gvec@ == orig,
                        forall|j: int| 0 <= j < n ==> #[trigger] cs[j] == eview(orig[j]),
                        sexpr.deep_view() =~= Seq::empty().push(SpecExpr::Symbol("append"@))
                            + template_children(cs).subrange(0, i as int),
                    decreases n - i,
                {
                    let ghost prevs = sexpr.deep_view();
                    let child = rest.remove(0);
                    proof {
                        lemma_template_children(cs);
                        assert(child == orig[i as int]);
                        assert(rest@ =~= orig.subrange(i + 1, n as int));
                        assert(decreases_to!(gvec => orig));
                        assert(decreases_to!(orig => child));
                        assert(expr->Sexpr_0 == gvec);
                        assert(decreases_to!(expr => expr->Sexpr_0));
                    }
                    let compiled = match child {
                        Expr::TemplateListExpr(e) => *e,
                        other => {
                            proof {
                                lemma_expr_not_list_marker(&other);
                            }
                            let mut wrap: Vec<Expr> = Vec::new();
                            wrap.push(Expr::symbol("list"));
                            wrap.push(Expr::template(other));
                            proof {
                                lemma_eviews(wrap@);
                                assert(eviews(wrap@) =~= seq![
                                    SpecExpr::Symbol("list"@),
                                    spec_template(cs[i as int]),
                                ]);
                            }
                            Expr::Sexpr(wrap)
                        },
                    };
                    sexpr.push(compiled);
                    proof {
                        assert(sexpr.deep_view() =~= prevs.push(template_child(cs[i as int])));
                        assert(template_children(cs).subrange(0, i + 1) =~= template_children(
                            cs,
                        ).subrange(0, i as int).push(template_children(cs)[i as int]));
                    }
                    i = i + 1;
                }
                sexpr.push(Expr::symbol("nil"));
                proof {
                    assert(template_children(cs).subrange(0, n as int) =~= template_children(cs));
                    lemma_eviews(sexpr@);
                    assert(sexpr.deep_view() =~= eviews(sexpr@));
                    assert(eviews(sexpr@) =~= Seq::empty().push(SpecExpr::Symbol("append"@))
                        + template_children(cs) + Seq::empty().push(SpecExpr::Symbol("nil"@)));
                }
                Expr::Sexpr(sexpr)
            },
            Expr::TemplateExpr(e) => *e,
            Expr::TemplateListExpr(_) => vstd::pervasive::unreached(),
            other => other,
        }
    }

    /// A symbol with the given text.
    pub fn symbol(symbol: &str) -> (r: Expr)
        ensures
            r@ == SpecExpr::Symbol(symbol@),
    {
        Expr::Symbol(symbol.to_owned())
    }
}

/// A form and its model are the same kind of node.
proof fn lemma_expr_not_list_marker(e: &Expr)
    ensures
        (eview(*e) is TemplateListExpr <==> *e is TemplateListExpr),
        (eview(*e) is Symbol <==> *e is Symbol),
        (eview(*e) is Sexpr <==> *e is Sexpr),
        (eview(*e) is TemplateExpr <==> *e is TemplateExpr),
{
    match e {
        Expr::Float(_) => {},
        Expr::Integer(_) => {},
        Expr::Boolean(_) => {},
        Expr::String(_) => {},
        Expr::Symbol(_) => {},
        Expr::Sexpr(_) => {},
        Expr::TemplateExpr(_) => {},
        Expr::TemplateListExpr(_) => {},
    }
}

/// Elementwise reading of `into_values`.
pub proof fn lemma_into_values(s: Seq<SpecExpr>)
    ensures
        into_values(s).len() == s.len(),
        forall|i: int| 0 <= i < s.len() ==> #[trigger] into_values(s)[i] == spec_into_value(s[i]),
    decreases s.len(),
{
    if s.len() > 0 {
        lemma_into_values(s.subrange(1, s.len() as int));
        assert(forall|i: int| 1 <= i < s.len() ==> s.subrange(1, s.len() as int)[i - 1] == s[i]);
    }
}

/// Elementwise reading of `template_children`.
pub proof fn lemma_template_children(s: Seq<SpecExpr>)
    ensures
        template_children(s).len() == s.len(),
        forall|i: int|
            0 <= i < s.len() ==> #[trigger] template_children(s)[i] == template_child(s[i]),
    decreases s.len(),
{
    if s.len() > 0 {
        lemma_template_children(s.subrange(1, s.len() as int));
        assert(forall|i: int| 1 <= i < s.len() ==> s.subrange(1, s.len() as int)[i - 1] == s[i]);
    }
}


/// The printed form of a parsed form: atoms as their literal text (strings
/// quoted and escaped), a two-element `quote` form with the `'` shorthand,
/// lists in parentheses, and the template markers with their comma prefixes.
pub open spec fn spec_expr_text(e: SpecExpr) -> Seq<char>
    decreases e, 0nat,
{
    match e {
        SpecExpr::Integer(n) => crate::text::int_text(n as int),
        SpecExpr::Float(b) => crate::floats::float_text_of(b),
        SpecExpr::Boolean(b) => if b {
            "true"@
        } else {
            "false"@
        },
        SpecExpr::Str(s) => crate::text::debug_quoted(s),
        SpecExpr::Symbol(s) => s,
        SpecExpr::Sexpr(es) => if es.len() == 2 && es[0] == SpecExpr::Symbol("quote"@) {
            seq!['\''] + spec_expr_text(es[1])
        } else if es.len() == 0 {
            "()"@
        } else {
            seq!['('] + spec_expr_text(es[0]) + spec_items_text(es.subrange(1, es.len() as int))
                + seq![')']
        },
        SpecExpr::TemplateExpr(inner) => seq![','] + spec_expr_text(*inner),
        SpecExpr::TemplateListExpr(inner) => seq![','] + seq!['@'] + spec_expr_text(*inner),
    }
}

/// The remaining items of a printed list, each after one space.
pub open spec fn spec_items_text(s: Seq<SpecExpr>) -> Seq<char>
    decreases s, 1nat,
{
    if s.len() == 0 {
        Seq::empty()
    } else {
        seq![' '] + spec_expr_text(s[0]) + spec_items_text(s.subrange(1, s.len() as int))
    }
}

impl Expr {
    /// The printed form of the form, as `spec_expr_text` states it.
    pub fn to_text(&self) -> (r: String)
        ensures
            r@ == spec_expr_text(self@),
    {
        let mut out = String::new();
        self.write_text(&mut out);
        out
    }

    fn write_text(&self, out: &mut String)
        ensures
            final(out)@ == old(out)@ + spec_expr_text(self@),
        decreases *self, 0nat,
    {
        match self {
            Expr::Integer(n) => {
                crate::text::push_int(*n, out);
            },
            Expr::Float(b) => {
                let t = crate::floats::float_bits_to_text(*b);
                out.append(t.as_str());
            },
            Expr::Boolean(b) => {
                if *b {
                    out.append("true");
                } else {
                    out.append("false");
                }
            },
            Expr::String(s) => {
                let q = crate::text::debug_quote(s.as_str());
                out.append(q.as_str());
            },
            Expr::Symbol(s) => {
                out.append(s.as_str());
            },
            Expr::TemplateExpr(inner) => {
                out.append(",");
                proof {
                    reveal_strlit(",");
                    assert(","@ =~= seq![',']);
                }
                inner.write_text(out);
                proof {
                    assert((*out)@ =~= old(out)@ + spec_expr_text(eview(*self)));
                }
            },
            Expr::TemplateListExpr(inner) => {
                out.append(",@");
                proof {
                    reveal_strlit(",@");
                    assert(",@"@ =~= seq![','] + seq!['@']);
                }
                inner.write_text(out);
                proof {
                    assert((*out)@ =~= old(out)@ + spec_expr_text(eview(*self)));
                }
            },
            Expr::Sexpr(children) => {
                let ghost cviews = eviews(children@);
                proof {
                    lemma_eviews(children@);
                }
                let mut quoted = false;
                if children.len() == 2 {
                    if let Expr::Symbol(h) = &children[0] {
                        if crate::scope::str_eq(h.as_str(), "quote") {
                            quoted = true;
                        }
                    }
                }
                if quoted {
                    proof {
                        assert(cviews[0] == SpecExpr::Symbol("quote"@));
                    }
                    out.append("'");
                    proof {
                        reveal_strlit("'");
                        assert("'"@ =~= seq!['\'']);
                        assert(decreases_to!(*self => self->Sexpr_0));
                        assert(decreases_to!(self->Sexpr_0 => children@));
                        assert(decreases_to!(children@ => children@[1]));
                    }
                    children[1].write_text(out);
                    proof {
                        assert((*out)@ =~= old(out)@ + spec_expr_text(eview(*self)));
                    }
                } else if children.len() == 0 {
                    out.append("()");
                } else {
                    out.append("(");
                    proof {
                        reveal_strlit("(");
                        assert("("@ =~= seq!['(']);
                        assert(decreases_to!(*self => self->Sexpr_0));
                        assert(decreases_to!(self->Sexpr_0 => children@));
                        assert(decreases_to!(children@ => children@[0]));
                    }
                    children[0].write_text(out);
                    let n = children.len();
                    let mut i: usize = 1;
                    let ghost head = old(out)@ + seq!['('] + spec_expr_text(cviews[0]);
                    proof {
                        assert((*out)@ =~= head);
                        assert(spec_items_text(cviews.subrange(1, 1)) =~= Seq::<char>::empty());
                        assert((*out)@ =~= head + spec_items_text(cviews.subrange(1, 1)));
                    }
                    while i < n
                        invariant
                            1 <= i <= n,
                            n == children@.len(),
                            *self is Sexpr,
                            self->Sexpr_0 == *children,
                            cviews == eviews(children@),
                            cviews.len() == n,
                            forall|j: int|
                                0 <= j < n ==> #[trigger] cviews[j] == eview(children@[j]),
                            (*out)@ =~= head + spec_items_text(cviews.subrange(1, i as int)),
                        decreases n - i,
                    {
                        out.append(" ");
                        proof {
                            reveal_strlit(" ");
                            assert(" "@ =~= seq![' ']);
                            assert(decreases_to!(*self => self->Sexpr_0));
                            assert(decreases_to!(self->Sexpr_0 => children@));
                            assert(decreases_to!(children@ => children@[i as int]));
                        }
                        children[i].write_text(out);
                        proof {
                            lemma_items_text_step(cviews, i as int);
                        }
                        i = i + 1;
                    }
                    out.append(")");
                    proof {
                        reveal_strlit(")");
                        assert(")"@ =~= seq![')']);
                        assert(cviews.subrange(1, n as int) =~= cviews.subrange(1, n as int));
                        assert((*out)@ =~= old(out)@ + spec_expr_text(eview(*self)));
                    }
                }
            },
        }
    }
}

/// Extending the printed items by one appends a space and its text.
proof fn lemma_items_text_step(s: Seq<SpecExpr>, i: int)
    requires
        1 <= i < s.len(),
    ensures
        spec_items_text(s.subrange(1, i + 1)) == spec_items_text(s.subrange(1, i)) + seq![' ']
            + spec_expr_text(s[i]),
{
    assert(s.subrange(1, i + 1) =~= s.subrange(1, i).push(s[i]));
    lemma_items_text_append(s.subrange(1, i), s[i]);
}

proof fn lemma_items_text_append(t: Seq<SpecExpr>, x: SpecExpr)
    ensures
        spec_items_text(t.push(x)) == spec_items_text(t) + seq![' '] + spec_expr_text(x),
    decreases t.len(),
{
    let u = t.push(x);
    if t.len() == 0 {
        assert(u[0] == x);
        assert(u.subrange(1, u.len() as int) =~= Seq::<SpecExpr>::empty());
        assert(spec_items_text(u.subrange(1, u.len() as int)) =~= Seq::<char>::empty());
        assert(spec_items_text(u) == seq![' '] + spec_expr_text(u[0]) + spec_items_text(
            u.subrange(1, u.len() as int),
        ));
        assert(spec_items_text(u) =~= seq![' '] + spec_expr_text(x));
        assert(spec_items_text(t) =~= Seq::<char>::empty());
        assert(spec_items_text(t) + seq![' '] + spec_expr_text(x) =~= seq![' '] + spec_expr_text(
            x,
        ));
    } else {
        assert(u[0] == t[0]);
        assert(u.subrange(1, u.len() as int) =~= t.subrange(1, t.len() as int).push(x));
        lemma_items_text_append(t.subrange(1, t.len() as int), x);
        assert(spec_items_text(u) =~= spec_items_text(t) + seq![' '] + spec_expr_text(x));
    }
}

} // verus!
