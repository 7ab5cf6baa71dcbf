use vstd::prelude::*;
use crate::expr::{Expr, SpecExpr, eviews, lemma_eviews};
use crate::errors::{Error, SpecError};

verus! {

broadcast use vstd::seq::group_seq_axioms, vstd::std_specs::vec::group_vec_axioms;

/// A backquote template as the reader sees it: ordinary nodes, an unquote
/// node, an unquote-splice node, and a nested backquote.
#[derive(Debug, PartialEq)]
pub enum Template {
    Integer(i64),
    Float(u64),
    Boolean(bool),
    String(String),
    Symbol(String),
    Sexpr(Vec<Template>),
    TemplateExpr(Box<Template>),
    TemplateListExpr(Box<Template>),
    Template(Box<Template>),
}

/// Mathematical model of a `Template`.
pub enum SpecTemplate {
    Integer(i64),
    Float(u64),
    Boolean(bool),
    Str(Seq<char>),
    Symbol(Seq<char>),
    Sexpr(Seq<SpecTemplate>),
    TemplateExpr(Box<SpecTemplate>),
    TemplateListExpr(Box<SpecTemplate>),
    Template(Box<SpecTemplate>),
}

pub open spec fn tviews(s: Seq<Template>) -> Seq<SpecTemplate>
    decreases s,
{
    if s.len() == 0 {
        Seq::empty()
    } else {
        Seq::empty().push(tview(s[0])) + tviews(s.subrange(1, s.len() as int))
    }
}

pub open spec fn tview(t: Template) -> SpecTemplate
    decreases t,
{
    match t {
        Template::Integer(i) => SpecTemplate::Integer(i),
        Template::Float(b) => SpecTemplate::Float(b),
        Template::Boolean(b) => SpecTemplate::Boolean(b),
        Template::String(s) => SpecTemplate::Str(s@),
        Template::Symbol(s) => SpecTemplate::Symbol(s@),
        Template::Sexpr(ts) => SpecTemplate::Sexpr(tviews(ts@)),
        Template::TemplateExpr(b) => SpecTemplate::TemplateExpr(Box::new(tview(*b))),
        Template::TemplateListExpr(b) => SpecTemplate::TemplateListExpr(Box::new(tview(*b))),
        Template::Template(b) => SpecTemplate::Template(Box::new(tview(*b))),
    }
}

impl View for Template {
    type V = SpecTemplate;

    open spec fn view(&self) -> SpecTemplate {
        tview(*self)
    }
}

impl DeepView for Template {
    type V = SpecTemplate;

    open spec fn deep_view(&self) -> SpecTemplate {
        tview(*self)
    }
}

/// Elementwise reading of `tviews`.
pub proof fn lemma_tviews(s: Seq<Template>)
    ensures
        tviews(s).len() == s.len(),
        forall|i: int| 0 <= i < s.len() ==> #[trigger] tviews(s)[i] == tview(s[i]),
    decreases s.len(),
{
    if s.len() > 0 {
        lemma_tviews(s.subrange(1, s.len() as int));
        assert(forall|i: int| 1 <= i < s.len() ==> s.subrange(1, s.len() as int)[i - 1] == s[i]);
    }
}

/// The single backquote compilation pass: a bare symbol is quoted, a list
/// becomes an `append` of its compiled children closed by `nil`, an unquote
/// node stands for its embedded template verbatim, a nested backquote is
/// recompiled as a fresh template, and an unquote-splice may not stand as
/// the whole template.
pub open spec fn spec_compile_root(t: SpecTemplate) -> Result<SpecTemplate, SpecError>
    decreases t, 1nat,
{
    match t {
        SpecTemplate::Symbol(s) => Ok(
            SpecTemplate::Sexpr(
                seq![SpecTemplate::Symbol("quote"@), SpecTemplate::Symbol(s)],
            ),
        ),
        SpecTemplate::Sexpr(children) => match spec_compile_children(children) {
            Ok(cs) => Ok(
                SpecTemplate::Sexpr(
                    Seq::empty().push(SpecTemplate::Symbol("append"@)) + cs + Seq::empty().push(
                        SpecTemplate::Symbol("nil"@),
                    ),
                ),
            ),
            Err(e) => Err(e),
        },
        SpecTemplate::TemplateExpr(inner) => Ok(*inner),
        SpecTemplate::TemplateListExpr(_) => Err(
            SpecError::SyntaxError("cannot expand list at top level of template"@),
        ),
        SpecTemplate::Template(inner) => spec_compile_root(*inner),
        _ => Ok(t),
    }
}

pub open spec fn spec_compile_children(s: Seq<SpecTemplate>) -> Result<Seq<SpecTemplate>, SpecError>
    decreases s, 2nat,
{
    if s.len() == 0 {
        Ok(Seq::empty())
    } else {
        match spec_compile_child(s[0]) {
            Ok(c) => match spec_compile_children(s.subrange(1, s.len() as int)) {
                Ok(cs) => Ok(Seq::empty().push(c) + cs),
                Err(e) => Err(e),
            },
            Err(e) => Err(e),
        }
    }
}

pub open spec fn spec_compile_child(t: SpecTemplate) -> Result<SpecTemplate, SpecError>
    decreases t, 2nat,
{
    match t {
        SpecTemplate::TemplateListExpr(inner) => Ok(*inner),
        _ => match spec_compile_root(t) {
            Ok(c) => Ok(SpecTemplate::Sexpr(seq![SpecTemplate::Symbol("list"@), c])),
            Err(e) => Err(e),
        },
    }
}

/// The plain form a fully compiled template denotes: a leftover unquote or
/// unquote-splice is a misplaced comma, and a leftover nested backquote was
/// never compiled.
pub open spec fn spec_convert(t: SpecTemplate) -> Result<SpecExpr, SpecError>
    decreases t,
{
    match t {
        SpecTemplate::Integer(i) => Ok(SpecExpr::Integer(i)),
        SpecTemplate::Float(b) => Ok(SpecExpr::Float(b)),
        SpecTemplate::Boolean(b) => Ok(SpecExpr::Boolean(b)),
        SpecTemplate::Str(s) => Ok(SpecExpr::Str(s)),
        SpecTemplate::Symbol(s) => Ok(SpecExpr::Symbol(s)),
        SpecTemplate::Sexpr(children) => match spec_convert_children(children) {
            Ok(cs) => Ok(SpecExpr::Sexpr(cs)),
            Err(e) => Err(e),
        },
        SpecTemplate::TemplateExpr(_) => Err(
            SpecError::SyntaxError("comma not inside backquote"@),
        ),
        SpecTemplate::TemplateListExpr(_) => Err(
            SpecError::SyntaxError("comma not inside backquote"@),
        ),
        SpecTemplate::Template(_) => Err(
            SpecError::SyntaxError("nested backquote left uncompiled"@),
        ),
    }
}

pub open spec fn spec_convert_children(s: Seq<SpecTemplate>) -> Result<Seq<SpecExpr>, SpecError>
    decreases s,
{
    if s.len() == 0 {
        Ok(Seq::empty())
    } else {
        match spec_convert(s[0]) {
            Ok(c) => match spec_convert_children(s.subrange(1, s.len() as int)) {
                Ok(cs) => Ok(Seq::empty().push(c) + cs),
                Err(e) => Err(e),
            },
            Err(e) => Err(e),
        }
    }
}

/// What compiling a whole backquote template yields: the compilation pass
/// followed by conversion to a plain form.
pub open spec fn spec_compile(t: SpecTemplate) -> Result<SpecExpr, SpecError> {
    match spec_compile_root(t) {
        Ok(c) => spec_convert(c),
        Err(e) => Err(e),
    }
}

impl Template {
    /// Compiles the template to an ordinary form whose evaluation builds the
    /// intended data.
    pub fn compile(self) -> (r: Result<Expr, Error>)
        ensures
            match r {
                Ok(e) => spec_compile(self@) == Ok::<SpecExpr, SpecError>(e@),
                Err(e) => spec_compile(self@) == Err::<SpecExpr, SpecError>(e@),
            },
    {
        match self.compile_root() {
            Ok(c) => c.convert(),
            Err(e) => Err(e),
        }
    }

    /// Converts a compiled template into a plain form, as `spec_convert`
    /// states it.
    pub fn convert(self) -> (r: Result<Expr, Error>)
        ensures
            match r {
                Ok(e) => spec_convert(self@) == Ok::<SpecExpr, SpecError>(e@),
                Err(e) => spec_convert(self@) == Err::<SpecExpr, SpecError>(e@),
            },
        decreases self,
    {
        match self {
            Template::Integer(i) => Ok(Expr::Integer(i)),
            Template::Float(f) => Ok(Expr::Float(f)),
            Template::Boolean(b) => Ok(Expr::Boolean(b)),
            Template::String(s) => Ok(Expr::String(s)),
            Template::Symbol(s) => Ok(Expr::Symbol(s)),
            Template::Sexpr(children) => {
                let ghost gvec = children;
                let ghost orig = children@;
                let ghost cs = tviews(children@);
                proof {
                    lemma_tviews(orig);
                }
                let n = children.len();
                let mut out: Vec<Expr> = Vec::new();
                let mut rest = children;
                let mut i: usize = 0;
                proof {
                    assert(rest@ =~= orig.subrange(0, n as int));
                    assert(out.deep_view() =~= Seq::<SpecExpr>::empty());
                    assert(spec_convert_children(cs.subrange(0, 0)) == Ok::<
                        Seq<SpecExpr>,
                        SpecError,
                    >(Seq::<SpecExpr>::empty()));
                }
                while i < n
                    invariant
                        cs.len() == n,
                        orig.len() == n,
                        cs == tviews(orig),
                        i <= n,
                        rest@ =~= orig.subrange(i as int, n as int),
                        self == Template::Sexpr(gvec),
                        gvec@ == orig,
                        forall|j: int| 0 <= j < n ==> #[trigger] cs[j] == tview(orig[j]),
                        spec_convert_children(cs.subrange(0, i as int)) == Ok::<
                            Seq<SpecExpr>,
                            SpecError,
                        >(out.deep_view()),
                    decreases n - i,
                {
                    let c = rest.remove(0);
                    proof {
                        assert(c == orig[i as int]);
                        assert(rest@ =~= orig.subrange(i + 1, n as int));
                        assert(self->Sexpr_0 == gvec);
                        assert(decreases_to!(self => self->Sexpr_0));
                        assert(decreases_to!(gvec => orig));
                        assert(decreases_to!(orig => c));
                    }
                    let ghost prevo = out.deep_view();
                    match c.convert() {
                        Ok(e) => {
                            out.push(e);
                            proof {
                                lemma_convert_children_step(cs, i as int, prevo);
                                assert(out.deep_view() =~= prevo.push(
                                    spec_convert(cs[i as int])->Ok_0,
                                ));
                            }
                        },
                        Err(e) => {
                            proof {
                                lemma_convert_children_err(cs, i as int);
                            }
                            return Err(e);
                        },
                    }
                    i = i + 1;
                }
                proof {
                    assert(cs.subrange(0, n as int) =~= cs);
                    lemma_eviews(out@);
                    assert(out.deep_view() =~= eviews(out@));
                }
                Ok(Expr::Sexpr(out))
            },
            Template::TemplateExpr(_) => Err(
                Error::SyntaxError(String::from_str("comma not inside backquote")),
            ),
            Template::TemplateListExpr(_) => Err(
                Error::SyntaxError(String::from_str("comma not inside backquote")),
            ),
            Template::Template(_) => Err(
                Error::SyntaxError(String::from_str("nested backquote left uncompiled")),
            ),
        }
    }

    /// The single compilation pass over the template tree, as
    /// `spec_compile_root` states it.
    pub fn compile_root(self) -> (r: Result<Template, Error>)
        ensures
            match r {
                Ok(t) => spec_compile_root(self@) == Ok::<SpecTemplate, SpecError>(t@),
                Err(e) => spec_compile_root(self@) == Err::<SpecTemplate, SpecError>(e@),
            },
        decreases self, 1nat,
    {
        match self {
            Template::Symbol(s) => Ok(Template::quote(Template::Symbol(s))),
            Template::Sexpr(children) => {
                let ghost gvec = children;
                let ghost orig = children@;
                let ghost cs = tviews(children@);
                proof {
                    lemma_tviews(orig);
                }
                let n = children.len();
                let mut sexpr: Vec<Template> = Vec::new();
                sexpr.push(Template::Symbol(String::from_str("append")));
                let mut rest = children;
                let mut i: usize = 0;
                proof {
                    assert(rest@ =~= orig.subrange(0, n as int));
                    assert(spec_compile_children(cs.subrange(0, 0)) == Ok::<
                        Seq<SpecTemplate>,
                        SpecError,
                    >(Seq::<SpecTemplate>::empty()));
                    assert(sexpr.deep_view() =~= Seq::empty().push(SpecTemplate::Symbol("append"@)));
                }
                while i < n
                    invariant
                        cs.len() == n,
                        orig.len() == n,
                        cs == tviews(orig),
                        i <= n,
                        rest@ =~= orig.subrange(i as int, n as int),
                        self == Template::Sexpr(gvec),
                        gvec@ == orig,
                        forall|j: int| 0 <= j < n ==> #[trigger] cs[j] == tview(orig[j]),
                        spec_compile_children(cs.subrange(0, i as int)) matches Ok(done)
                            && sexpr.deep_view() =~= Seq::empty().push(
                            SpecTemplate::Symbol("append"@),
                        ) + done,
                    decreases n - i,
                {
                    let c = rest.remove(0);
                    proof {
                        assert(c == orig[i as int]);
                        assert(rest@ =~= orig.subrange(i + 1, n as int));
                        assert(self->Sexpr_0 == gvec);
                        assert(decreases_to!(self => self->Sexpr_0));
                        assert(decreases_to!(gvec => orig));
                        assert(decreases_to!(orig => c));
                    }
                    let ghost prevs = sexpr.deep_view();
                    match c.compile_in_sexpr() {
                        Ok(e) => {
                            sexpr.push(e);
                            proof {
                                lemma_compile_children_step(cs, i as int);
                                assert(sexpr.deep_view() =~= prevs.push(
                                    spec_compile_child(cs[i as int])->Ok_0,
                                ));
                            }
                        },
                        Err(e) => {
                            proof {
                                lemma_compile_children_err(cs, i as int);
                            }
                            return Err(e);
                        },
                    }
                    i = i + 1;
                }
                sexpr.push(Template::Symbol(String::from_str("nil")));
                proof {
                    assert(cs.subrange(0, n as int) =~= cs);
                    let done = spec_compile_children(cs)->Ok_0;
                    assert(sexpr.deep_view() =~= Seq::empty().push(
                        SpecTemplate::Symbol("append"@),
                    ) + done + Seq::empty().push(SpecTemplate::Symbol("nil"@)));
                    lemma_tviews(sexpr@);
                    assert(sexpr.deep_view() =~= tviews(sexpr@));
                }
                Ok(Template::Sexpr(sexpr))
            },
            Template::TemplateExpr(e) => Ok(*e),
            Template::TemplateListExpr(_) => Err(
                Error::SyntaxError(String::from_str("cannot expand list at top level of template")),
            ),
            Template::Template(e) => {
                proof {
                    assert(decreases_to!(self => self->Template_0));
                }
                (*e).compile_root()
            },
            other => Ok(other),
        }
    }

    /// Compiles one child of a list template: an unquote-splice child is
    /// spliced in unwrapped; any other child is wrapped in a one-element
    /// `list` call.
    fn compile_in_sexpr(self) -> (r: Result<Template, Error>)
        ensures
            match r {
                Ok(t) => spec_compile_child(self@) == Ok::<SpecTemplate, SpecError>(t@),
                Err(e) => spec_compile_child(self@) == Err::<SpecTemplate, SpecError>(e@),
            },
        decreases self, 2nat,
    {
        match self {
            Template::TemplateListExpr(e) => Ok(*e),
            other => {
                let ghost o = other@;
                match other.compile_root() {
                    Ok(c) => {
                        let mut wrap: Vec<Template> = Vec::new();
                        wrap.push(Template::Symbol(String::from_str("list")));
                        wrap.push(c);
                        proof {
                            lemma_tviews(wrap@);
                            assert(tviews(wrap@) =~= seq![
                                SpecTemplate::Symbol("list"@),
                                spec_compile_root(o)->Ok_0,
                            ]);
                        }
                        Ok(Template::Sexpr(wrap))
                    },
                    Err(e) => Err(e),
                }
            },
        }
    }

    /// A `quote` form wrapping the given template.
    pub fn quote(expr: Template) -> (r: Template)
        ensures
            r@ == SpecTemplate::Sexpr(seq![SpecTemplate::Symbol("quote"@), expr@]),
    {
        let ghost ev = tview(expr);
        let mut sexpr: Vec<Template> = Vec::new();
        sexpr.push(Template::Symbol(String::from_str("quote")));
        sexpr.push(expr);
        proof {
            lemma_tviews(sexpr@);
            assert(tviews(sexpr@) =~= seq![SpecTemplate::Symbol("quote"@), ev]);
        }
        Template::Sexpr(sexpr)
    }
}

proof fn lemma_convert_children_step(cs: Seq<SpecTemplate>, i: int, prev: Seq<SpecExpr>)
    requires
        0 <= i < cs.len(),
        spec_convert_children(cs.subrange(0, i)) == Ok::<Seq<SpecExpr>, SpecError>(prev),
        spec_convert(cs[i]) is Ok,
    ensures
        spec_convert_children(cs.subrange(0, i + 1)) == Ok::<Seq<SpecExpr>, SpecError>(
            prev.push(spec_convert(cs[i])->Ok_0),
        ),
{
    lemma_convert_children_append(cs.subrange(0, i), cs[i]);
    assert(cs.subrange(0, i).push(cs[i]) =~= cs.subrange(0, i + 1));
}

/// Converting a sequence extended by one convertible element appends its
/// conversion.
proof fn lemma_convert_children_append(s: Seq<SpecTemplate>, x: SpecTemplate)
    requires
        spec_convert_children(s) is Ok,
        spec_convert(x) is Ok,
    ensures
        spec_convert_children(s.push(x)) == Ok::<Seq<SpecExpr>, SpecError>(
            spec_convert_children(s)->Ok_0.push(spec_convert(x)->Ok_0),
        ),
    decreases s.len(),
{
    let t = s.push(x);
    if s.len() == 0 {
        assert(t.subrange(1, t.len() as int) =~= Seq::<SpecTemplate>::empty());
        assert(t[0] == x);
        assert(spec_convert_children(t) == Ok::<Seq<SpecExpr>, SpecError>(
            Seq::empty().push(spec_convert(x)->Ok_0) + Seq::empty(),
        ));
        assert(Seq::empty().push(spec_convert(x)->Ok_0) + Seq::<SpecExpr>::empty()
            =~= spec_convert_children(s)->Ok_0.push(spec_convert(x)->Ok_0));
    } else {
        assert(s.subrange(1, s.len() as int).push(x) =~= t.subrange(1, t.len() as int));
        lemma_convert_children_append(s.subrange(1, s.len() as int), x);
        assert(t[0] == s[0]);
        let head = spec_convert(s[0])->Ok_0;
        let tail0 = spec_convert_children(s.subrange(1, s.len() as int))->Ok_0;
        assert(spec_convert_children(s)->Ok_0 =~= Seq::empty().push(head) + tail0);
        assert(spec_convert_children(t)->Ok_0 =~= Seq::empty().push(head) + tail0.push(
            spec_convert(x)->Ok_0,
        ));
        assert(Seq::empty().push(head) + tail0.push(spec_convert(x)->Ok_0)
            =~= (Seq::empty().push(head) + tail0).push(spec_convert(x)->Ok_0));
    }
}

proof fn lemma_convert_children_err(cs: Seq<SpecTemplate>, i: int)
    requires
        0 <= i < cs.len(),
        spec_convert_children(cs.subrange(0, i)) is Ok,
        spec_convert(cs[i]) is Err,
    ensures
        spec_convert_children(cs) == Err::<Seq<SpecExpr>, SpecError>(
            spec_convert(cs[i])->Err_0,
        ),
{
    lemma_convert_children_first_err(cs, i);
}

proof fn lemma_convert_children_first_err(cs: Seq<SpecTemplate>, i: int)
    requires
        0 <= i < cs.len(),
        spec_convert_children(cs.subrange(0, i)) is Ok,
        spec_convert(cs[i]) is Err,
    ensures
        spec_convert_children(cs) == Err::<Seq<SpecExpr>, SpecError>(
            spec_convert(cs[i])->Err_0,
        ),
    decreases cs.len(),
{
    if i == 0 {
        assert(spec_convert(cs[0]) is Err);
    } else {
        let tail = cs.subrange(1, cs.len() as int);
        assert(cs.subrange(0, i)[0] == cs[0]);
        assert(spec_convert(cs[0]) is Ok) by {
            assert(spec_convert_children(cs.subrange(0, i)) is Ok);
        }
        assert(cs.subrange(0, i).subrange(1, i) =~= tail.subrange(0, i - 1));
        assert(spec_convert_children(tail.subrange(0, i - 1)) is Ok) by {
            assert(spec_convert_children(cs.subrange(0, i)) is Ok);
        }
        assert(tail[i - 1] == cs[i]);
        lemma_convert_children_first_err(tail, i - 1);
    }
}

proof fn lemma_compile_children_step(cs: Seq<SpecTemplate>, i: int)
    requires
        0 <= i < cs.len(),
        spec_compile_children(cs.subrange(0, i)) is Ok,
        spec_compile_child(cs[i]) is Ok,
    ensures
        spec_compile_children(cs.subrange(0, i + 1)) == Ok::<Seq<SpecTemplate>, SpecError>(
            spec_compile_children(cs.subrange(0, i))->Ok_0.push(spec_compile_child(cs[i])->Ok_0),
        ),
{
    lemma_compile_children_append(cs.subrange(0, i), cs[i]);
    assert(cs.subrange(0, i).push(cs[i]) =~= cs.subrange(0, i + 1));
}

proof fn lemma_compile_children_append(s: Seq<SpecTemplate>, x: SpecTemplate)
    requires
        spec_compile_children(s) is Ok,
        spec_compile_child(x) is Ok,
    ensures
        spec_compile_children(s.push(x)) == Ok::<Seq<SpecTemplate>, SpecError>(
            spec_compile_children(s)->Ok_0.push(spec_compile_child(x)->Ok_0),
        ),
    decreases s.len(),
{
    let t = s.push(x);
    if s.len() == 0 {
        assert(t.subrange(1, t.len() as int) =~= Seq::<SpecTemplate>::empty());
        assert(t[0] == x);
        assert(Seq::empty().push(spec_compile_child(x)->Ok_0) + Seq::<SpecTemplate>::empty()
            =~= spec_compile_children(s)->Ok_0.push(spec_compile_child(x)->Ok_0));
    } else {
        assert(s.subrange(1, s.len() as int).push(x) =~= t.subrange(1, t.len() as int));
        lemma_compile_children_append(s.subrange(1, s.len() as int), x);
        assert(t[0] == s[0]);
        let head = spec_compile_child(s[0])->Ok_0;
        let tail0 = spec_compile_children(s.subrange(1, s.len() as int))->Ok_0;
        assert(spec_compile_children(s)->Ok_0 =~= Seq::empty().push(head) + tail0);
        assert(spec_compile_children(t)->Ok_0 =~= Seq::empty().push(head) + tail0.push(
            spec_compile_child(x)->Ok_0,
        ));
        assert(Seq::empty().push(head) + tail0.push(spec_compile_child(x)->Ok_0)
            =~= (Seq::empty().push(head) + tail0).push(spec_compile_child(x)->Ok_0));
    }
}

proof fn lemma_compile_children_err(cs: Seq<SpecTemplate>, i: int)
    requires
        0 <= i < cs.len(),
        spec_compile_children(cs.subrange(0, i)) is Ok,
        spec_compile_child(cs[i]) is Err,
    ensures
        spec_compile_children(cs) == Err::<Seq<SpecTemplate>, SpecError>(
            spec_compile_child(cs[i])->Err_0,
        ),
    decreases cs.len(),
{
    if i == 0 {
    } else {
        let tail = cs.subrange(1, cs.len() as int);
        assert(cs.subrange(0, i)[0] == cs[0]);
        assert(spec_compile_child(cs[0]) is Ok) by {
            assert(spec_compile_children(cs.subrange(0, i)) is Ok);
        }
        assert(cs.subrange(0, i).subrange(1, i) =~= tail.subrange(0, i - 1));
        assert(spec_compile_children(tail.subrange(0, i - 1)) is Ok) by {
            assert(spec_compile_children(cs.subrange(0, i)) is Ok);
        }
        assert(tail[i - 1] == cs[i]);
        lemma_compile_children_err(tail, i - 1);
    }
}

} // verus!
