use vstd::prelude::*;
use std::rc::Rc;
use itertools::Itertools;
use crate::value::{Value, SpecValue, vsize, vview};
use crate::errors::{Error, SpecError};
use crate::scope::Scope;

verus! {

broadcast use vstd::seq::group_seq_axioms, vstd::std_specs::vec::group_vec_axioms;

/// A compiled parameter plan: the classification of a parameter-spec form
/// into required, optional (with default expressions), keyword (with optional
/// default expressions) and at most one rest parameter.
#[derive(Debug, PartialEq)]
pub struct Params {
    pub required: Vec<String>,
    pub optional: Vec<(String, Rc<Value>)>,
    pub keyword: Vec<(String, Option<Rc<Value>>)>,
    pub rest: Option<String>,
}

/// Mathematical model of a parameter plan.
#[verifier::ext_equal]
pub struct SpecParams {
    pub required: Seq<Seq<char>>,
    pub optional: Seq<(Seq<char>, SpecValue)>,
    pub keyword: Seq<(Seq<char>, Option<SpecValue>)>,
    pub rest: Option<Seq<char>>,
}

/// Views of the optional parameters: each name with its default expression.
pub open spec fn opt_views(s: Seq<(String, Rc<Value>)>) -> Seq<(Seq<char>, SpecValue)>
    decreases s,
{
    if s.len() == 0 {
        Seq::empty()
    } else {
        Seq::empty().push((s[0].0@, vview(*s[0].1))) + opt_views(s.subrange(1, s.len() as int))
    }
}

/// Views of the keyword parameters: each name with its optional default.
pub open spec fn kw_views(s: Seq<(String, Option<Rc<Value>>)>) -> Seq<
    (Seq<char>, Option<SpecValue>),
>
    decreases s,
{
    if s.len() == 0 {
        Seq::empty()
    } else {
        Seq::empty().push(
            (
                s[0].0@,
                match s[0].1 {
                    Some(d) => Some(vview(*d)),
                    None => None,
                },
            ),
        ) + kw_views(s.subrange(1, s.len() as int))
    }
}

pub open spec fn pview(p: Params) -> SpecParams
    decreases p,
{
    SpecParams {
        required: p.required.deep_view(),
        optional: opt_views(p.optional@),
        keyword: kw_views(p.keyword@),
        rest: p.rest.deep_view(),
    }
}

impl View for Params {
    type V = SpecParams;

    open spec fn view(&self) -> SpecParams {
        pview(*self)
    }
}

impl DeepView for Params {
    type V = SpecParams;

    open spec fn deep_view(&self) -> SpecParams {
        pview(*self)
    }
}

/// Sum of the sizes of the optional parameters' default expressions.
pub open spec fn optdefs_size(s: Seq<(Seq<char>, SpecValue)>) -> nat
    decreases s,
{
    if s.len() == 0 {
        0
    } else {
        vsize(s[0].1) + optdefs_size(s.subrange(1, s.len() as int))
    }
}

/// Sum of the sizes of the keyword parameters' default expressions.
pub open spec fn kwdefs_size(s: Seq<(Seq<char>, Option<SpecValue>)>) -> nat
    decreases s,
{
    if s.len() == 0 {
        0
    } else {
        (match s[0].1 {
            Some(d) => vsize(d),
            None => 0,
        }) + kwdefs_size(s.subrange(1, s.len() as int))
    }
}

/// Elementwise reading of `opt_views`.
pub proof fn lemma_opt_views(s: Seq<(String, Rc<Value>)>)
    ensures
        opt_views(s).len() == s.len(),
        forall|i: int|
            0 <= i < s.len() ==> #[trigger] opt_views(s)[i] == (s[i].0@, vview(*s[i].1)),
    decreases s.len(),
{
    if s.len() > 0 {
        lemma_opt_views(s.subrange(1, s.len() as int));
        assert(forall|i: int|
            1 <= i < s.len() ==> s.subrange(1, s.len() as int)[i - 1] == s[i]);
    }
}

/// Elementwise reading of `kw_views`.
pub proof fn lemma_kw_views(s: Seq<(String, Option<Rc<Value>>)>)
    ensures
        kw_views(s).len() == s.len(),
        forall|i: int|
            0 <= i < s.len() ==> #[trigger] kw_views(s)[i] == (
                s[i].0@,
                match s[i].1 {
                    Some(d) => Some(vview(*d)),
                    None => None,
                },
            ),
    decreases s.len(),
{
    if s.len() > 0 {
        lemma_kw_views(s.subrange(1, s.len() as int));
        assert(forall|i: int|
            1 <= i < s.len() ==> s.subrange(1, s.len() as int)[i - 1] == s[i]);
    }
}

/// Structural size of a parameter plan: larger than any default expression
/// in it, so that evaluating a default is measurably smaller work.
pub open spec fn psize(p: SpecParams) -> nat
    decreases p,
{
    1 + optdefs_size(p.optional) + kwdefs_size(p.keyword)
}


/// An empty plan, the state the classification starts from.
pub open spec fn empty_params() -> SpecParams {
    SpecParams { required: Seq::empty(), optional: Seq::empty(), keyword: Seq::empty(), rest: None }
}

/// A parameter-spec entry read as (name, optional default): either a bare
/// symbol or a two-element list of a symbol and an expression.
pub open spec fn entry_of(v: SpecValue) -> Option<(Seq<char>, Option<SpecValue>)> {
    match v {
        SpecValue::Symbol(s) => Some((s, None)),
        _ => match crate::value::spec_symbol_pair(v) {
            Some(p) => Some((p.0, Some(p.1))),
            None => None,
        },
    }
}

/// A name that declares a keyword parameter.
pub open spec fn is_kw_name(s: Seq<char>) -> bool {
    s.len() > 0 && s[0] == ':'
}

/// A name that declares the rest parameter.
pub open spec fn is_rest_name(s: Seq<char>) -> bool {
    s.len() >= 3 && s.subrange(0, 3) == "..."@
}

/// Sets a keyword parameter: replaces the first entry of that name, or adds
/// one at the end.
pub open spec fn kw_set(
    s: Seq<(Seq<char>, Option<SpecValue>)>,
    k: Seq<char>,
    d: Option<SpecValue>,
) -> Seq<(Seq<char>, Option<SpecValue>)>
    decreases s.len(),
{
    if s.len() == 0 {
        seq![(k, d)]
    } else if s[0].0 == k {
        seq![(k, d)] + s.subrange(1, s.len() as int)
    } else {
        seq![s[0]] + kw_set(s.subrange(1, s.len() as int), k, d)
    }
}

/// One step of the classification: how a single entry extends the plan, or
/// which declaration error it raises. The ordering required* optional* rest?
/// keyword* is enforced here.
pub open spec fn spec_parse_step(acc: SpecParams, v: SpecValue) -> Result<SpecParams, SpecError> {
    match entry_of(v) {
        None => Err(
            SpecError::ParameterSpecError("expected a parameter or a parameter and default value"@),
        ),
        Some((name, dflt)) => {
            if is_kw_name(name) {
                Ok(
                    SpecParams {
                        keyword: kw_set(acc.keyword, name.subrange(1, name.len() as int), dflt),
                        ..acc
                    },
                )
            } else if acc.keyword.len() > 0 {
                Err(
                    SpecError::ParameterSpecError(
                        "keyword parameters must be defined after positional parameters"@,
                    ),
                )
            } else if is_rest_name(name) {
                if acc.rest is Some {
                    Err(SpecError::ParameterSpecError("only one rest parameter may be defined"@))
                } else {
                    Ok(SpecParams { rest: Some(name.subrange(3, name.len() as int)), ..acc })
                }
            } else if acc.rest is Some {
                Err(
                    SpecError::ParameterSpecError(
                        "the rest parameter must be at the end of positional parameters"@,
                    ),
                )
            } else {
                match dflt {
                    Some(d) => Ok(SpecParams { optional: acc.optional.push((name, d)), ..acc }),
                    None => {
                        if acc.optional.len() > 0 {
                            Err(
                                SpecError::ParameterSpecError(
                                    "required parameters must be defined before optional parameters"@,
                                ),
                            )
                        } else {
                            Ok(SpecParams { required: acc.required.push(name), ..acc })
                        }
                    },
                }
            }
        },
    }
}

/// The classification of a whole entry sequence, from a given state.
pub open spec fn spec_parse_entries(acc: SpecParams, entries: Seq<SpecValue>) -> Result<
    SpecParams,
    SpecError,
>
    decreases entries.len(),
{
    if entries.len() == 0 {
        Ok(acc)
    } else {
        match spec_parse_step(acc, entries[0]) {
            Ok(acc2) => spec_parse_entries(acc2, entries.subrange(1, entries.len() as int)),
            Err(e) => Err(e),
        }
    }
}

/// What `Params::parse` returns on a parameter-spec form: the compiled plan,
/// or the first declaration error; a form that is no proper list is itself an
/// error.
pub open spec fn spec_params_of(v: SpecValue) -> Result<SpecParams, SpecError> {
    match crate::value::list_elems(v) {
        Some(es) => spec_parse_entries(empty_params(), es),
        None => Err(SpecError::ParameterSpecError("expected parameter list"@)),
    }
}

impl Params {
    /// Compiles a parameter-spec form into a plan, exactly as
    /// `spec_params_of` states it.
    pub fn parse(sexpr: &Value) -> (r: Result<Params, Error>)
        ensures
            match r {
                Ok(p) => spec_params_of(sexpr@) == Ok::<SpecParams, SpecError>(p@),
                Err(e) => spec_params_of(sexpr@) == Err::<SpecParams, SpecError>(e@),
            },
    {
        let entries = match sexpr.as_list() {
            Some(es) => es,
            None => {
                return Err(Error::ParameterSpecError(String::from_str("expected parameter list")));
            },
        };
        let ghost all = entries.deep_view();
        let n = entries.len();
        let mut acc = Params {
            required: Vec::new(),
            optional: Vec::new(),
            keyword: Vec::new(),
            rest: None,
        };
        proof {
            lemma_opt_views(acc.optional@);
            lemma_kw_views(acc.keyword@);
            assert(pview(acc) =~= empty_params());
            assert(pview(acc).required =~= empty_params().required);
            assert(pview(acc).optional =~= empty_params().optional);
            assert(pview(acc).keyword =~= empty_params().keyword);
            assert(all.subrange(0, n as int) =~= all);
        }
        let mut i: usize = 0;
        while i < n
            invariant
                all == entries.deep_view(),
                crate::value::list_elems(sexpr@) == Some(all),
                n == all.len(),
                n == entries@.len(),
                i <= n,
                spec_parse_entries(empty_params(), all) == spec_parse_entries(
                    pview(acc),
                    all.subrange(i as int, n as int),
                ),
            decreases n - i,
        {
            let ghost rest = all.subrange(i as int, n as int);
            proof {
                assert(rest[0] == all[i as int]);
                assert(all[i as int] == vview(*entries@[i as int]));
                assert(rest.subrange(1, rest.len() as int) =~= all.subrange(i + 1, n as int));
            }
            let entry = &entries[i];
            match Self::parse_entry(&mut acc, entry) {
                Ok(()) => {},
                Err(e) => {
                    proof {
                        assert(rest.len() > 0);
                        assert(spec_parse_entries(pview(acc), rest) == Err::<SpecParams, SpecError>(
                            e@,
                        ));
                    }
                    return Err(e);
                },
            }
            i = i + 1;
        }
        proof {
            assert(all.subrange(n as int, n as int) =~= Seq::<SpecValue>::empty());
        }
        Ok(acc)
    }

    /// Applies one entry to the plan under construction.
    fn parse_entry(acc: &mut Params, entry: &Value) -> (r: Result<(), Error>)
        ensures
            match r {
                Ok(_) => spec_parse_step(pview(*old(acc)), entry@) == Ok::<SpecParams, SpecError>(
                    pview(*final(acc)),
                ),
                Err(e) => spec_parse_step(pview(*old(acc)), entry@) == Err::<
                    SpecParams,
                    SpecError,
                >(e@) && *final(acc) == *old(acc),
            },
    {
        let (name, dflt): (String, Option<Rc<Value>>) = match entry.as_symbol() {
            Some(sym) => (sym.to_owned(), None),
            None => match entry.as_symbol_value_pair() {
                Some((sym, d)) => (sym.to_owned(), Some(d)),
                None => {
                    proof {
                        crate::value::lemma_vview_kinds(entry);
                    }
                    return Err(
                        Error::ParameterSpecError(
                            String::from_str("expected a parameter or a parameter and default value"),
                        ),
                    );
                },
            },
        };
        let nlen = name.as_str().unicode_len();
        if nlen > 0 && name.as_str().get_char(0) == ':' {
            let key = name.as_str().substring_char(1, nlen).to_owned();
            Self::kw_set_exec(&mut acc.keyword, key, dflt);
            proof {
                assert(pview(*acc).required =~= pview(*old(acc)).required);
                assert(pview(*acc).optional =~= pview(*old(acc)).optional);
            }
            return Ok(());
        }
        if acc.keyword.len() > 0 {
            proof {
                lemma_kw_views(acc.keyword@);
            }
            return Err(
                Error::ParameterSpecError(
                    String::from_str("keyword parameters must be defined after positional parameters"),
                ),
            );
        }
        proof {
            lemma_kw_views(acc.keyword@);
        }
        let is_rest = nlen >= 3 && name.as_str().get_char(0) == '.' && name.as_str().get_char(1)
            == '.' && name.as_str().get_char(2) == '.';
        proof {
            reveal_strlit("...");
            if nlen >= 3 {
                assert("..."@.len() == 3);
                if name@[0] == '.' && name@[1] == '.' && name@[2] == '.' {
                    assert(name@.subrange(0, 3) =~= "..."@);
                }
                if name@.subrange(0, 3) == "..."@ {
                    assert(name@.subrange(0, 3)[0] == '.');
                    assert(name@.subrange(0, 3)[1] == '.');
                    assert(name@.subrange(0, 3)[2] == '.');
                    assert(name@[0] == '.' && name@[1] == '.' && name@[2] == '.');
                }
            }
            assert(is_rest == is_rest_name(name@));
        }
        if is_rest {
            if acc.rest.is_some() {
                return Err(
                    Error::ParameterSpecError(
                        String::from_str("only one rest parameter may be defined"),
                    ),
                );
            }
            let stripped = name.as_str().substring_char(3, nlen).to_owned();
            acc.rest = Some(stripped);
            proof {
                assert(pview(*acc).required =~= pview(*old(acc)).required);
                assert(pview(*acc).optional =~= pview(*old(acc)).optional);
                assert(pview(*acc).keyword =~= pview(*old(acc)).keyword);
            }
            return Ok(());
        }
        if acc.rest.is_some() {
            return Err(
                Error::ParameterSpecError(
                    String::from_str("the rest parameter must be at the end of positional parameters"),
                ),
            );
        }
        match dflt {
            Some(d) => {
                let ghost oldopts = acc.optional@;
                acc.optional.push((name, d));
                proof {
                    lemma_opt_views(oldopts);
                    lemma_opt_views(acc.optional@);
                    assert(pview(*acc).optional =~= pview(*old(acc)).optional.push(
                        (acc.optional@.last().0@, vview(*acc.optional@.last().1)),
                    ));
                    assert(pview(*acc).required =~= pview(*old(acc)).required);
                    assert(pview(*acc).keyword =~= pview(*old(acc)).keyword);
                }
                Ok(())
            },
            None => {
                if acc.optional.len() > 0 {
                    proof {
                        lemma_opt_views(acc.optional@);
                    }
                    return Err(
                        Error::ParameterSpecError(
                            String::from_str("required parameters must be defined before optional parameters"),
                        ),
                    );
                }
                proof {
                    lemma_opt_views(acc.optional@);
                }
                let ghost oldreq = acc.required@;
                acc.required.push(name);
                proof {
                    assert(pview(*acc).required =~= pview(*old(acc)).required.push(
                        acc.required@.last()@,
                    ));
                    assert(pview(*acc).optional =~= pview(*old(acc)).optional);
                    assert(pview(*acc).keyword =~= pview(*old(acc)).keyword);
                }
                Ok(())
            },
        }
    }

    /// Sets a keyword parameter in the plan, as `kw_set` states it.
    fn kw_set_exec(kws: &mut Vec<(String, Option<Rc<Value>>)>, key: String, d: Option<Rc<Value>>)
        ensures
            kw_views(final(kws)@) == kw_set(
                kw_views(old(kws)@),
                key@,
                match d {
                    Some(x) => Some(vview(*x)),
                    None => None,
                },
            ),
    {
        let ghost oldv = kws@;
        let ghost dview = d.deep_view();
        let n = kws.len();
        let mut i: usize = 0;
        let mut hit: Option<usize> = None;
        while i < n
            invariant
                n == kws@.len(),
                kws@ == oldv,
                i <= n,
                hit is None ==> forall|j: int| 0 <= j < i ==> oldv[j].0@ != key@,
                hit is Some ==> i == n,
                match hit {
                    Some(h) => h < n && oldv[h as int].0@ == key@ && (forall|j: int|
                        0 <= j < h ==> oldv[j].0@ != key@),
                    None => true,
                },
            decreases n - i,
        {
            if crate::scope::str_eq(kws[i].0.as_str(), key.as_str()) {
                hit = Some(i);
                i = n;
            } else {
                i = i + 1;
            }
        }
        match hit {
            Some(h) => {
                kws.set(h, (key, d));
                proof {
                    lemma_kw_set_hit(oldv, kws@, key@, dview, h as int);
                }
            },
            None => {
                kws.push((key, d));
                proof {
                    lemma_kw_set_miss(oldv, key@, dview);
                    assert(kws@.drop_last() =~= oldv);
                    lemma_kw_views(kws@);
                    lemma_kw_views(oldv);
                    assert(kw_views(kws@) =~= kw_views(oldv).push((key@, dview)));
                }
            },
        }
    }
}

proof fn lemma_kw_set_hit(
    s: Seq<(String, Option<Rc<Value>>)>,
    t: Seq<(String, Option<Rc<Value>>)>,
    k: Seq<char>,
    d: Option<SpecValue>,
    h: int,
)
    requires
        0 <= h < s.len(),
        t.len() == s.len(),
        s[h].0@ == k,
        forall|j: int| 0 <= j < h ==> s[j].0@ != k,
        t[h].0@ == k,
        (match t[h].1 {
            Some(x) => Some(vview(*x)),
            None => None::<SpecValue>,
        }) == d,
        forall|j: int| 0 <= j < s.len() && j != h ==> t[j] == s[j],
    ensures
        kw_views(t) == kw_set(kw_views(s), k, d),
    decreases s.len(),
{
    lemma_kw_views(s);
    lemma_kw_views(t);
    if h == 0 {
        assert(kw_views(s)[0].0 == k);
        assert(kw_set(kw_views(s), k, d) =~= seq![(k, d)] + kw_views(s).subrange(
            1,
            kw_views(s).len() as int,
        ));
        assert(kw_views(t) =~= seq![(k, d)] + kw_views(s).subrange(1, kw_views(s).len() as int));
    } else {
        lemma_kw_set_hit(
            s.subrange(1, s.len() as int),
            t.subrange(1, t.len() as int),
            k,
            d,
            h - 1,
        );
        lemma_kw_views(s.subrange(1, s.len() as int));
        lemma_kw_views(t.subrange(1, t.len() as int));
        assert(kw_views(s)[0].0 != k);
        assert(kw_views(s).subrange(1, kw_views(s).len() as int) =~= kw_views(
            s.subrange(1, s.len() as int),
        ));
        assert(kw_views(t).subrange(1, kw_views(t).len() as int) =~= kw_views(
            t.subrange(1, t.len() as int),
        ));
        assert(kw_views(t) =~= seq![kw_views(s)[0]] + kw_views(t).subrange(
            1,
            kw_views(t).len() as int,
        ));
        assert(kw_set(kw_views(s), k, d) =~= seq![kw_views(s)[0]] + kw_set(
            kw_views(s.subrange(1, s.len() as int)),
            k,
            d,
        ));
    }
}

proof fn lemma_kw_set_miss(s: Seq<(String, Option<Rc<Value>>)>, k: Seq<char>, d: Option<SpecValue>)
    requires
        forall|j: int| 0 <= j < s.len() ==> s[j].0@ != k,
    ensures
        kw_set(kw_views(s), k, d) == kw_views(s).push((k, d)),
    decreases s.len(),
{
    lemma_kw_views(s);
    if s.len() == 0 {
        assert(kw_set(kw_views(s), k, d) =~= kw_views(s).push((k, d)));
    } else {
        lemma_kw_set_miss(s.subrange(1, s.len() as int), k, d);
        lemma_kw_views(s.subrange(1, s.len() as int));
        assert(kw_views(s)[0].0 != k);
        assert(kw_views(s).subrange(1, kw_views(s).len() as int) =~= kw_views(
            s.subrange(1, s.len() as int),
        ));
        assert(kw_set(kw_views(s), k, d) =~= kw_views(s).push((k, d)));
    }
}


/// The distribution of the supplied arguments over a plan: the values that
/// fill the required then optional positions, the leftover rest values, and
/// the keyword arguments in order of appearance.
#[verifier::ext_equal]
pub struct SpecPass1 {
    pub req: Seq<SpecValue>,
    pub opt: Seq<SpecValue>,
    pub rest: Seq<SpecValue>,
    pub kws: Seq<(Seq<char>, SpecValue)>,
}

pub open spec fn empty_pass1() -> SpecPass1 {
    SpecPass1 { req: Seq::empty(), opt: Seq::empty(), rest: Seq::empty(), kws: Seq::empty() }
}

pub open spec fn kws_contain(s: Seq<(Seq<char>, SpecValue)>, k: Seq<char>) -> bool {
    exists|i: int| 0 <= i < s.len() && (#[trigger] s[i]).0 == k
}

/// The single left-to-right pass over the arguments: once a keyword symbol
/// appears, the rest are strictly keyword/value pairs; before that, values
/// fill required, then optional, then rest positions.
pub open spec fn spec_pass1(p: SpecParams, args: Seq<SpecValue>, acc: SpecPass1) -> Result<
    SpecPass1,
    SpecError,
>
    decreases args.len(),
{
    if args.len() == 0 {
        Ok(acc)
    } else {
        match crate::value::spec_keyword_name(args[0]) {
            Some(k) => {
                if kws_contain(acc.kws, k) {
                    Err(SpecError::DuplicateKeyword(k))
                } else if args.len() < 2 {
                    Err(SpecError::ArityError("keyword argument missing value"@))
                } else {
                    spec_pass1(
                        p,
                        args.subrange(2, args.len() as int),
                        SpecPass1 { kws: acc.kws.push((k, args[1])), ..acc },
                    )
                }
            },
            None => {
                if acc.kws.len() > 0 {
                    Err(SpecError::TypeError("unexpected value after keyword argument"@))
                } else if acc.req.len() < p.required.len() {
                    spec_pass1(
                        p,
                        args.subrange(1, args.len() as int),
                        SpecPass1 { req: acc.req.push(args[0]), ..acc },
                    )
                } else if acc.opt.len() < p.optional.len() {
                    spec_pass1(
                        p,
                        args.subrange(1, args.len() as int),
                        SpecPass1 { opt: acc.opt.push(args[0]), ..acc },
                    )
                } else if p.rest is Some {
                    spec_pass1(
                        p,
                        args.subrange(1, args.len() as int),
                        SpecPass1 { rest: acc.rest.push(args[0]), ..acc },
                    )
                } else {
                    Err(SpecError::ArityError("unexpected additional argument"@))
                }
            },
        }
    }
}

/// How a call's arguments distribute over the plan, before any binding.
pub open spec fn spec_distribute(p: SpecParams, args: Seq<SpecValue>) -> Result<
    SpecPass1,
    SpecError,
> {
    spec_pass1(p, args, empty_pass1())
}

/// The text joined from the given pieces with a separator between them.
pub open spec fn spec_join(s: Seq<Seq<char>>, sep: Seq<char>) -> Seq<char>
    decreases s.len(),
{
    if s.len() == 0 {
        Seq::empty()
    } else if s.len() == 1 {
        s[0]
    } else {
        s[0] + sep + spec_join(s.subrange(1, s.len() as int), sep)
    }
}

/// Relies on itertools::Itertools::join: the pieces concatenated with the
/// separator between consecutive ones.
#[verifier::external_body]
fn join_sep(v: &Vec<String>, sep: &str) -> (r: String)
    ensures
        r@ == spec_join(v.deep_view(), sep@),
{
    v.iter().join(sep)
}

/// Defaults still to be evaluated in step three of `apply`: every optional
/// parameter past the supplied ones, and every declared keyword parameter
/// that was not supplied.
pub open spec fn spec_needs_defaults(p: SpecParams, p1: SpecPass1) -> bool {
    ||| p1.opt.len() < p.optional.len()
    ||| exists|i: int| 0 <= i < p.keyword.len() && !kws_contain(p1.kws, (#[trigger] p.keyword[i]).0)
}

impl Params {
    /// Binds a call's arguments into `frame` under this plan. The
    /// distribution errors and the missing-required-arguments error are
    /// exactly the ones `spec_distribute` and the plan state; past those,
    /// default expressions are evaluated in `frame` (so later defaults see
    /// earlier bindings), the rest parameter is bound to the leftover
    /// values, and every supplied keyword argument, declared or not, is
    /// bound last.
    pub fn apply(&self, sc: &mut Scope, frame: usize, args: Vec<Value>, fuel: u64) -> (r: Result<
        (),
        Error,
    >)
        requires
            old(sc).wf(),
            frame < old(sc).frames@.len(),
        ensures
            final(sc).wf(),
            old(sc).frames@.len() <= final(sc).frames@.len(),
            crate::scope::frames_preserved_except(old(sc)@, final(sc)@, frame as int),
            crate::semantics::returns_unit(
                crate::semantics::spec_apply(
                    old(sc)@,
                    frame as int,
                    pview(*self),
                    args.deep_view(),
                    fuel,
                ),
                final(sc)@,
                r,
            ),
            match spec_distribute(self@, args.deep_view()) {
                Err(e0) => r matches Err(e) && e@ == e0 && final(sc)@ == old(sc)@,
                Ok(p1) => p1.req.len() < self@.required.len() ==> (r matches Err(e) && e@
                    == SpecError::ArityError(
                    "missing required arguments: "@ + spec_join(
                        self@.required.subrange(p1.req.len() as int, self@.required.len() as int),
                        ", "@,
                    ),
                ) && final(sc)@ == old(sc)@),
            },
        decreases fuel, psize(pview(*self)), 2nat,
    {
        let ghost plan = pview(*self);
        let ghost all = args.deep_view();
        proof {
            lemma_opt_views(self.optional@);
            lemma_kw_views(self.keyword@);
        }

        // Pass one: distribute the arguments.
        let mut req_vals: Vec<Value> = Vec::new();
        let mut opt_vals: Vec<Value> = Vec::new();
        let mut rest_vals: Vec<Value> = Vec::new();
        let mut kw_args: Vec<(String, Value)> = Vec::new();
        let ghost acc0 = empty_pass1();
        let n = args.len();
        let mut i: usize = 0;
        proof {
            assert(all.subrange(0, n as int) =~= all);
            assert(req_vals.deep_view() =~= acc0.req);
            assert(opt_vals.deep_view() =~= acc0.opt);
            assert(rest_vals.deep_view() =~= acc0.rest);
            assert(Seq::<(Seq<char>, SpecValue)>::empty() =~= acc0.kws);
            assert(kw_pairs_view(kw_args@) =~= acc0.kws);
        }
        while i < n
            invariant
                all == args.deep_view(),
                plan == pview(*self),
                n == all.len(),
                n == args@.len(),
                i <= n,
                sc.wf(),
                frame < sc.frames@.len(),
                sc@ == old(sc)@,
                sc.frames@.len() == old(sc).frames@.len(),
                spec_distribute(plan, all) == spec_pass1(
                    plan,
                    all.subrange(i as int, n as int),
                    SpecPass1 {
                        req: req_vals.deep_view(),
                        opt: opt_vals.deep_view(),
                        rest: rest_vals.deep_view(),
                        kws: kw_pairs_view(kw_args@),
                    },
                ),
            decreases n - i,
        {
            let ghost rest = all.subrange(i as int, n as int);
            let ghost acc = SpecPass1 {
                req: req_vals.deep_view(),
                opt: opt_vals.deep_view(),
                rest: rest_vals.deep_view(),
                kws: kw_pairs_view(kw_args@),
            };
            proof {
                assert(rest[0] == all[i as int]);
                assert(all[i as int] == args@[i as int]@);
                lemma_kw_pairs_len(kw_args@);
                lemma_opt_views(self.optional@);
                lemma_kw_views(self.keyword@);
                assert(acc.req.len() == req_vals@.len());
                assert(acc.opt.len() == opt_vals@.len());
                assert(acc.kws.len() == kw_args@.len());
                assert(plan.required.len() == self.required@.len());
                assert(plan.optional.len() == self.optional@.len());
                match self.rest {
                    Some(_) => {
                        assert(plan.rest is Some);
                    },
                    None => {
                        assert(plan.rest is None);
                    },
                }
            }
            let arg = &args[i];
            match arg.as_keyword_symbol() {
                Some(k) => {
                    let key = k.to_owned();
                    if kw_contains_exec(&kw_args, key.as_str()) {
                        proof {
                            assert(crate::value::spec_keyword_name(rest[0]) == Some(key@));
                            assert(spec_pass1(plan, rest, acc) == Err::<SpecPass1, SpecError>(
                                SpecError::DuplicateKeyword(key@),
                            ));
                            assert(crate::semantics::spec_apply(old(sc)@, frame as int, plan, all, fuel)
                                == (crate::semantics::Outcome {
                                frames: old(sc)@,
                                result: Err::<(), SpecError>(SpecError::DuplicateKeyword(key@)),
                            }));
                        }
                        return Err(Error::DuplicateKeyword(key));
                    }
                    if i + 1 >= n {
                        proof {
                            assert(rest.len() < 2);
                            assert(spec_pass1(plan, rest, acc) == Err::<SpecPass1, SpecError>(
                                SpecError::ArityError("keyword argument missing value"@),
                            ));
                            assert(crate::semantics::spec_apply(old(sc)@, frame as int, plan, all, fuel)
                                == (crate::semantics::Outcome {
                                frames: old(sc)@,
                                result: Err::<(), SpecError>(
                                    SpecError::ArityError("keyword argument missing value"@),
                                ),
                            }));
                        }
                        return Err(
                            Error::ArityError(String::from_str("keyword argument missing value")),
                        );
                    }
                    proof {
                        assert(rest[1] == all[i + 1]);
                        assert(all[i + 1] == args@[i as int + 1]@);
                    }
                    let ghost oldkws = kw_pairs_view(kw_args@);
                    kw_args.push((key, args[i + 1].clone()));
                    proof {
                        lemma_kw_pairs_push(kw_args@);
                        assert(kw_pairs_view(kw_args@) =~= oldkws.push(
                            (kw_args@.last().0@, vview(kw_args@.last().1)),
                        ));
                        assert(kw_args@.last().0@ == key@);
                        assert(vview(kw_args@.last().1) == all[i + 1]);
                        assert(rest[1] == all[i + 1]);
                        assert(rest.subrange(2, rest.len() as int) =~= all.subrange(
                            i + 2,
                            n as int,
                        ));
                        assert(kw_pairs_view(kw_args@) =~= acc.kws.push((key@, rest[1])));
                    }
                    i = i + 2;
                },
                None => {
                    if kw_args.len() > 0 {
                        proof {
                            lemma_kw_pairs_len(kw_args@);
                            assert(spec_pass1(plan, rest, acc) == Err::<SpecPass1, SpecError>(
                                SpecError::TypeError("unexpected value after keyword argument"@),
                            ));
                            assert(crate::semantics::spec_apply(old(sc)@, frame as int, plan, all, fuel)
                                == (crate::semantics::Outcome {
                                frames: old(sc)@,
                                result: Err::<(), SpecError>(
                                    SpecError::TypeError("unexpected value after keyword argument"@),
                                ),
                            }));
                        }
                        return Err(
                            Error::TypeError(
                                String::from_str("unexpected value after keyword argument"),
                            ),
                        );
                    }
                    proof {
                        lemma_kw_pairs_len(kw_args@);
                        assert(rest.subrange(1, rest.len() as int) =~= all.subrange(
                            i + 1,
                            n as int,
                        ));
                    }
                    if req_vals.len() < self.required.len() {
                        req_vals.push(args[i].clone());
                        proof {
                            assert(req_vals.deep_view() =~= acc.req.push(rest[0]));
                        }
                    } else if opt_vals.len() < self.optional.len() {
                        opt_vals.push(args[i].clone());
                        proof {
                            assert(opt_vals.deep_view() =~= acc.opt.push(rest[0]));
                        }
                    } else if self.rest.is_some() {
                        rest_vals.push(args[i].clone());
                        proof {
                            assert(rest_vals.deep_view() =~= acc.rest.push(rest[0]));
                        }
                    } else {
                        proof {
                            assert(crate::value::spec_keyword_name(rest[0]) is None);
                            assert(spec_pass1(plan, rest, acc) == Err::<SpecPass1, SpecError>(
                                SpecError::ArityError("unexpected additional argument"@),
                            ));
                            assert(crate::semantics::spec_apply(old(sc)@, frame as int, plan, all, fuel)
                                == (crate::semantics::Outcome {
                                frames: old(sc)@,
                                result: Err::<(), SpecError>(
                                    SpecError::ArityError("unexpected additional argument"@),
                                ),
                            }));
                        }
                        return Err(
                            Error::ArityError(String::from_str("unexpected additional argument")),
                        );
                    }
                    i = i + 1;
                },
            }
        }
        proof {
            assert(all.subrange(n as int, n as int) =~= Seq::<SpecValue>::empty());
        }
        let ghost p1 = SpecPass1 {
            req: req_vals.deep_view(),
            opt: opt_vals.deep_view(),
            rest: rest_vals.deep_view(),
            kws: kw_pairs_view(kw_args@),
        };
        proof {
            assert(spec_distribute(plan, all) == Ok::<SpecPass1, SpecError>(p1));
            lemma_pass1_bounds(plan, all, empty_pass1());
            lemma_opt_views(self.optional@);
            assert(req_vals.deep_view().len() == req_vals@.len());
            assert(opt_vals.deep_view().len() == opt_vals@.len());
            assert(plan.required.len() == self.required@.len());
            assert(plan.optional.len() == self.optional@.len());
        }

        // Too few positional arguments: name the missing required parameters.
        if req_vals.len() < self.required.len() {
            let mut missing: Vec<String> = Vec::new();
            let start = req_vals.len();
            let m = self.required.len();
            let mut j: usize = start;
            while j < m
                invariant
                    m == self.required@.len(),
                    start <= j <= m,
                    sc.wf(),
                    sc@ == old(sc)@,
                    sc.frames@.len() == old(sc).frames@.len(),
                    missing.deep_view() =~= self.required.deep_view().subrange(
                        start as int,
                        j as int,
                    ),
                decreases m - j,
            {
                let ghost prevm = missing.deep_view();
                missing.push(self.required[j].clone());
                proof {
                    assert(missing.deep_view() =~= prevm.push(self.required@[j as int]@));
                    assert(self.required.deep_view()[j as int] == self.required@[j as int]@);
                    assert(self.required.deep_view().subrange(start as int, j + 1)
                        =~= self.required.deep_view().subrange(start as int, j as int).push(
                        self.required.deep_view()[j as int],
                    ));
                    assert(missing.deep_view() =~= self.required.deep_view().subrange(
                        start as int,
                        j + 1,
                    ));
                }
                j = j + 1;
            }
            let joined = join_sep(&missing, ", ");
            let msg = String::from_str("missing required arguments: ").concat(joined.as_str());
            proof {
                assert(missing.deep_view() =~= plan.required.subrange(
                    start as int,
                    plan.required.len() as int,
                ));
                assert(crate::semantics::spec_apply(old(sc)@, frame as int, plan, all, fuel)
                    == (crate::semantics::Outcome {
                    frames: old(sc)@,
                    result: Err::<(), SpecError>(SpecError::ArityError(msg@)),
                }));
            }
            return Err(Error::ArityError(msg));
        }

        // Bind required, then supplied optional parameters, in order.
        proof {
            assert(p1.req.len() == plan.required.len());
        }
        let ghost fr0 = sc@;
        let nr = req_vals.len();
        let mut j: usize = 0;
        let mut req_iter: Vec<Value> = req_vals;
        while j < nr
            invariant
                sc.wf(),
                frame < sc.frames@.len(),
                old(sc).frames@.len() <= sc.frames@.len(),
                crate::scope::frames_preserved_except(old(sc)@, sc@, frame as int),
                j <= nr,
                plan == pview(*self),
                fr0 == old(sc)@,
                spec_distribute(pview(*self), args.deep_view()) == Ok::<SpecPass1, SpecError>(
                    p1,
                ),
                p1.req.len() == plan.required.len(),
                p1.req == req_iter.deep_view(),
                nr == p1.req.len(),
                nr == req_iter@.len(),
                nr <= self.required@.len(),
                crate::semantics::bind_names(fr0, frame as int, plan.required, p1.req, 0)
                    == crate::semantics::bind_names(
                    sc@,
                    frame as int,
                    plan.required,
                    p1.req,
                    j as int,
                ),
            decreases nr - j,
        {
            proof {
                assert(plan.required[j as int] == self.required@[j as int]@);
                assert(p1.req[j as int] == req_iter@[j as int]@);
            }
            let ghost scb = sc@;
            let name = self.required[j].clone();
            let v = req_iter[j].clone();
            sc.set_value(frame, name, v);
            proof {
                assert(sc@ == crate::semantics::bind_one(
                    scb,
                    frame as int,
                    plan.required[j as int],
                    p1.req[j as int],
                ));
                assert(crate::semantics::bind_names(scb, frame as int, plan.required, p1.req, j as int)
                    == crate::semantics::bind_names(sc@, frame as int, plan.required, p1.req, j + 1));
            }
            j = j + 1;
        }
        let ghost fr1g = sc@;
        proof {
            assert(fr1g == crate::semantics::bind_names(fr0, frame as int, plan.required, p1.req, 0));
        }
        let no = opt_vals.len();
        let mut k: usize = 0;
        while k < no
            invariant
                sc.wf(),
                frame < sc.frames@.len(),
                old(sc).frames@.len() <= sc.frames@.len(),
                crate::scope::frames_preserved_except(old(sc)@, sc@, frame as int),
                k <= no,
                plan == pview(*self),
                fr0 == old(sc)@,
                spec_distribute(pview(*self), args.deep_view()) == Ok::<SpecPass1, SpecError>(
                    p1,
                ),
                p1.req.len() == plan.required.len(),
                fr1g == crate::semantics::bind_names(fr0, frame as int, plan.required, p1.req, 0),
                p1.opt == opt_vals.deep_view(),
                no == p1.opt.len(),
                no == opt_vals@.len(),
                no <= self.optional@.len(),
                crate::semantics::bind_opts(fr1g, frame as int, plan.optional, p1.opt, 0)
                    == crate::semantics::bind_opts(
                    sc@,
                    frame as int,
                    plan.optional,
                    p1.opt,
                    k as int,
                ),
            decreases no - k,
        {
            proof {
                lemma_opt_views(self.optional@);
                assert(plan.optional[k as int].0 == self.optional@[k as int].0@);
                assert(p1.opt[k as int] == opt_vals@[k as int]@);
            }
            let ghost scb = sc@;
            let name = self.optional[k].0.clone();
            let v = opt_vals[k].clone();
            sc.set_value(frame, name, v);
            proof {
                assert(sc@ == crate::semantics::bind_one(
                    scb,
                    frame as int,
                    plan.optional[k as int].0,
                    p1.opt[k as int],
                ));
                assert(crate::semantics::bind_opts(scb, frame as int, plan.optional, p1.opt, k as int)
                    == crate::semantics::bind_opts(sc@, frame as int, plan.optional, p1.opt, k + 1));
            }
            k = k + 1;
        }
        let ghost fr2g = sc@;
        proof {
            assert(fr2g == crate::semantics::bind_opts(fr1g, frame as int, plan.optional, p1.opt, 0));
        }

        // Evaluate defaults of unsupplied optional parameters, in spec order.
        let nopt = self.optional.len();
        let mut k2: usize = no;
        while k2 < nopt
            invariant
                sc.wf(),
                frame < sc.frames@.len(),
                old(sc).frames@.len() <= sc.frames@.len(),
                crate::scope::frames_preserved_except(old(sc)@, sc@, frame as int),
                plan == pview(*self),
                no <= k2 <= nopt,
                fr0 == old(sc)@,
                spec_distribute(pview(*self), args.deep_view()) == Ok::<SpecPass1, SpecError>(
                    p1,
                ),
                p1.req.len() == plan.required.len(),
                fr1g == crate::semantics::bind_names(fr0, frame as int, plan.required, p1.req, 0),
                fr2g == crate::semantics::bind_opts(fr1g, frame as int, plan.optional, p1.opt, 0),
                no == p1.opt.len(),
                nopt == self.optional@.len(),
                nopt == plan.optional.len(),
                crate::semantics::spec_opt_defaults(fr2g, frame as int, plan, no as int, fuel)
                    == crate::semantics::spec_opt_defaults(sc@, frame as int, plan, k2 as int, fuel),
            decreases nopt - k2,
        {
            proof {
                lemma_opt_views(self.optional@);
                lemma_optdefs_elem(plan.optional, k2 as int);
                assert(plan.optional[k2 as int].0 == self.optional@[k2 as int].0@);
                assert(plan.optional[k2 as int].1 == vview(*self.optional@[k2 as int].1));
            }
            let ghost scb = sc@;
            let name = self.optional[k2].0.clone();
            let d = self.optional[k2].1.clone();
            let v = match d.eval(sc, frame, fuel) {
                Ok(v) => v,
                Err(e) => {
                    proof {
                        assert(crate::semantics::spec_opt_defaults(scb, frame as int, plan, k2 as int, fuel)
                            == (crate::semantics::Outcome { frames: sc@, result: Err::<(), SpecError>(e@) }));
                        assert(crate::semantics::spec_apply(old(sc)@, frame as int, plan, args.deep_view(), fuel)
                            == (crate::semantics::Outcome { frames: sc@, result: Err::<(), SpecError>(e@) }));
                    }
                    return Err(e);
                },
            };
            let ghost sca = sc@;
            sc.set_value(frame, name, v);
            proof {
                assert(sc@ == crate::semantics::bind_one(
                    sca,
                    frame as int,
                    plan.optional[k2 as int].0,
                    v@,
                ));
                assert(crate::semantics::spec_opt_defaults(scb, frame as int, plan, k2 as int, fuel)
                    == crate::semantics::spec_opt_defaults(sc@, frame as int, plan, k2 + 1, fuel));
            }
            k2 = k2 + 1;
        }
        let ghost fr3g = sc@;
        proof {
            assert(crate::semantics::spec_opt_defaults(fr2g, frame as int, plan, no as int, fuel)
                == (crate::semantics::Outcome { frames: fr3g, result: Ok::<(), SpecError>(()) }));
        }

        // Bind the rest parameter to the leftover values.
        match &self.rest {
            Some(rest_name) => {
                proof {
                    assert(plan.rest == Some(rest_name@));
                }
                let ghost scb = sc@;
                let name = rest_name.clone();
                let v = Value::list(rest_vals);
                proof {
                    assert(v@ == crate::value::mk_list(p1.rest));
                }
                sc.set_value(frame, name, v);
                proof {
                    assert(sc@ == crate::semantics::bind_one(
                        scb,
                        frame as int,
                        rest_name@,
                        crate::value::mk_list(p1.rest),
                    ));
                }
            },
            None => {
                proof {
                    assert(plan.rest is None);
                }
            },
        }
        let ghost fr4g = sc@;
        proof {
            assert(fr4g == (match plan.rest {
                Some(rn) => crate::semantics::bind_one(
                    fr3g,
                    frame as int,
                    rn,
                    crate::value::mk_list(p1.rest),
                ),
                None => fr3g,
            }));
        }

        // Declared keyword parameters that were not supplied: evaluate their
        // defaults, or fail where there is none.
        let mut kw_all: Vec<(String, Value)> = kw_args;
        let nk = self.keyword.len();
        let mut q: usize = 0;
        proof {
            assert(kw_pairs_view(kw_all@) =~= p1.kws);
        }
        while q < nk
            invariant
                sc.wf(),
                frame < sc.frames@.len(),
                old(sc).frames@.len() <= sc.frames@.len(),
                crate::scope::frames_preserved_except(old(sc)@, sc@, frame as int),
                plan == pview(*self),
                q <= nk,
                fr0 == old(sc)@,
                spec_distribute(pview(*self), args.deep_view()) == Ok::<SpecPass1, SpecError>(
                    p1,
                ),
                p1.req.len() == plan.required.len(),
                fr1g == crate::semantics::bind_names(fr0, frame as int, plan.required, p1.req, 0),
                fr2g == crate::semantics::bind_opts(fr1g, frame as int, plan.optional, p1.opt, 0),
                crate::semantics::spec_opt_defaults(fr2g, frame as int, plan, p1.opt.len() as int, fuel)
                    == (crate::semantics::Outcome { frames: fr3g, result: Ok::<(), SpecError>(()) }),
                no == p1.opt.len(),
                fr4g == (match plan.rest {
                    Some(rn) => crate::semantics::bind_one(
                        fr3g,
                        frame as int,
                        rn,
                        crate::value::mk_list(p1.rest),
                    ),
                    None => fr3g,
                }),
                nk == self.keyword@.len(),
                nk == plan.keyword.len(),
                crate::semantics::spec_kw_defaults(fr4g, frame as int, plan, 0, p1.kws, fuel)
                    == crate::semantics::spec_kw_defaults(
                    sc@,
                    frame as int,
                    plan,
                    q as int,
                    kw_pairs_view(kw_all@),
                    fuel,
                ),
            decreases nk - q,
        {
            proof {
                lemma_kw_views(self.keyword@);
                lemma_kwdefs_elem(plan.keyword, q as int);
                assert(plan.keyword[q as int].0 == self.keyword@[q as int].0@);
            }
            let ghost scb = sc@;
            let ghost accb = kw_pairs_view(kw_all@);
            let key = self.keyword[q].0.clone();
            if !kw_contains_exec(&kw_all, key.as_str()) {
                match &self.keyword[q].1 {
                    Some(d) => {
                        proof {
                            assert(plan.keyword[q as int].1 == Some(vview(**d)));
                        }
                        let dc = d.clone();
                        let v = match dc.eval(sc, frame, fuel) {
                            Ok(v) => v,
                            Err(e) => {
                                proof {
                                    assert(crate::semantics::spec_kw_defaults(scb, frame as int, plan, q as int, accb, fuel)
                                        == (crate::semantics::Outcome {
                                        frames: sc@,
                                        result: Err::<Seq<(Seq<char>, SpecValue)>, SpecError>(e@),
                                    }));
                                    assert(crate::semantics::spec_apply(old(sc)@, frame as int, plan, args.deep_view(), fuel)
                                        == (crate::semantics::Outcome { frames: sc@, result: Err::<(), SpecError>(e@) }));
                                }
                                return Err(e);
                            },
                        };
                        kw_all.push((key, v));
                        proof {
                            lemma_kw_pairs_push(kw_all@);
                            assert(kw_pairs_view(kw_all@) =~= accb.push(
                                (plan.keyword[q as int].0, v@),
                            ));
                            assert(crate::semantics::spec_kw_defaults(scb, frame as int, plan, q as int, accb, fuel)
                                == crate::semantics::spec_kw_defaults(
                                sc@,
                                frame as int,
                                plan,
                                q + 1,
                                kw_pairs_view(kw_all@),
                                fuel,
                            ));
                        }
                    },
                    None => {
                        proof {
                            assert(plan.keyword[q as int].1 is None);
                            assert(crate::semantics::spec_kw_defaults(scb, frame as int, plan, q as int, accb, fuel)
                                == (crate::semantics::Outcome {
                                frames: sc@,
                                result: Err::<Seq<(Seq<char>, SpecValue)>, SpecError>(
                                    SpecError::MissingKeywordArgument(plan.keyword[q as int].0),
                                ),
                            }));
                            assert(crate::semantics::spec_apply(old(sc)@, frame as int, plan, args.deep_view(), fuel)
                                == (crate::semantics::Outcome {
                                frames: sc@,
                                result: Err::<(), SpecError>(
                                    SpecError::MissingKeywordArgument(key@),
                                ),
                            }));
                        }
                        return Err(Error::MissingKeywordArgument(key));
                    },
                }
            } else {
                proof {
                    assert(crate::semantics::spec_kw_defaults(scb, frame as int, plan, q as int, accb, fuel)
                        == crate::semantics::spec_kw_defaults(
                        sc@,
                        frame as int,
                        plan,
                        q + 1,
                        kw_pairs_view(kw_all@),
                        fuel,
                    ));
                }
            }
            q = q + 1;
        }
        let ghost fr5g = sc@;
        let ghost kwallg = kw_pairs_view(kw_all@);
        proof {
            assert(crate::semantics::spec_kw_defaults(fr4g, frame as int, plan, 0, p1.kws, fuel)
                == (crate::semantics::Outcome {
                frames: fr5g,
                result: Ok::<Seq<(Seq<char>, SpecValue)>, SpecError>(kwallg),
            }));
        }

        // Bind every keyword argument, declared or not.
        let nb = kw_all.len();
        let mut b: usize = 0;
        while b < nb
            invariant
                sc.wf(),
                frame < sc.frames@.len(),
                old(sc).frames@.len() <= sc.frames@.len(),
                crate::scope::frames_preserved_except(old(sc)@, sc@, frame as int),
                b <= nb,
                plan == pview(*self),
                fr0 == old(sc)@,
                spec_distribute(pview(*self), args.deep_view()) == Ok::<SpecPass1, SpecError>(
                    p1,
                ),
                p1.req.len() == plan.required.len(),
                fr1g == crate::semantics::bind_names(fr0, frame as int, plan.required, p1.req, 0),
                fr2g == crate::semantics::bind_opts(fr1g, frame as int, plan.optional, p1.opt, 0),
                crate::semantics::spec_opt_defaults(fr2g, frame as int, plan, p1.opt.len() as int, fuel)
                    == (crate::semantics::Outcome { frames: fr3g, result: Ok::<(), SpecError>(()) }),
                fr4g == (match plan.rest {
                    Some(rn) => crate::semantics::bind_one(
                        fr3g,
                        frame as int,
                        rn,
                        crate::value::mk_list(p1.rest),
                    ),
                    None => fr3g,
                }),
                crate::semantics::spec_kw_defaults(fr4g, frame as int, plan, 0, p1.kws, fuel)
                    == (crate::semantics::Outcome {
                    frames: fr5g,
                    result: Ok::<Seq<(Seq<char>, SpecValue)>, SpecError>(kwallg),
                }),
                kwallg == kw_pairs_view(kw_all@),
                nb == kw_all@.len(),
                nb == kwallg.len(),
                crate::semantics::bind_kws(fr5g, frame as int, kwallg, 0)
                    == crate::semantics::bind_kws(sc@, frame as int, kwallg, b as int),
            decreases nb - b,
        {
            proof {
                assert(kwallg[b as int] == (kw_all@[b as int].0@, vview(kw_all@[b as int].1)));
            }
            let ghost scb = sc@;
            let name = kw_all[b].0.clone();
            let v = kw_all[b].1.clone();
            sc.set_value(frame, name, v);
            proof {
                assert(sc@ == crate::semantics::bind_one(
                    scb,
                    frame as int,
                    kwallg[b as int].0,
                    kwallg[b as int].1,
                ));
                assert(crate::semantics::bind_kws(scb, frame as int, kwallg, b as int)
                    == crate::semantics::bind_kws(sc@, frame as int, kwallg, b + 1));
            }
            b = b + 1;
        }
        proof {
            assert(sc@ == crate::semantics::bind_kws(fr5g, frame as int, kwallg, 0));
            assert(crate::semantics::spec_apply(old(sc)@, frame as int, plan, args.deep_view(), fuel)
                == (crate::semantics::Outcome { frames: sc@, result: Ok::<(), SpecError>(()) }));
        }
        Ok(())
    }
}

/// The views of collected keyword arguments.
pub open spec fn kw_pairs_view(s: Seq<(String, Value)>) -> Seq<(Seq<char>, SpecValue)> {
    Seq::new(s.len(), |i: int| (s[i].0@, vview(s[i].1)))
}

proof fn lemma_kw_pairs_push(s: Seq<(String, Value)>)
    requires
        s.len() > 0,
    ensures
        kw_pairs_view(s) =~= kw_pairs_view(s.drop_last()).push((s.last().0@, vview(s.last().1))),
{
}

proof fn lemma_kw_pairs_len(s: Seq<(String, Value)>)
    ensures
        kw_pairs_view(s).len() == s.len(),
{
}

/// Whether a collected keyword-argument list already holds a key.
fn kw_contains_exec(s: &Vec<(String, Value)>, key: &str) -> (r: bool)
    ensures
        r == kws_contain(kw_pairs_view(s@), key@),
{
    let n = s.len();
    let mut i: usize = 0;
    while i < n
        invariant
            n == s@.len(),
            i <= n,
            forall|j: int| 0 <= j < i ==> s@[j].0@ != key@,
        decreases n - i,
    {
        if crate::scope::str_eq(s[i].0.as_str(), key) {
            proof {
                assert(kw_pairs_view(s@)[i as int].0 == key@);
            }
            return true;
        }
        i = i + 1;
    }
    proof {
        assert(forall|j: int| 0 <= j < kw_pairs_view(s@).len() ==> (#[trigger] kw_pairs_view(s@)[j]).0 != key@);
    }
    false
}

/// The distribution never fills more required or optional positions than
/// the plan declares.
proof fn lemma_pass1_bounds(p: SpecParams, args: Seq<SpecValue>, acc: SpecPass1)
    requires
        acc.req.len() <= p.required.len(),
        acc.opt.len() <= p.optional.len(),
    ensures
        spec_pass1(p, args, acc) matches Ok(p1) ==> p1.req.len() <= p.required.len()
            && p1.opt.len() <= p.optional.len(),
    decreases args.len(),
{
    if args.len() > 0 {
        match crate::value::spec_keyword_name(args[0]) {
            Some(k) => {
                if !kws_contain(acc.kws, k) && args.len() >= 2 {
                    lemma_pass1_bounds(
                        p,
                        args.subrange(2, args.len() as int),
                        SpecPass1 { kws: acc.kws.push((k, args[1])), ..acc },
                    );
                }
            },
            None => {
                if acc.kws.len() == 0 {
                    if acc.req.len() < p.required.len() {
                        lemma_pass1_bounds(
                            p,
                            args.subrange(1, args.len() as int),
                            SpecPass1 { req: acc.req.push(args[0]), ..acc },
                        );
                    } else if acc.opt.len() < p.optional.len() {
                        lemma_pass1_bounds(
                            p,
                            args.subrange(1, args.len() as int),
                            SpecPass1 { opt: acc.opt.push(args[0]), ..acc },
                        );
                    } else if p.rest is Some {
                        lemma_pass1_bounds(
                            p,
                            args.subrange(1, args.len() as int),
                            SpecPass1 { rest: acc.rest.push(args[0]), ..acc },
                        );
                    }
                }
            },
        }
    }
}

/// Each optional default is no larger than the sum of all of them.
pub proof fn lemma_optdefs_elem(s: Seq<(Seq<char>, SpecValue)>, i: int)
    requires
        0 <= i < s.len(),
    ensures
        vsize(s[i].1) <= optdefs_size(s),
    decreases s.len(),
{
    if i > 0 {
        lemma_optdefs_elem(s.subrange(1, s.len() as int), i - 1);
        assert(s.subrange(1, s.len() as int)[i - 1] == s[i]);
    }
}

/// Each keyword default is no larger than the sum of all of them.
pub proof fn lemma_kwdefs_elem(s: Seq<(Seq<char>, Option<SpecValue>)>, i: int)
    requires
        0 <= i < s.len(),
    ensures
        s[i].1 matches Some(d) ==> vsize(d) <= kwdefs_size(s),
    decreases s.len(),
{
    if i > 0 {
        lemma_kwdefs_elem(s.subrange(1, s.len() as int), i - 1);
        assert(s.subrange(1, s.len() as int)[i - 1] == s[i]);
    }
}

} // verus!
