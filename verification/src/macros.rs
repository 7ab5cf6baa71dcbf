use vstd::prelude::*;
use std::rc::Rc;
use itertools::Itertools;
use crate::value::{
    Value, SpecValue, NativeMac, vview, vsize, seq_vsize, mk_list, lemma_vview_kinds,
    lemma_seq_vsize_elem, lemma_elems_size,
};
use crate::errors::{Error, SpecError};
use crate::scope::{Scope, SpecFrame};
use crate::function::{Function, Macro, SpecFunction};
use crate::params::spec_params_of;

verus! {

broadcast use vstd::seq::group_seq_axioms, vstd::std_specs::vec::group_vec_axioms;

/// Relies on itertools::Itertools::tuples: chunks an even-length sequence
/// into adjacent pairs, in order.
#[verifier::external_body]
fn pair_up(v: &Vec<Rc<Value>>) -> (r: Vec<(Rc<Value>, Rc<Value>)>)
    requires
        v@.len() % 2 == 0,
    ensures
        r@.len() == v@.len() / 2,
        forall|i: int|
            0 <= i < r@.len() ==> (#[trigger] r@[i]).0 == v@[2 * i] && r@[i].1 == v@[2 * i + 1],
{
    v.iter().cloned().tuples().collect()
}

/// The `progn` special form: evaluates each form in order in the current
/// environment; the result is the last value, or nil for an empty body.
pub(crate) fn progn(
    forms: Vec<Rc<Value>>,
    sc: &mut Scope,
    frame: usize,
    fuel: u64,
) -> (r: Result<Value, Error>)
    requires
        old(sc).wf(),
        frame < old(sc).frames@.len(),
    ensures
        final(sc).wf(),
        old(sc).frames@.len() <= final(sc).frames@.len(),
        crate::scope::frames_preserved_except(old(sc)@, final(sc)@, frame as int),
        forms.deep_view().len() == 0 ==> (r matches Ok(v) && v@ == SpecValue::Nil && final(sc)@
            == old(sc)@),
        crate::semantics::returns_value(
            crate::semantics::spec_progn_from(
                old(sc)@,
                frame as int,
                forms.deep_view(),
                0,
                SpecValue::Nil,
                fuel,
            ),
            final(sc)@,
            r,
        ),
    decreases fuel, seq_vsize(forms.deep_view()), 1nat,
{
    let ghost all = forms.deep_view();
    let n = forms.len();
    if n == 0 {
        return Ok(Value::Nil);
    }
    let mut last = Value::Nil;
    let mut i: usize = 0;
    while i < n
        invariant
            all == forms.deep_view(),
            n == all.len(),
            n == forms@.len(),
            i <= n,
            sc.wf(),
            frame < sc.frames@.len(),
            old(sc).frames@.len() <= sc.frames@.len(),
            crate::scope::frames_preserved_except(old(sc)@, sc@, frame as int),
            crate::semantics::spec_progn_from(old(sc)@, frame as int, all, 0, SpecValue::Nil, fuel)
                == crate::semantics::spec_progn_from(sc@, frame as int, all, i as int, last@, fuel),
        decreases n - i,
    {
        proof {
            assert(all[i as int] == vview(*forms@[i as int]));
            lemma_seq_vsize_elem(all, i as int);
        }
        let ghost scb = sc@;
        let ghost lastb = last@;
        last = match forms[i].eval(sc, frame, fuel) {
            Ok(v) => v,
            Err(e) => {
                proof {
                    assert(crate::semantics::spec_progn_from(scb, frame as int, all, i as int, lastb, fuel)
                        == (crate::semantics::Outcome { frames: sc@, result: Err::<SpecValue, SpecError>(e@) }));
                }
                return Err(e);
            },
        };
        proof {
            assert(crate::semantics::spec_progn_from(scb, frame as int, all, i as int, lastb, fuel)
                == crate::semantics::spec_progn_from(sc@, frame as int, all, i + 1, last@, fuel));
        }
        i = i + 1;
    }
    Ok(last)
}

/// The `if` special form: the condition must evaluate to a boolean; on true
/// exactly the second form runs, on false the remaining forms run as an
/// implicit `progn`.
pub(crate) fn if_macro(
    forms: Vec<Rc<Value>>,
    sc: &mut Scope,
    frame: usize,
    fuel: u64,
) -> (r: Result<Value, Error>)
    requires
        old(sc).wf(),
        frame < old(sc).frames@.len(),
    ensures
        final(sc).wf(),
        old(sc).frames@.len() <= final(sc).frames@.len(),
        crate::scope::frames_preserved_except(old(sc)@, final(sc)@, frame as int),
        forms.deep_view().len() == 0 ==> (r matches Err(e) && e@ == SpecError::ArityError(
            "expected if condition"@,
        ) && final(sc)@ == old(sc)@),
        crate::semantics::returns_value(
            crate::semantics::spec_if(old(sc)@, frame as int, forms.deep_view(), fuel),
            final(sc)@,
            r,
        ),
    decreases fuel, seq_vsize(forms.deep_view()), 1nat,
{
    let ghost all = forms.deep_view();
    if forms.len() == 0 {
        return Err(Error::ArityError(String::from_str("expected if condition")));
    }
    proof {
        assert(all[0] == vview(*forms@[0]));
        lemma_seq_vsize_elem(all, 0);
    }
    let condition = match forms[0].eval(sc, frame, fuel) {
        Ok(v) => v,
        Err(e) => {
            return Err(e);
        },
    };
    let ghost mid = sc@;
    if forms.len() < 2 {
        return Err(Error::ArityError(String::from_str("expected statement to execute when true")));
    }
    let truth = match condition {
        Value::Boolean(b) => b,
        _ => {
            proof {
                lemma_vview_kinds(&condition);
            }
            return Err(Error::TypeError(String::from_str("expected boolean condition")));
        },
    };
    if truth {
        proof {
            assert(all[1] == vview(*forms@[1]));
            lemma_seq_vsize_elem(all, 1);
        }
        forms[1].eval(sc, frame, fuel)
    } else {
        let n = forms.len();
        let mut last = Value::Nil;
        let mut i: usize = 2;
        proof {
            assert(crate::semantics::spec_if(old(sc)@, frame as int, all, fuel)
                == crate::semantics::spec_progn_from(mid, frame as int, all, 2, SpecValue::Nil, fuel));
        }
        while i < n
            invariant
                all == forms.deep_view(),
                n == all.len(),
                n == forms@.len(),
                2 <= i <= n,
                sc.wf(),
                frame < sc.frames@.len(),
                old(sc).frames@.len() <= sc.frames@.len(),
                crate::scope::frames_preserved_except(old(sc)@, sc@, frame as int),
                crate::semantics::spec_if(old(sc)@, frame as int, all, fuel)
                    == crate::semantics::spec_progn_from(sc@, frame as int, all, i as int, last@, fuel),
            decreases n - i,
        {
            proof {
                assert(all[i as int] == vview(*forms@[i as int]));
                lemma_seq_vsize_elem(all, i as int);
            }
            let ghost scb = sc@;
            let ghost lastb = last@;
            last = match forms[i].eval(sc, frame, fuel) {
                Ok(v) => v,
                Err(e) => {
                    proof {
                        assert(crate::semantics::spec_progn_from(scb, frame as int, all, i as int, lastb, fuel)
                            == (crate::semantics::Outcome { frames: sc@, result: Err::<SpecValue, SpecError>(e@) }));
                    }
                    return Err(e);
                },
            };
            proof {
                assert(crate::semantics::spec_progn_from(scb, frame as int, all, i as int, lastb, fuel)
                    == crate::semantics::spec_progn_from(sc@, frame as int, all, i + 1, last@, fuel));
            }
            i = i + 1;
        }
        Ok(last)
    }
}

/// The `set` special form: its arguments are symbol/value pairs; each value
/// is evaluated in the current environment and bound there, left to right.
pub(crate) fn set(
    forms: Vec<Rc<Value>>,
    sc: &mut Scope,
    frame: usize,
    fuel: u64,
) -> (r: Result<Value, Error>)
    requires
        old(sc).wf(),
        frame < old(sc).frames@.len(),
    ensures
        final(sc).wf(),
        old(sc).frames@.len() <= final(sc).frames@.len(),
        crate::scope::frames_preserved_except(old(sc)@, final(sc)@, frame as int),
        forms.deep_view().len() % 2 != 0 ==> (r matches Err(e) && e@ == SpecError::TypeError(
            "uneven symbol and value pairs"@,
        ) && final(sc)@ == old(sc)@),
        crate::semantics::returns_value(
            crate::semantics::spec_set(old(sc)@, frame as int, forms.deep_view(), fuel),
            final(sc)@,
            r,
        ),
        r matches Ok(v) ==> v@ == SpecValue::Nil,
    decreases fuel, seq_vsize(forms.deep_view()), 1nat,
{
    let ghost all = forms.deep_view();
    if forms.len() % 2 != 0 {
        return Err(Error::TypeError(String::from_str("uneven symbol and value pairs")));
    }
    let ghost formseq = forms@;
    let pairs = pair_up(&forms);
    proof {
        assert(forall|j: int|
            0 <= j < pairs@.len() ==> vview(*(#[trigger] pairs@[j]).0) == all[2 * j] && vview(
                *pairs@[j].1,
            ) == all[2 * j + 1]) by {
            assert forall|j: int| 0 <= j < pairs@.len() implies vview(*(#[trigger] pairs@[j]).0)
                == all[2 * j] && vview(*pairs@[j].1) == all[2 * j + 1] by {
                assert(pairs@[j].0 == formseq[2 * j]);
                assert(pairs@[j].1 == formseq[2 * j + 1]);
                assert(all[2 * j] == vview(*formseq[2 * j]));
                assert(all[2 * j + 1] == vview(*formseq[2 * j + 1]));
            }
        }
    }
    let n = pairs.len();
    let mut i: usize = 0;
    proof {
        assert(crate::semantics::spec_set(old(sc)@, frame as int, all, fuel)
            == crate::semantics::spec_set_from(old(sc)@, frame as int, all, 0, fuel));
    }
    while i < n
        invariant
            n == pairs@.len(),
            n == all.len() / 2,
            all.len() % 2 == 0,
            i <= n,
            sc.wf(),
            frame < sc.frames@.len(),
            old(sc).frames@.len() <= sc.frames@.len(),
            crate::scope::frames_preserved_except(old(sc)@, sc@, frame as int),
            all == forms.deep_view(),
            forall|j: int|
                0 <= j < n ==> vview(*(#[trigger] pairs@[j]).0) == all[2 * j] && vview(*pairs@[j].1)
                    == all[2 * j + 1],
            crate::semantics::spec_set(old(sc)@, frame as int, all, fuel)
                == crate::semantics::spec_set_from(sc@, frame as int, all, 2 * (i as int), fuel),
        decreases n - i,
    {
        let ghost k = 2 * (i as int);
        proof {
            assert(k + 2 <= all.len());
            assert(all[k] == vview(*pairs@[i as int].0));
            assert(all[k + 1] == vview(*pairs@[i as int].1));
        }
        let sym = match pairs[i].0.as_symbol() {
            Some(s) => s.to_owned(),
            None => {
                proof {
                    lemma_vview_kinds(&*pairs@[i as int].0);
                    assert(crate::semantics::spec_set_from(sc@, frame as int, all, k, fuel)
                        == (crate::semantics::Outcome {
                        frames: sc@,
                        result: Err::<SpecValue, SpecError>(SpecError::TypeError("expected symbol"@)),
                    }));
                }
                return Err(Error::TypeError(String::from_str("expected symbol")));
            },
        };
        proof {
            lemma_seq_vsize_elem(all, 2 * i + 1);
        }
        let ghost scb = sc@;
        let val = match pairs[i].1.eval(sc, frame, fuel) {
            Ok(v) => v,
            Err(e) => {
                proof {
                    assert(crate::semantics::spec_set_from(scb, frame as int, all, k, fuel)
                        == (crate::semantics::Outcome { frames: sc@, result: Err::<SpecValue, SpecError>(e@) }));
                }
                return Err(e);
            },
        };
        let ghost sca = sc@;
        sc.set_value(frame, sym, val);
        proof {
            assert(sc@ == crate::semantics::bind_one(sca, frame as int, sym@, val@));
            assert(crate::semantics::spec_set_from(scb, frame as int, all, k, fuel)
                == crate::semantics::spec_set_from(sc@, frame as int, all, k + 2, fuel));
        }
        i = i + 1;
    }
    Ok(Value::Nil)
}

/// The `let` special form: one child environment; each binding is a bare
/// symbol (bound to nil) or a (symbol init) pair whose init is evaluated in
/// the parent environment; the body runs in the child as an implicit `progn`.
pub(crate) fn let_block(
    forms: Vec<Rc<Value>>,
    sc: &mut Scope,
    frame: usize,
    fuel: u64,
) -> (r: Result<Value, Error>)
    requires
        old(sc).wf(),
        frame < old(sc).frames@.len(),
    ensures
        final(sc).wf(),
        old(sc).frames@.len() <= final(sc).frames@.len(),
        crate::scope::frames_preserved_except(old(sc)@, final(sc)@, frame as int),
        forms.deep_view().len() == 0 ==> (r matches Err(e) && e@ == SpecError::ArityError(
            "expected variables list"@,
        ) && final(sc)@ == old(sc)@),
        crate::semantics::returns_value(
            crate::semantics::spec_let(old(sc)@, frame as int, forms.deep_view(), fuel),
            final(sc)@,
            r,
        ),
    decreases fuel, seq_vsize(forms.deep_view()), 1nat,
{
    let ghost all = forms.deep_view();
    if forms.len() == 0 {
        return Err(Error::ArityError(String::from_str("expected variables list")));
    }
    proof {
        assert(all[0] == vview(*forms@[0]));
        lemma_seq_vsize_elem(all, 0);
    }
    let vars = match forms[0].as_list() {
        Some(vs) => vs,
        None => {
            return Err(Error::ImproperListError);
        },
    };
    let ghost varviews = vars.deep_view();
    proof {
        lemma_elems_size(all[0]);
    }
    let child = sc.push(frame);
    let ghost fr1 = sc@;
    proof {
        assert(fr1 == old(sc)@.push(
            crate::scope::SpecFrame { parent: Some(frame as int), vars: Map::empty() },
        ));
    }
    let nv = vars.len();
    let mut i: usize = 0;
    while i < nv
        invariant
            varviews == vars.deep_view(),
            nv == varviews.len(),
            nv == vars@.len(),
            i <= nv,
            sc.wf(),
            frame < sc.frames@.len(),
            child < sc.frames@.len(),
            child as int == old(sc).frames@.len() as int,
            old(sc).frames@.len() <= sc.frames@.len(),
            crate::scope::frames_preserved_except(old(sc)@, sc@, frame as int),
            seq_vsize(varviews) < vsize(all[0]),
            all == forms.deep_view(),
            0 < all.len(),
            vsize(all[0]) <= seq_vsize(all),
            crate::value::list_elems(all[0]) == Some(varviews),
            crate::semantics::spec_let_vars(fr1, frame as int, child as int, varviews, 0, fuel)
                == crate::semantics::spec_let_vars(
                sc@,
                frame as int,
                child as int,
                varviews,
                i as int,
                fuel,
            ),
            fr1 == old(sc)@.push(
                crate::scope::SpecFrame { parent: Some(frame as int), vars: Map::empty() },
            ),
        decreases nv - i,
    {
        proof {
            assert(varviews[i as int] == vview(*vars@[i as int]));
            lemma_seq_vsize_elem(varviews, i as int);
        }
        let ghost scb = sc@;
        let var = &vars[i];
        match var.as_symbol() {
            Some(s) => {
                let name = s.to_owned();
                sc.set_value(child, name, Value::Nil);
                proof {
                    assert(sc@ == crate::semantics::bind_one(scb, child as int, name@, SpecValue::Nil));
                    assert(crate::semantics::spec_let_vars(scb, frame as int, child as int, varviews, i as int, fuel)
                        == crate::semantics::spec_let_vars(sc@, frame as int, child as int, varviews, i + 1, fuel));
                }
            },
            None => {
                proof {
                    lemma_vview_kinds(&**var);
                }
                match var.as_symbol_value_pair() {
                    Some((s, init)) => {
                        let name = s.to_owned();
                        proof {
                            lemma_var_init_size(varviews[i as int]);
                        }
                        let v = match init.eval(sc, frame, fuel) {
                            Ok(v) => v,
                            Err(e) => {
                                proof {
                                    assert(crate::semantics::spec_let_vars(scb, frame as int, child as int, varviews, i as int, fuel)
                                        == (crate::semantics::Outcome { frames: sc@, result: Err::<(), SpecError>(e@) }));
                                    assert(crate::semantics::spec_let(old(sc)@, frame as int, all, fuel)
                                        == (crate::semantics::Outcome { frames: sc@, result: Err::<SpecValue, SpecError>(e@) }));
                                }
                                return Err(e);
                            },
                        };
                        let ghost sca = sc@;
                        sc.set_value(child, name, v);
                        proof {
                            assert(sc@ == crate::semantics::bind_one(sca, child as int, name@, v@));
                            assert(crate::semantics::spec_let_vars(scb, frame as int, child as int, varviews, i as int, fuel)
                                == crate::semantics::spec_let_vars(sc@, frame as int, child as int, varviews, i + 1, fuel));
                        }
                    },
                    None => {
                        proof {
                            assert(crate::semantics::spec_let_vars(scb, frame as int, child as int, varviews, i as int, fuel)
                                == (crate::semantics::Outcome {
                                frames: sc@,
                                result: Err::<(), SpecError>(
                                    SpecError::TypeError("expected symbol or symbol and value pair"@),
                                ),
                            }));
                            assert(crate::semantics::spec_let(old(sc)@, frame as int, all, fuel)
                                == (crate::semantics::Outcome {
                                frames: sc@,
                                result: Err::<SpecValue, SpecError>(
                                    SpecError::TypeError("expected symbol or symbol and value pair"@),
                                ),
                            }));
                        }
                        return Err(
                            Error::TypeError(
                                String::from_str("expected symbol or symbol and value pair"),
                            ),
                        );
                    },
                }
            },
        }
        i = i + 1;
    }
    proof {
        assert(crate::semantics::spec_let_vars(fr1, frame as int, child as int, varviews, 0, fuel)
            == (crate::semantics::Outcome { frames: sc@, result: Ok::<(), SpecError>(()) }));
        assert(crate::semantics::spec_let(old(sc)@, frame as int, all, fuel)
            == crate::semantics::spec_progn_from(sc@, child as int, all, 1, SpecValue::Nil, fuel));
    }
    let n = forms.len();
    let mut last = Value::Nil;
    let mut k: usize = 1;
    while k < n
        invariant
            all == forms.deep_view(),
            n == all.len(),
            n == forms@.len(),
            1 <= k <= n,
            sc.wf(),
            child < sc.frames@.len(),
            child as int == old(sc).frames@.len() as int,
            old(sc).frames@.len() <= sc.frames@.len(),
            crate::scope::frames_preserved_except(old(sc)@, sc@, frame as int),
            crate::semantics::spec_let(old(sc)@, frame as int, all, fuel)
                == crate::semantics::spec_progn_from(sc@, child as int, all, k as int, last@, fuel),
        decreases n - k,
    {
        proof {
            assert(all[k as int] == vview(*forms@[k as int]));
            lemma_seq_vsize_elem(all, k as int);
        }
        let ghost scb = sc@;
        let ghost lastb = last@;
        last = match forms[k].eval(sc, child, fuel) {
            Ok(v) => v,
            Err(e) => {
                proof {
                    assert(crate::semantics::spec_progn_from(scb, child as int, all, k as int, lastb, fuel)
                        == (crate::semantics::Outcome { frames: sc@, result: Err::<SpecValue, SpecError>(e@) }));
                }
                return Err(e);
            },
        };
        proof {
            assert(crate::semantics::spec_progn_from(scb, child as int, all, k as int, lastb, fuel)
                == crate::semantics::spec_progn_from(sc@, child as int, all, k + 1, last@, fuel));
        }
        k = k + 1;
    }
    Ok(last)
}

/// The value bound by a (symbol init) entry is smaller than the entry.
pub proof fn lemma_var_init_size(v: SpecValue)
    ensures
        crate::value::spec_symbol_pair(v) matches Some(p) ==> vsize(p.1) < vsize(v),
{
    match v {
        SpecValue::Cons(a, t) => {
            match *t {
                SpecValue::Cons(b, n2) => {
                    assert(vsize(v) == 1 + vsize(*a) + vsize(*t));
                    assert(vsize(*t) == 1 + vsize(*b) + vsize(*n2));
                },
                _ => {},
            }
        },
        _ => {},
    }
}

/// What defining a closure does to the scope: the error raised by a bad
/// form, or the new frames with the closure bound in the current frame.
pub open spec fn spec_define(
    frames: Seq<SpecFrame>,
    frame: int,
    forms: Seq<SpecValue>,
    as_macro: bool,
) -> Result<Seq<SpecFrame>, SpecError> {
    if forms.len() == 0 {
        Err(SpecError::TypeError("expected function name"@))
    } else {
        match forms[0] {
            SpecValue::Symbol(name) => {
                if forms.len() < 2 {
                    Err(SpecError::ArityError("expected parameter definitions"@))
                } else {
                    match spec_params_of(forms[1]) {
                        Ok(ps) => {
                            let record = SpecFunction {
                                name: name,
                                params: ps,
                                body: Box::new(
                                    SpecValue::Cons(
                                        Box::new(SpecValue::Symbol("progn"@)),
                                        Box::new(mk_list(forms.subrange(2, forms.len() as int))),
                                    ),
                                ),
                                scope: frame,
                            };
                            let v = if as_macro {
                                SpecValue::Macro(record)
                            } else {
                                SpecValue::Function(record)
                            };
                            Ok(
                                frames.update(
                                    frame,
                                    SpecFrame {
                                        parent: frames[frame].parent,
                                        vars: frames[frame].vars.insert(name, v),
                                    },
                                ),
                            )
                        },
                        Err(e) => Err(e),
                    }
                }
            },
            _ => Err(SpecError::TypeError("expected function name"@)),
        }
    }
}

/// The `defun` special form: builds a function closing over the current
/// environment and binds it there under its name; the result is nil.
pub fn defun(
    forms: Vec<Rc<Value>>,
    sc: &mut Scope,
    frame: usize,
    fuel: u64,
) -> (r: Result<Value, Error>)
    requires
        old(sc).wf(),
        frame < old(sc).frames@.len(),
    ensures
        final(sc).wf(),
        old(sc).frames@.len() <= final(sc).frames@.len(),
        crate::scope::frames_preserved_except(old(sc)@, final(sc)@, frame as int),
        match spec_define(old(sc)@, frame as int, forms.deep_view(), false) {
            Ok(fr) => r matches Ok(v) && v@ == SpecValue::Nil && final(sc)@ == fr,
            Err(e0) => r matches Err(e) && e@ == e0 && final(sc)@ == old(sc)@,
        },
    decreases fuel, seq_vsize(forms.deep_view()), 1nat,
{
    let ghost all = forms.deep_view();
    if forms.len() == 0 {
        return Err(Error::TypeError(String::from_str("expected function name")));
    }
    proof {
        assert(all[0] == vview(*forms@[0]));
        lemma_vview_kinds(&forms@[0]);
    }
    let name = match forms[0].as_symbol() {
        Some(s) => s.to_owned(),
        None => {
            return Err(Error::TypeError(String::from_str("expected function name")));
        },
    };
    if forms.len() < 2 {
        return Err(Error::ArityError(String::from_str("expected parameter definitions")));
    }
    proof {
        assert(all[1] == vview(*forms@[1]));
    }
    let mut body: Vec<Rc<Value>> = Vec::new();
    let n = forms.len();
    let mut i: usize = 2;
    while i < n
        invariant
            all == forms.deep_view(),
            n == all.len(),
            n == forms@.len(),
            2 <= i <= n,
            body.deep_view() =~= all.subrange(2, i as int),
        decreases n - i,
    {
        proof {
            assert(all[i as int] == vview(*forms@[i as int]));
        }
        let ghost prevb = body.deep_view();
        body.push(forms[i].clone());
        proof {
            assert(body.deep_view() =~= prevb.push(all[i as int]));
            assert(all.subrange(2, i + 1) =~= all.subrange(2, i as int).push(all[i as int]));
            assert(body.deep_view() =~= all.subrange(2, i + 1));
        }
        i = i + 1;
    }
    proof {
        assert(body.deep_view() =~= all.subrange(2, n as int));
    }
    let func = match Function::define(name.clone(), &forms[1], Rc::new(Value::list_rc(body)), frame)
        {
        Ok(f) => f,
        Err(e) => {
            return Err(e);
        },
    };
    let bound = Value::Function(Rc::new(func));
    proof {
        assert(spec_define(old(sc)@, frame as int, all, false) matches Ok(fr0));
    }
    sc.set_value(frame, name, bound);
    proof {
        assert(spec_define(old(sc)@, frame as int, all, false) matches Ok(fr) && sc@ == fr);
    }
    Ok(Value::Nil)
}

/// The `defmacro` special form: as `defun`, but the closure is called on
/// unevaluated forms.
pub fn defmacro(
    forms: Vec<Rc<Value>>,
    sc: &mut Scope,
    frame: usize,
    fuel: u64,
) -> (r: Result<Value, Error>)
    requires
        old(sc).wf(),
        frame < old(sc).frames@.len(),
    ensures
        final(sc).wf(),
        old(sc).frames@.len() <= final(sc).frames@.len(),
        crate::scope::frames_preserved_except(old(sc)@, final(sc)@, frame as int),
        match spec_define(old(sc)@, frame as int, forms.deep_view(), true) {
            Ok(fr) => r matches Ok(v) && v@ == SpecValue::Nil && final(sc)@ == fr,
            Err(e0) => r matches Err(e) && e@ == e0 && final(sc)@ == old(sc)@,
        },
    decreases fuel, seq_vsize(forms.deep_view()), 1nat,
{
    let ghost all = forms.deep_view();
    if forms.len() == 0 {
        return Err(Error::TypeError(String::from_str("expected function name")));
    }
    proof {
        assert(all[0] == vview(*forms@[0]));
        lemma_vview_kinds(&forms@[0]);
    }
    let name = match forms[0].as_symbol() {
        Some(s) => s.to_owned(),
        None => {
            return Err(Error::TypeError(String::from_str("expected function name")));
        },
    };
    if forms.len() < 2 {
        return Err(Error::ArityError(String::from_str("expected parameter definitions")));
    }
    proof {
        assert(all[1] == vview(*forms@[1]));
    }
    let mut body: Vec<Rc<Value>> = Vec::new();
    let n = forms.len();
    let mut i: usize = 2;
    while i < n
        invariant
            all == forms.deep_view(),
            n == all.len(),
            n == forms@.len(),
            2 <= i <= n,
            body.deep_view() =~= all.subrange(2, i as int),
        decreases n - i,
    {
        proof {
            assert(all[i as int] == vview(*forms@[i as int]));
        }
        let ghost prevb = body.deep_view();
        body.push(forms[i].clone());
        proof {
            assert(body.deep_view() =~= prevb.push(all[i as int]));
            assert(all.subrange(2, i + 1) =~= all.subrange(2, i as int).push(all[i as int]));
            assert(body.deep_view() =~= all.subrange(2, i + 1));
        }
        i = i + 1;
    }
    proof {
        assert(body.deep_view() =~= all.subrange(2, n as int));
    }
    let mac = match Macro::define(name.clone(), &forms[1], Rc::new(Value::list_rc(body)), frame) {
        Ok(m) => m,
        Err(e) => {
            return Err(e);
        },
    };
    let bound = Value::Macro(Rc::new(mac));
    proof {
        assert(spec_define(old(sc)@, frame as int, all, true) matches Ok(fr0));
    }
    sc.set_value(frame, name, bound);
    proof {
        assert(spec_define(old(sc)@, frame as int, all, true) matches Ok(fr) && sc@ == fr);
    }
    Ok(Value::Nil)
}

/// The `quote` special form: hands its single argument form back verbatim.
pub fn quote(
    forms: Vec<Rc<Value>>,
    sc: &mut Scope,
    frame: usize,
    fuel: u64,
) -> (r: Result<Value, Error>)
    requires
        old(sc).wf(),
        frame < old(sc).frames@.len(),
    ensures
        final(sc).wf(),
        final(sc)@ == old(sc)@,
        final(sc).frames@.len() == old(sc).frames@.len(),
        forms.deep_view().len() == 1 ==> (r matches Ok(v) && v@ == forms.deep_view()[0]),
        forms.deep_view().len() != 1 ==> (r matches Err(e) && e@ == SpecError::ArityError(
            "expected only one argument"@,
        )),
    decreases fuel, seq_vsize(forms.deep_view()), 1nat,
{
    if forms.len() != 1 {
        return Err(Error::ArityError(String::from_str("expected only one argument")));
    }
    proof {
        assert(forms.deep_view()[0] == vview(*forms@[0]));
    }
    Ok((*forms[0]).clone())
}

/// Runs the special form named by `id` on the unevaluated argument forms.
pub(crate) fn dispatch_macro(
    id: NativeMac,
    forms: Vec<Rc<Value>>,
    sc: &mut Scope,
    frame: usize,
    fuel: u64,
) -> (r: Result<Value, Error>)
    requires
        old(sc).wf(),
        frame < old(sc).frames@.len(),
    ensures
        final(sc).wf(),
        old(sc).frames@.len() <= final(sc).frames@.len(),
        crate::scope::frames_preserved_except(old(sc)@, final(sc)@, frame as int),
        crate::semantics::returns_value(
            crate::semantics::spec_dispatch_macro(
                old(sc)@,
                frame as int,
                id,
                forms.deep_view(),
                fuel,
            ),
            final(sc)@,
            r,
        ),
    decreases fuel, seq_vsize(forms.deep_view()), 2nat,
{
    match id {
        NativeMac::Assign => set(forms, sc, frame, fuel),
        NativeMac::Let => let_block(forms, sc, frame, fuel),
        NativeMac::If => if_macro(forms, sc, frame, fuel),
        NativeMac::Defun => defun(forms, sc, frame, fuel),
        NativeMac::Defmacro => defmacro(forms, sc, frame, fuel),
        NativeMac::Progn => progn(forms, sc, frame, fuel),
        NativeMac::Quote => quote(forms, sc, frame, fuel),
    }
}

/// The bindings the special-form set contributes to a scope frame.
pub open spec fn with_macro_entries(m: Map<Seq<char>, SpecValue>) -> Map<Seq<char>, SpecValue> {
    m.insert("set"@, SpecValue::NativeMacro("set"@, NativeMac::Assign)).insert(
        "let"@,
        SpecValue::NativeMacro("let"@, NativeMac::Let),
    ).insert("if"@, SpecValue::NativeMacro("if"@, NativeMac::If)).insert(
        "defun"@,
        SpecValue::NativeMacro("defun"@, NativeMac::Defun),
    ).insert("defmacro"@, SpecValue::NativeMacro("defmacro"@, NativeMac::Defmacro)).insert(
        "progn"@,
        SpecValue::NativeMacro("progn"@, NativeMac::Progn),
    ).insert("quote"@, SpecValue::NativeMacro("quote"@, NativeMac::Quote))
}

/// Adds the special-form set to a scope frame.
pub fn register(sc: &mut Scope, frame: usize) -> (r: ())
    requires
        old(sc).wf(),
        frame < old(sc).frames@.len(),
    ensures
        final(sc).wf(),
        final(sc).frames@.len() == old(sc).frames@.len(),
        final(sc)@ == old(sc)@.update(
            frame as int,
            SpecFrame {
                parent: old(sc)@[frame as int].parent,
                vars: with_macro_entries(old(sc)@[frame as int].vars),
            },
        ),
{
    sc.set_value(frame, String::from_str("set"), Value::NativeMacro(String::from_str("set"), NativeMac::Assign));
    sc.set_value(frame, String::from_str("let"), Value::NativeMacro(String::from_str("let"), NativeMac::Let));
    sc.set_value(frame, String::from_str("if"), Value::NativeMacro(String::from_str("if"), NativeMac::If));
    sc.set_value(frame, String::from_str("defun"), Value::NativeMacro(String::from_str("defun"), NativeMac::Defun));
    sc.set_value(frame, String::from_str("defmacro"), Value::NativeMacro(String::from_str("defmacro"), NativeMac::Defmacro));
    sc.set_value(frame, String::from_str("progn"), Value::NativeMacro(String::from_str("progn"), NativeMac::Progn));
    sc.set_value(frame, String::from_str("quote"), Value::NativeMacro(String::from_str("quote"), NativeMac::Quote));
    proof {
        assert(final(sc)@ =~= old(sc)@.update(
            frame as int,
            SpecFrame {
                parent: old(sc)@[frame as int].parent,
                vars: with_macro_entries(old(sc)@[frame as int].vars),
            },
        ));
    }
}

} // verus!
