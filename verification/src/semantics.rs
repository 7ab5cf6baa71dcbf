use vstd::prelude::*;
use crate::value::{
    Value, SpecValue, vsize, seq_vsize, list_elems, mk_list, spec_symbol_pair,
    lemma_seq_vsize_elem, lemma_elems_size,
};
use crate::errors::{Error, SpecError};
use crate::scope::{SpecFrame, spec_get_value};
use crate::function::{SpecFunction, fsize};
use crate::params::{
    SpecParams, psize, spec_distribute, spec_join, kws_contain, lemma_optdefs_elem,
    lemma_kwdefs_elem,
};

verus! {

// ------------------------------------------------------------------
// The meaning of evaluation: a recursive big-step semantics over the
// model types. Each executable piece of the evaluator ensures that it
// returns exactly the outcome these functions denote.
// ------------------------------------------------------------------

/// The frames after one evaluation step, together with what it produced.
#[verifier::ext_equal]
pub struct Outcome<T> {
    pub frames: Seq<SpecFrame>,
    pub result: Result<T, SpecError>,
}

/// An executable result and final scope agree with an outcome over values.
pub open spec fn returns_value(
    o: Outcome<SpecValue>,
    fr: Seq<SpecFrame>,
    r: Result<Value, Error>,
) -> bool {
    &&& o.frames == fr
    &&& (match r {
        Ok(v) => o.result == Ok::<SpecValue, SpecError>(v@),
        Err(e) => o.result == Err::<SpecValue, SpecError>(e@),
    })
}

/// An executable result and final scope agree with an outcome over value
/// sequences.
pub open spec fn returns_values(
    o: Outcome<Seq<SpecValue>>,
    fr: Seq<SpecFrame>,
    r: Result<Vec<Value>, Error>,
) -> bool {
    &&& o.frames == fr
    &&& (match r {
        Ok(vs) => o.result == Ok::<Seq<SpecValue>, SpecError>(vs.deep_view()),
        Err(e) => o.result == Err::<Seq<SpecValue>, SpecError>(e@),
    })
}

/// An executable result and final scope agree with an outcome of binding.
pub open spec fn returns_unit(o: Outcome<()>, fr: Seq<SpecFrame>, r: Result<(), Error>) -> bool {
    &&& o.frames == fr
    &&& (match r {
        Ok(_) => o.result is Ok,
        Err(e) => o.result == Err::<(), SpecError>(e@),
    })
}

/// One binding written into one frame, as `set_value` writes it.
pub open spec fn bind_one(
    fr: Seq<SpecFrame>,
    frame: int,
    name: Seq<char>,
    val: SpecValue,
) -> Seq<SpecFrame> {
    if 0 <= frame < fr.len() {
        fr.update(
            frame,
            SpecFrame { parent: fr[frame].parent, vars: fr[frame].vars.insert(name, val) },
        )
    } else {
        fr
    }
}

/// Positional bindings: each name to the value at the same position.
pub open spec fn bind_names(
    fr: Seq<SpecFrame>,
    frame: int,
    names: Seq<Seq<char>>,
    vals: Seq<SpecValue>,
    j: int,
) -> Seq<SpecFrame>
    decreases vals.len() - j,
{
    if 0 <= j && j < vals.len() && j < names.len() {
        bind_names(bind_one(fr, frame, names[j], vals[j]), frame, names, vals, j + 1)
    } else {
        fr
    }
}

/// Supplied optional bindings: each optional parameter's name to the value
/// at the same position.
pub open spec fn bind_opts(
    fr: Seq<SpecFrame>,
    frame: int,
    opts: Seq<(Seq<char>, SpecValue)>,
    vals: Seq<SpecValue>,
    k: int,
) -> Seq<SpecFrame>
    decreases vals.len() - k,
{
    if 0 <= k && k < vals.len() && k < opts.len() {
        bind_opts(bind_one(fr, frame, opts[k].0, vals[k]), frame, opts, vals, k + 1)
    } else {
        fr
    }
}

/// Keyword bindings, in order of appearance.
pub open spec fn bind_kws(
    fr: Seq<SpecFrame>,
    frame: int,
    kws: Seq<(Seq<char>, SpecValue)>,
    b: int,
) -> Seq<SpecFrame>
    decreases kws.len() - b,
{
    if 0 <= b && b < kws.len() {
        bind_kws(bind_one(fr, frame, kws[b].0, kws[b].1), frame, kws, b + 1)
    } else {
        fr
    }
}

/// What evaluating one form does: atoms are themselves, a symbol resolves
/// through the scope chain, a cons cell evaluates its head and dispatches
/// the call on the unevaluated argument forms.
pub open spec fn spec_eval(fr: Seq<SpecFrame>, frame: int, v: SpecValue, fuel: u64) -> Outcome<
    SpecValue,
>
    decreases fuel, vsize(v), 0nat, 0nat,
{
    match v {
        SpecValue::Symbol(s) => Outcome { frames: fr, result: spec_get_value(fr, frame, s) },
        SpecValue::Cons(h, t) => {
            let o = spec_eval(fr, frame, *h, fuel);
            match o.result {
                Ok(callee) => spec_call(o.frames, frame, callee, *t, fuel),
                Err(_) => Outcome { frames: o.frames, result: o.result },
            }
        },
        _ => Outcome { frames: fr, result: Ok(v) },
    }
}

/// What call dispatch does, by the callee's kind.
pub open spec fn spec_call(
    fr: Seq<SpecFrame>,
    frame: int,
    callee: SpecValue,
    args: SpecValue,
    fuel: u64,
) -> Outcome<SpecValue>
    decreases fuel, vsize(args), 4nat, 0nat,
    via spec_call_dec
{
    match callee {
        SpecValue::Nil => Outcome {
            frames: fr,
            result: Err(SpecError::TypeError("cannot call nil"@)),
        },
        SpecValue::NativeFunction(_, id) => {
            let o = spec_eval_list(fr, frame, args, fuel);
            match o.result {
                Ok(vals) => Outcome {
                    frames: o.frames,
                    result: crate::functions::spec_dispatch(id, vals),
                },
                Err(e) => Outcome { frames: o.frames, result: Err(e) },
            }
        },
        SpecValue::NativeMacro(_, id) => match list_elems(args) {
            Some(forms) => spec_dispatch_macro(fr, frame, id, forms, fuel),
            None => Outcome { frames: fr, result: Err(SpecError::ImproperListError) },
        },
        SpecValue::Function(fc) => {
            let o = spec_eval_list(fr, frame, args, fuel);
            match o.result {
                Ok(vals) => if fuel == 0 {
                    Outcome { frames: o.frames, result: Err(SpecError::DepthLimit) }
                } else {
                    spec_closure_call(o.frames, fc, vals, (fuel - 1) as u64)
                },
                Err(e) => Outcome { frames: o.frames, result: Err(e) },
            }
        },
        SpecValue::Macro(fc) => match list_elems(args) {
            Some(forms) => if fuel == 0 {
                Outcome { frames: fr, result: Err(SpecError::DepthLimit) }
            } else {
                spec_closure_call(fr, fc, forms, (fuel - 1) as u64)
            },
            None => Outcome { frames: fr, result: Err(SpecError::ImproperListError) },
        },
        _ => Outcome { frames: fr, result: Err(SpecError::TypeError("expected function"@)) },
    }
}

#[via_fn]
proof fn spec_call_dec(fr: Seq<SpecFrame>, frame: int, callee: SpecValue, args: SpecValue, fuel: u64) {
    if list_elems(args) is Some {
        lemma_elems_size(args);
    }
}

/// The arguments of a call, each evaluated left to right in the caller's
/// environment; a chain not ending in nil never reaches evaluation.
pub open spec fn spec_eval_list(fr: Seq<SpecFrame>, frame: int, args: SpecValue, fuel: u64) -> Outcome<
    Seq<SpecValue>,
>
    decreases fuel, vsize(args), 1nat, 0nat,
    via spec_eval_list_dec
{
    match list_elems(args) {
        Some(elems) => spec_eval_elems(fr, frame, elems, 0, Seq::empty(), fuel),
        None => Outcome { frames: fr, result: Err(SpecError::ImproperListError) },
    }
}

#[via_fn]
proof fn spec_eval_list_dec(fr: Seq<SpecFrame>, frame: int, args: SpecValue, fuel: u64) {
    if list_elems(args) is Some {
        lemma_elems_size(args);
    }
}

pub open spec fn spec_eval_elems(
    fr: Seq<SpecFrame>,
    frame: int,
    elems: Seq<SpecValue>,
    i: int,
    acc: Seq<SpecValue>,
    fuel: u64,
) -> Outcome<Seq<SpecValue>>
    decreases fuel, seq_vsize(elems), 1nat, elems.len() - i,
    via spec_eval_elems_dec
{
    if !(0 <= i < elems.len()) {
        Outcome { frames: fr, result: Ok(acc) }
    } else {
        let o = spec_eval(fr, frame, elems[i], fuel);
        match o.result {
            Ok(v) => spec_eval_elems(o.frames, frame, elems, i + 1, acc.push(v), fuel),
            Err(e) => Outcome { frames: o.frames, result: Err(e) },
        }
    }
}

#[via_fn]
proof fn spec_eval_elems_dec(
    fr: Seq<SpecFrame>,
    frame: int,
    elems: Seq<SpecValue>,
    i: int,
    acc: Seq<SpecValue>,
    fuel: u64,
) {
    if 0 <= i < elems.len() {
        lemma_seq_vsize_elem(elems, i);
    }
}

/// What each special form does on the unevaluated forms.
pub open spec fn spec_dispatch_macro(
    fr: Seq<SpecFrame>,
    frame: int,
    id: crate::value::NativeMac,
    forms: Seq<SpecValue>,
    fuel: u64,
) -> Outcome<SpecValue>
    decreases fuel, seq_vsize(forms), 3nat, 0nat,
{
    match id {
        crate::value::NativeMac::Assign => spec_set(fr, frame, forms, fuel),
        crate::value::NativeMac::Let => spec_let(fr, frame, forms, fuel),
        crate::value::NativeMac::If => spec_if(fr, frame, forms, fuel),
        crate::value::NativeMac::Defun => match crate::macros::spec_define(fr, frame, forms, false) {
            Ok(fr2) => Outcome { frames: fr2, result: Ok(SpecValue::Nil) },
            Err(e) => Outcome { frames: fr, result: Err(e) },
        },
        crate::value::NativeMac::Defmacro => match crate::macros::spec_define(
            fr,
            frame,
            forms,
            true,
        ) {
            Ok(fr2) => Outcome { frames: fr2, result: Ok(SpecValue::Nil) },
            Err(e) => Outcome { frames: fr, result: Err(e) },
        },
        crate::value::NativeMac::Progn => spec_progn_from(fr, frame, forms, 0, SpecValue::Nil, fuel),
        crate::value::NativeMac::Quote => if forms.len() == 1 {
            Outcome { frames: fr, result: Ok(forms[0]) }
        } else {
            Outcome {
                frames: fr,
                result: Err(SpecError::ArityError("expected only one argument"@)),
            }
        },
    }
}

/// Evaluates the forms from position `i` in order; the result is the last
/// value, `acc` standing for everything already evaluated (nil at the
/// start, so an empty body is nil).
pub open spec fn spec_progn_from(
    fr: Seq<SpecFrame>,
    frame: int,
    forms: Seq<SpecValue>,
    i: int,
    acc: SpecValue,
    fuel: u64,
) -> Outcome<SpecValue>
    decreases fuel, seq_vsize(forms), 1nat, forms.len() - i,
    via spec_progn_from_dec
{
    if !(0 <= i < forms.len()) {
        Outcome { frames: fr, result: Ok(acc) }
    } else {
        let o = spec_eval(fr, frame, forms[i], fuel);
        match o.result {
            Ok(v) => spec_progn_from(o.frames, frame, forms, i + 1, v, fuel),
            Err(e) => Outcome { frames: o.frames, result: Err(e) },
        }
    }
}

#[via_fn]
proof fn spec_progn_from_dec(
    fr: Seq<SpecFrame>,
    frame: int,
    forms: Seq<SpecValue>,
    i: int,
    acc: SpecValue,
    fuel: u64,
) {
    if 0 <= i < forms.len() {
        lemma_seq_vsize_elem(forms, i);
    }
}

/// What `if` does: the condition first, which must come out boolean; on
/// true exactly the second form, on false the rest as an implicit `progn`.
pub open spec fn spec_if(fr: Seq<SpecFrame>, frame: int, forms: Seq<SpecValue>, fuel: u64) -> Outcome<
    SpecValue,
>
    decreases fuel, seq_vsize(forms), 2nat, 0nat,
    via spec_if_dec
{
    if forms.len() == 0 {
        Outcome { frames: fr, result: Err(SpecError::ArityError("expected if condition"@)) }
    } else {
        let o = spec_eval(fr, frame, forms[0], fuel);
        match o.result {
            Ok(c) => if forms.len() < 2 {
                Outcome {
                    frames: o.frames,
                    result: Err(
                        SpecError::ArityError("expected statement to execute when true"@),
                    ),
                }
            } else {
                match c {
                    SpecValue::Boolean(b) => if b {
                        spec_eval(o.frames, frame, forms[1], fuel)
                    } else {
                        spec_progn_from(o.frames, frame, forms, 2, SpecValue::Nil, fuel)
                    },
                    _ => Outcome {
                        frames: o.frames,
                        result: Err(SpecError::TypeError("expected boolean condition"@)),
                    },
                }
            },
            Err(e) => Outcome { frames: o.frames, result: Err(e) },
        }
    }
}

#[via_fn]
proof fn spec_if_dec(fr: Seq<SpecFrame>, frame: int, forms: Seq<SpecValue>, fuel: u64) {
    if forms.len() > 0 {
        lemma_seq_vsize_elem(forms, 0);
        if forms.len() >= 2 {
            lemma_seq_vsize_elem(forms, 1);
        }
    }
}

/// What `set` does: symbol/value pairs, each value evaluated in the current
/// environment and bound there, left to right; the whole form is nil.
pub open spec fn spec_set(fr: Seq<SpecFrame>, frame: int, forms: Seq<SpecValue>, fuel: u64) -> Outcome<
    SpecValue,
>
    decreases fuel, seq_vsize(forms), 2nat, 0nat,
{
    if forms.len() % 2 != 0 {
        Outcome {
            frames: fr,
            result: Err(SpecError::TypeError("uneven symbol and value pairs"@)),
        }
    } else {
        spec_set_from(fr, frame, forms, 0, fuel)
    }
}

pub open spec fn spec_set_from(
    fr: Seq<SpecFrame>,
    frame: int,
    forms: Seq<SpecValue>,
    k: int,
    fuel: u64,
) -> Outcome<SpecValue>
    decreases fuel, seq_vsize(forms), 1nat, forms.len() - k,
    via spec_set_from_dec
{
    if !(0 <= k && k + 2 <= forms.len()) {
        Outcome { frames: fr, result: Ok(SpecValue::Nil) }
    } else {
        match forms[k] {
            SpecValue::Symbol(s) => {
                let o = spec_eval(fr, frame, forms[k + 1], fuel);
                match o.result {
                    Ok(v) => spec_set_from(bind_one(o.frames, frame, s, v), frame, forms, k + 2, fuel),
                    Err(e) => Outcome { frames: o.frames, result: Err(e) },
                }
            },
            _ => Outcome { frames: fr, result: Err(SpecError::TypeError("expected symbol"@)) },
        }
    }
}

#[via_fn]
proof fn spec_set_from_dec(
    fr: Seq<SpecFrame>,
    frame: int,
    forms: Seq<SpecValue>,
    k: int,
    fuel: u64,
) {
    if 0 <= k && k + 2 <= forms.len() {
        lemma_seq_vsize_elem(forms, k + 1);
    }
}

/// What `let` does: one child of the current environment; each binding
/// entry is a bare symbol (bound to nil) or a (symbol init) pair whose init
/// is evaluated in the parent; the remaining forms run in the child as an
/// implicit `progn`.
pub open spec fn spec_let(fr: Seq<SpecFrame>, frame: int, forms: Seq<SpecValue>, fuel: u64) -> Outcome<
    SpecValue,
>
    decreases fuel, seq_vsize(forms), 2nat, 0nat,
    via spec_let_dec
{
    if forms.len() == 0 {
        Outcome { frames: fr, result: Err(SpecError::ArityError("expected variables list"@)) }
    } else {
        match list_elems(forms[0]) {
            Some(vars) => {
                let child = fr.len() as int;
                let fr1 = fr.push(SpecFrame { parent: Some(frame), vars: Map::empty() });
                let o = spec_let_vars(fr1, frame, child, vars, 0, fuel);
                match o.result {
                    Ok(_) => spec_progn_from(o.frames, child, forms, 1, SpecValue::Nil, fuel),
                    Err(e) => Outcome { frames: o.frames, result: Err(e) },
                }
            },
            None => Outcome { frames: fr, result: Err(SpecError::ImproperListError) },
        }
    }
}

#[via_fn]
proof fn spec_let_dec(fr: Seq<SpecFrame>, frame: int, forms: Seq<SpecValue>, fuel: u64) {
    if forms.len() > 0 {
        lemma_seq_vsize_elem(forms, 0);
        if list_elems(forms[0]) is Some {
            lemma_elems_size(forms[0]);
        }
    }
}

pub open spec fn spec_let_vars(
    fr: Seq<SpecFrame>,
    parent: int,
    child: int,
    vars: Seq<SpecValue>,
    i: int,
    fuel: u64,
) -> Outcome<()>
    decreases fuel, seq_vsize(vars), 1nat, vars.len() - i,
    via spec_let_vars_dec
{
    if !(0 <= i < vars.len()) {
        Outcome { frames: fr, result: Ok(()) }
    } else {
        match vars[i] {
            SpecValue::Symbol(s) => spec_let_vars(
                bind_one(fr, child, s, SpecValue::Nil),
                parent,
                child,
                vars,
                i + 1,
                fuel,
            ),
            _ => match spec_symbol_pair(vars[i]) {
                Some(p) => {
                    let o = spec_eval(fr, parent, p.1, fuel);
                    match o.result {
                        Ok(v) => spec_let_vars(
                            bind_one(o.frames, child, p.0, v),
                            parent,
                            child,
                            vars,
                            i + 1,
                            fuel,
                        ),
                        Err(e) => Outcome { frames: o.frames, result: Err(e) },
                    }
                },
                None => Outcome {
                    frames: fr,
                    result: Err(
                        SpecError::TypeError("expected symbol or symbol and value pair"@),
                    ),
                },
            },
        }
    }
}

#[via_fn]
proof fn spec_let_vars_dec(
    fr: Seq<SpecFrame>,
    parent: int,
    child: int,
    vars: Seq<SpecValue>,
    i: int,
    fuel: u64,
) {
    if 0 <= i < vars.len() {
        lemma_seq_vsize_elem(vars, i);
        crate::macros::lemma_var_init_size(vars[i]);
    }
}

/// What calling a closure does: the arguments (evaluated values for a
/// function, unevaluated forms for a fexpr) are bound by the plan in a
/// fresh child of the defining environment, and the stored body runs there.
pub open spec fn spec_closure_call(
    fr: Seq<SpecFrame>,
    fc: SpecFunction,
    argvals: Seq<SpecValue>,
    fuel: u64,
) -> Outcome<SpecValue>
    decreases fuel, fsize(fc), 5nat, 0nat,
    via spec_closure_call_dec
{
    if !(0 <= fc.scope < fr.len()) {
        Outcome { frames: fr, result: Err(SpecError::TypeError("closure scope missing"@)) }
    } else {
        let child = fr.len() as int;
        let fr1 = fr.push(SpecFrame { parent: Some(fc.scope), vars: Map::empty() });
        let o = spec_apply(fr1, child, fc.params, argvals, fuel);
        match o.result {
            Ok(_) => spec_eval(o.frames, child, *fc.body, fuel),
            Err(e) => Outcome { frames: o.frames, result: Err(e) },
        }
    }
}

#[via_fn]
proof fn spec_closure_call_dec(
    fr: Seq<SpecFrame>,
    fc: SpecFunction,
    argvals: Seq<SpecValue>,
    fuel: u64,
) {
    assert(fsize(fc) == 1 + psize(fc.params) + vsize(*fc.body));
}

/// What binding a call's arguments does: the distribution and its errors,
/// then the bindings — required and supplied optional parameters first,
/// then each unsupplied optional's default evaluated in the new frame, the
/// rest parameter as the leftover list, each unsupplied declared keyword's
/// default (or its error), and finally every keyword argument, declared or
/// not.
pub open spec fn spec_apply(
    fr: Seq<SpecFrame>,
    frame: int,
    p: SpecParams,
    argvals: Seq<SpecValue>,
    fuel: u64,
) -> Outcome<()>
    decreases fuel, psize(p), 4nat, 0nat,
{
    match spec_distribute(p, argvals) {
        Err(e) => Outcome { frames: fr, result: Err(e) },
        Ok(p1) => {
            if p1.req.len() < p.required.len() {
                Outcome {
                    frames: fr,
                    result: Err(
                        SpecError::ArityError(
                            "missing required arguments: "@ + spec_join(
                                p.required.subrange(p1.req.len() as int, p.required.len() as int),
                                ", "@,
                            ),
                        ),
                    ),
                }
            } else {
                let fr1 = bind_names(fr, frame, p.required, p1.req, 0);
                let fr2 = bind_opts(fr1, frame, p.optional, p1.opt, 0);
                let o = spec_opt_defaults(fr2, frame, p, p1.opt.len() as int, fuel);
                match o.result {
                    Ok(_) => {
                        let fr4 = match p.rest {
                            Some(rn) => bind_one(o.frames, frame, rn, mk_list(p1.rest)),
                            None => o.frames,
                        };
                        let o2 = spec_kw_defaults(fr4, frame, p, 0, p1.kws, fuel);
                        match o2.result {
                            Ok(kw_all) => Outcome {
                                frames: bind_kws(o2.frames, frame, kw_all, 0),
                                result: Ok(()),
                            },
                            Err(e) => Outcome { frames: o2.frames, result: Err(e) },
                        }
                    },
                    Err(e) => Outcome { frames: o.frames, result: Err(e) },
                }
            }
        },
    }
}

/// Defaults of the unsupplied optional parameters, from position `k`, each
/// evaluated in the new frame (so it sees every earlier binding) and bound.
pub open spec fn spec_opt_defaults(
    fr: Seq<SpecFrame>,
    frame: int,
    p: SpecParams,
    k: int,
    fuel: u64,
) -> Outcome<()>
    decreases fuel, psize(p), 1nat, p.optional.len() - k,
    via spec_opt_defaults_dec
{
    if !(0 <= k < p.optional.len()) {
        Outcome { frames: fr, result: Ok(()) }
    } else {
        let o = spec_eval(fr, frame, p.optional[k].1, fuel);
        match o.result {
            Ok(v) => spec_opt_defaults(
                bind_one(o.frames, frame, p.optional[k].0, v),
                frame,
                p,
                k + 1,
                fuel,
            ),
            Err(e) => Outcome { frames: o.frames, result: Err(e) },
        }
    }
}

#[via_fn]
proof fn spec_opt_defaults_dec(fr: Seq<SpecFrame>, frame: int, p: SpecParams, k: int, fuel: u64) {
    if 0 <= k < p.optional.len() {
        lemma_optdefs_elem(p.optional, k);
    }
}

/// The declared keyword parameters from position `q`: one already supplied
/// in `acc` is left alone; an unsupplied one's default is evaluated in the
/// new frame and appended, and one with no default is the fatal missing
/// keyword argument.
pub open spec fn spec_kw_defaults(
    fr: Seq<SpecFrame>,
    frame: int,
    p: SpecParams,
    q: int,
    acc: Seq<(Seq<char>, SpecValue)>,
    fuel: u64,
) -> Outcome<Seq<(Seq<char>, SpecValue)>>
    decreases fuel, psize(p), 1nat, p.keyword.len() - q,
    via spec_kw_defaults_dec
{
    if !(0 <= q < p.keyword.len()) {
        Outcome { frames: fr, result: Ok(acc) }
    } else {
        let key = p.keyword[q].0;
        if kws_contain(acc, key) {
            spec_kw_defaults(fr, frame, p, q + 1, acc, fuel)
        } else {
            match p.keyword[q].1 {
                Some(d) => {
                    let o = spec_eval(fr, frame, d, fuel);
                    match o.result {
                        Ok(v) => spec_kw_defaults(
                            o.frames,
                            frame,
                            p,
                            q + 1,
                            acc.push((key, v)),
                            fuel,
                        ),
                        Err(e) => Outcome { frames: o.frames, result: Err(e) },
                    }
                },
                None => Outcome {
                    frames: fr,
                    result: Err(SpecError::MissingKeywordArgument(key)),
                },
            }
        }
    }
}

#[via_fn]
proof fn spec_kw_defaults_dec(
    fr: Seq<SpecFrame>,
    frame: int,
    p: SpecParams,
    q: int,
    acc: Seq<(Seq<char>, SpecValue)>,
    fuel: u64,
) {
    if 0 <= q < p.keyword.len() {
        lemma_kwdefs_elem(p.keyword, q);
    }
}

} // verus!
