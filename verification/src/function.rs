use vstd::prelude::*;
use std::rc::Rc;
use crate::params::{Params, SpecParams, psize, pview};
use crate::value::{Value, SpecValue, vview, vsize};

verus! {

/// A user-defined function: a closure over the environment where its `defun`
/// ran. Its body is the implicit `progn` of the defining body forms.
#[derive(Debug, PartialEq)]
pub struct Function {
    pub name: String,
    pub params: Params,
    pub expr: Value,
    pub parent_scope: usize,
}

/// A user-defined fexpr: the same shape as `Function`, but called on the
/// unevaluated argument forms.
#[derive(Debug, PartialEq)]
pub struct Macro {
    pub name: String,
    pub params: Params,
    pub expr: Value,
    pub parent_scope: usize,
}

/// Mathematical model shared by `Function` and `Macro`: the two differ only
/// in how the evaluator calls them.
pub struct SpecFunction {
    pub name: Seq<char>,
    pub params: SpecParams,
    pub body: Box<SpecValue>,
    pub scope: int,
}

pub open spec fn fview(f: Function) -> SpecFunction
    decreases f,
{
    SpecFunction {
        name: f.name@,
        params: pview(f.params),
        body: Box::new(vview(f.expr)),
        scope: f.parent_scope as int,
    }
}

pub open spec fn mview(m: Macro) -> SpecFunction
    decreases m,
{
    SpecFunction {
        name: m.name@,
        params: pview(m.params),
        body: Box::new(vview(m.expr)),
        scope: m.parent_scope as int,
    }
}

impl View for Function {
    type V = SpecFunction;

    open spec fn view(&self) -> SpecFunction {
        fview(*self)
    }
}

impl DeepView for Function {
    type V = SpecFunction;

    open spec fn deep_view(&self) -> SpecFunction {
        fview(*self)
    }
}

impl View for Macro {
    type V = SpecFunction;

    open spec fn view(&self) -> SpecFunction {
        mview(*self)
    }
}

impl DeepView for Macro {
    type V = SpecFunction;

    open spec fn deep_view(&self) -> SpecFunction {
        mview(*self)
    }
}

/// Structural size of a closure record: larger than its parameter plan and
/// its body, so that one call's work is measurably smaller.
pub open spec fn fsize(f: SpecFunction) -> nat
    decreases f,
{
    1 + psize(f.params) + vsize(*f.body)
}


impl Function {
    /// Compiles the parameter spec and captures the defining environment,
    /// wrapping the body forms in an implicit `progn`.
    pub fn define(name: String, params: &Value, body: Rc<Value>, parent_scope: usize) -> (r:
        Result<Function, crate::errors::Error>)
        ensures
            match r {
                Ok(f) => crate::params::spec_params_of(params@) matches Ok(ps) && f@
                    == (SpecFunction {
                    name: name@,
                    params: ps,
                    body: Box::new(
                        SpecValue::Cons(
                            Box::new(SpecValue::Symbol("progn"@)),
                            Box::new(body.deep_view()),
                        ),
                    ),
                    scope: parent_scope as int,
                }),
                Err(e) => crate::params::spec_params_of(params@) == Err::<
                    crate::params::SpecParams,
                    crate::errors::SpecError,
                >(e@),
            },
    {
        let plan = match Params::parse(params) {
            Ok(p) => p,
            Err(e) => {
                return Err(e);
            },
        };
        Ok(Function { name, params: plan, expr: Value::progn(body), parent_scope })
    }

    /// Calls the function: binds the already evaluated arguments in a fresh
    /// child of the defining environment and evaluates the body there.
    pub fn call(&self, args: Vec<Value>, sc: &mut crate::scope::Scope, fuel: u64) -> (r: Result<
        Value,
        crate::errors::Error,
    >)
        requires
            old(sc).wf(),
        ensures
            final(sc).wf(),
            old(sc).frames@.len() <= final(sc).frames@.len(),
            crate::scope::frames_preserved(old(sc)@, final(sc)@),
            crate::semantics::returns_value(
                crate::semantics::spec_closure_call(old(sc)@, fview(*self), args.deep_view(), fuel),
                final(sc)@,
                r,
            ),
        decreases fuel, fsize(fview(*self)), 3nat,
    {
        if self.parent_scope >= sc.frames.len() {
            return Err(crate::errors::Error::TypeError(String::from_str("closure scope missing")));
        }
        let child = sc.push(self.parent_scope);
        proof {
            assert(psize(pview(self.params)) < fsize(fview(*self)));
        }
        match self.params.apply(sc, child, args, fuel) {
            Ok(()) => {},
            Err(e) => {
                return Err(e);
            },
        }
        proof {
            assert(vsize(vview(self.expr)) < fsize(fview(*self)));
        }
        self.expr.eval(sc, child, fuel)
    }
}

impl Macro {
    /// Compiles the parameter spec and captures the defining environment,
    /// wrapping the body forms in an implicit `progn`.
    pub fn define(name: String, params: &Value, body: Rc<Value>, parent_scope: usize) -> (r:
        Result<Macro, crate::errors::Error>)
        ensures
            match r {
                Ok(m) => crate::params::spec_params_of(params@) matches Ok(ps) && m@
                    == (SpecFunction {
                    name: name@,
                    params: ps,
                    body: Box::new(
                        SpecValue::Cons(
                            Box::new(SpecValue::Symbol("progn"@)),
                            Box::new(body.deep_view()),
                        ),
                    ),
                    scope: parent_scope as int,
                }),
                Err(e) => crate::params::spec_params_of(params@) == Err::<
                    crate::params::SpecParams,
                    crate::errors::SpecError,
                >(e@),
            },
    {
        let plan = match Params::parse(params) {
            Ok(p) => p,
            Err(e) => {
                return Err(e);
            },
        };
        Ok(Macro { name, params: plan, expr: Value::progn(body), parent_scope })
    }

    /// Calls the fexpr: binds the unevaluated argument forms in a fresh
    /// child of the defining environment and evaluates the body there.
    pub fn call(&self, args: Vec<Value>, sc: &mut crate::scope::Scope, fuel: u64) -> (r: Result<
        Value,
        crate::errors::Error,
    >)
        requires
            old(sc).wf(),
        ensures
            final(sc).wf(),
            old(sc).frames@.len() <= final(sc).frames@.len(),
            crate::scope::frames_preserved(old(sc)@, final(sc)@),
            crate::semantics::returns_value(
                crate::semantics::spec_closure_call(old(sc)@, mview(*self), args.deep_view(), fuel),
                final(sc)@,
                r,
            ),
        decreases fuel, fsize(mview(*self)), 3nat,
    {
        if self.parent_scope >= sc.frames.len() {
            return Err(crate::errors::Error::TypeError(String::from_str("closure scope missing")));
        }
        let child = sc.push(self.parent_scope);
        proof {
            assert(psize(pview(self.params)) < fsize(mview(*self)));
        }
        match self.params.apply(sc, child, args, fuel) {
            Ok(()) => {},
            Err(e) => {
                return Err(e);
            },
        }
        proof {
            assert(vsize(vview(self.expr)) < fsize(mview(*self)));
        }
        self.expr.eval(sc, child, fuel)
    }
}

} // verus!
