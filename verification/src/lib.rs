use vstd::prelude::*;

pub mod errors;
pub mod expr;
pub mod floats;
pub mod function;
pub mod functions;
pub mod macros;
pub mod params;
pub mod parser;
pub mod scope;
pub mod semantics;
pub mod template;
pub mod text;
pub mod value;

pub use errors::Error;
use errors::SpecError;
pub use function::{Function, Macro};
pub use params::Params;
pub use value::{NativeFn, NativeMac, Value};

verus! {

/// How many nested user-function calls one evaluation may make before it is
/// cut off with a `DepthLimit` error.
pub const EVAL_DEPTH_LIMIT: u64 = 1000000;

/// Evaluates one form against a fresh root environment, as the evaluation
/// semantics states it.
pub fn eval(expr: Value) -> (r: Result<Value, Error>)
    ensures
        ({
            let o = crate::semantics::spec_eval(
                crate::scope::root_frames(),
                0,
                expr@,
                EVAL_DEPTH_LIMIT,
            );
            match r {
                Ok(v) => o.result == Ok::<crate::value::SpecValue, SpecError>(v@),
                Err(e) => o.result == Err::<crate::value::SpecValue, SpecError>(e@),
            }
        }),
        crate::value::self_evaluating(expr@) ==> (r matches Ok(v) && v@ == expr@),
        expr@ matches crate::value::SpecValue::Symbol(s) ==> (match crate::scope::spec_get_value(
            crate::scope::root_frames(),
            0,
            s,
        ) {
            Ok(v) => r matches Ok(rv) && rv@ == v,
            Err(e) => r matches Err(re) && re@ == e,
        }),
{
    let mut sc = crate::scope::Scope::root();
    proof {
        assert(sc@ =~= crate::scope::root_frames());
    }
    expr.eval(&mut sc, 0, EVAL_DEPTH_LIMIT)
}

/// Reads a whole source text into one evaluatable form.
pub fn read(text: &str) -> (r: Result<crate::value::Value, Error>)
    ensures
        match r {
            Ok(v) => crate::parser::spec_read(text@) == Ok::<crate::value::SpecValue, SpecError>(v@),
            Err(e) => crate::parser::spec_read(text@) == Err::<crate::value::SpecValue, SpecError>(e@),
        },
{
    let cs = crate::text::str_chars(text);
    let mut exprs = match crate::parser::exprs_at(&cs, 0) {
        Ok(Some((j, es))) => {
            if j == cs.len() {
                es
            } else {
                return Err(Error::SyntaxError(String::from_str("expected end of input")));
            }
        },
        Ok(None) => {
            return Err(Error::SyntaxError(String::from_str("expected end of input")));
        },
        Err(e) => {
            return Err(e);
        },
    };
    let ghost es = exprs.deep_view();
    proof {
        crate::parser::lemma_exprs_no_markers(cs@, 0);
        crate::expr::lemma_into_values(es);
    }
    if exprs.len() == 0 {
        return Ok(crate::value::Value::Nil);
    }
    if exprs.len() == 1 {
        let e = exprs.remove(0);
        return Ok(e.into_value());
    }
    let ghost orig = exprs@;
    proof {
        crate::expr::lemma_eviews(orig);
    }
    let n = exprs.len();
    let mut vals: Vec<crate::value::Value> = Vec::new();
    let mut rest = exprs;
    let mut i: usize = 0;
    proof {
        assert(rest@ =~= orig.subrange(0, n as int));
        assert(vals.deep_view() =~= crate::expr::into_values(es).subrange(0, 0));
    }
    while i < n
        invariant
            es.len() == n,
            orig.len() == n,
            es == crate::expr::eviews(orig),
            i <= n,
            rest@ =~= orig.subrange(i as int, n as int),
            forall|j: int| 0 <= j < n ==> #[trigger] es[j] == crate::expr::eview(orig[j]),
            forall|j: int| 0 <= j < n ==> crate::expr::no_markers(#[trigger] es[j]),
            vals.deep_view() =~= crate::expr::into_values(es).subrange(0, i as int),
        decreases n - i,
    {
        let ghost prevv = vals.deep_view();
        let e = rest.remove(0);
        proof {
            crate::expr::lemma_into_values(es);
            assert(e == orig[i as int]);
            assert(rest@ =~= orig.subrange(i + 1, n as int));
        }
        let v = e.into_value();
        vals.push(v);
        proof {
            assert(vals.deep_view() =~= prevv.push(crate::expr::spec_into_value(es[i as int])));
            assert(crate::expr::into_values(es).subrange(0, i + 1) =~= crate::expr::into_values(
                es,
            ).subrange(0, i as int).push(crate::expr::into_values(es)[i as int]));
        }
        i = i + 1;
    }
    proof {
        assert(vals.deep_view() =~= crate::expr::into_values(es));
    }
    Ok(crate::value::Value::progn(std::rc::Rc::new(crate::value::Value::list(vals))))
}

/// Reads and evaluates a whole source text against a fresh root
/// environment.
pub fn read_and_eval(expr: &str) -> (r: Result<crate::value::Value, Error>)
    ensures
        match crate::parser::spec_read(expr@) {
            Ok(v0) => ({
                let o = crate::semantics::spec_eval(
                    crate::scope::root_frames(),
                    0,
                    v0,
                    EVAL_DEPTH_LIMIT,
                );
                match r {
                    Ok(rv) => o.result == Ok::<crate::value::SpecValue, SpecError>(rv@),
                    Err(re) => o.result == Err::<crate::value::SpecValue, SpecError>(re@),
                }
            }),
            Err(e0) => r matches Err(e) && e@ == e0,
        },
{
    match read(expr) {
        Ok(v) => eval(v),
        Err(e) => Err(e),
    }
}

} // verus!
