use vstd::prelude::*;
use std::rc::Rc;
use crate::value::{Value, SpecValue, NativeFn, mk_list, list_elems, spec_val_eq, val_eq, vview, lemma_vview_kinds};
use crate::errors::{Error, SpecError};
use crate::floats::{float_add_bits, float_of_int, add_float_bits, int_to_float_bits};
use crate::text::{spec_text, texts_of, spec_format, format_text, print_line};

verus! {

broadcast use vstd::seq::group_seq_axioms, vstd::std_specs::vec::group_vec_axioms;

/// The sum of two numbers, with integer addition wrapping on overflow and any
/// float operand promoting the result to a float; anything else is a type
/// error.
pub open spec fn spec_add2(a: SpecValue, b: SpecValue) -> Result<SpecValue, SpecError> {
    match (a, b) {
        (SpecValue::Integer(x), SpecValue::Integer(y)) => Ok(
            SpecValue::Integer(x.wrapping_add(y)),
        ),
        (SpecValue::Integer(x), SpecValue::Float(y)) => Ok(
            SpecValue::Float(float_add_bits(float_of_int(x), y)),
        ),
        (SpecValue::Float(x), SpecValue::Integer(y)) => Ok(
            SpecValue::Float(float_add_bits(x, float_of_int(y))),
        ),
        (SpecValue::Float(x), SpecValue::Float(y)) => Ok(SpecValue::Float(float_add_bits(x, y))),
        _ => Err(SpecError::TypeError("cannot add values"@)),
    }
}

pub open spec fn spec_fold_plus(acc: SpecValue, s: Seq<SpecValue>) -> Result<SpecValue, SpecError>
    decreases s.len(),
{
    if s.len() == 0 {
        Ok(acc)
    } else {
        match spec_add2(acc, s[0]) {
            Ok(v) => spec_fold_plus(v, s.subrange(1, s.len() as int)),
            Err(e) => Err(e),
        }
    }
}

/// What `+` returns: the left-to-right sum of the arguments, or the first
/// failure; at least one argument is required.
pub open spec fn spec_plus(s: Seq<SpecValue>) -> Result<SpecValue, SpecError> {
    if s.len() == 0 {
        Err(SpecError::ArityError("expected at least one argument"@))
    } else {
        spec_fold_plus(s[0], s.subrange(1, s.len() as int))
    }
}

/// Summing values that are all integers yields an integer: the sum never
/// silently becomes a float.
pub proof fn lemma_plus_integers(s: Seq<SpecValue>)
    requires
        s.len() > 0,
        forall|i: int| 0 <= i < s.len() ==> s[i] is Integer,
    ensures
        spec_plus(s) matches Ok(v) && v is Integer,
{
    lemma_fold_plus_integers(s[0], s.subrange(1, s.len() as int));
}

proof fn lemma_fold_plus_integers(acc: SpecValue, s: Seq<SpecValue>)
    requires
        acc is Integer,
        forall|i: int| 0 <= i < s.len() ==> s[i] is Integer,
    ensures
        spec_fold_plus(acc, s) matches Ok(v) && v is Integer,
    decreases s.len(),
{
    if s.len() > 0 {
        let next = spec_add2(acc, s[0])->Ok_0;
        lemma_fold_plus_integers(next, s.subrange(1, s.len() as int));
    }
}

fn add2(a: &Value, b: &Value) -> (r: Result<Value, Error>)
    ensures
        match r {
            Ok(v) => spec_add2(a@, b@) == Ok::<SpecValue, SpecError>(v@),
            Err(e) => spec_add2(a@, b@) == Err::<SpecValue, SpecError>(e@),
        },
{
    match (a, b) {
        (Value::Integer(x), Value::Integer(y)) => Ok(Value::Integer(x.wrapping_add(*y))),
        (Value::Integer(x), Value::Float(y)) => Ok(
            Value::Float(add_float_bits(int_to_float_bits(*x), *y)),
        ),
        (Value::Float(x), Value::Integer(y)) => Ok(
            Value::Float(add_float_bits(*x, int_to_float_bits(*y))),
        ),
        (Value::Float(x), Value::Float(y)) => Ok(Value::Float(add_float_bits(*x, *y))),
        _ => {
            proof {
                lemma_vview_kinds(a);
                lemma_vview_kinds(b);
            }
            Err(Error::TypeError(String::from_str("cannot add values")))
        },
    }
}

/// The `+` native.
fn plus(args: Vec<Value>) -> (r: Result<Value, Error>)
    ensures
        match r {
            Ok(v) => spec_plus(args.deep_view()) == Ok::<SpecValue, SpecError>(v@),
            Err(e) => spec_plus(args.deep_view()) == Err::<SpecValue, SpecError>(e@),
        },
{
    let ghost all = args.deep_view();
    if args.len() == 0 {
        return Err(Error::ArityError(String::from_str("expected at least one argument")));
    }
    let n = args.len();
    let mut acc = args[0].clone();
    proof {
        assert(all[0] == args@[0]@);
    }
    let mut i: usize = 1;
    while i < n
        invariant
            all == args.deep_view(),
            n == all.len(),
            n == args@.len(),
            1 <= i <= n,
            spec_plus(all) == spec_fold_plus(acc@, all.subrange(i as int, n as int)),
        decreases n - i,
    {
        let ghost rest = all.subrange(i as int, n as int);
        let next = match add2(&acc, &args[i]) {
            Ok(v) => v,
            Err(e) => {
                proof {
                    assert(rest[0] == all[i as int]);
                    assert(all[i as int] == args@[i as int]@);
                    assert(spec_fold_plus(acc@, rest) == Err::<SpecValue, SpecError>(e@));
                }
                return Err(e);
            },
        };
        proof {
            assert(rest[0] == all[i as int]);
            assert(all[i as int] == args@[i as int]@);
            assert(rest.subrange(1, rest.len() as int) =~= all.subrange(i + 1, n as int));
        }
        acc = next;
        i = i + 1;
    }
    proof {
        assert(all.subrange(n as int, n as int) =~= Seq::<SpecValue>::empty());
    }
    Ok(acc)
}

/// The `list` native: its arguments as a proper list.
fn list(args: Vec<Value>) -> (r: Result<Value, Error>)
    ensures
        r matches Ok(v) && v@ == mk_list(args.deep_view()),
{
    Ok(Value::list(args))
}

/// The concatenation of the elements of the given proper lists, or an error
/// where any argument is no proper list.
pub open spec fn spec_concat(s: Seq<SpecValue>) -> Result<Seq<SpecValue>, SpecError>
    decreases s.len(),
{
    if s.len() == 0 {
        Ok(Seq::empty())
    } else {
        match list_elems(s[0]) {
            Some(e) => match spec_concat(s.subrange(1, s.len() as int)) {
                Ok(r) => Ok(e + r),
                Err(err) => Err(err),
            },
            None => Err(SpecError::ImproperListError),
        }
    }
}

/// What `append` returns: one proper list holding the elements of all the
/// argument lists in order.
pub open spec fn spec_append(s: Seq<SpecValue>) -> Result<SpecValue, SpecError> {
    match spec_concat(s) {
        Ok(e) => Ok(mk_list(e)),
        Err(err) => Err(err),
    }
}

/// The `append` native.
fn append(args: Vec<Value>) -> (r: Result<Value, Error>)
    ensures
        match r {
            Ok(v) => spec_append(args.deep_view()) == Ok::<SpecValue, SpecError>(v@),
            Err(e) => spec_append(args.deep_view()) == Err::<SpecValue, SpecError>(e@),
        },
{
    let ghost all = args.deep_view();
    let n = args.len();
    let mut acc: Vec<Rc<Value>> = Vec::new();
    let mut i: usize = 0;
    proof {
        assert(all.subrange(0, n as int) =~= all);
        assert(acc.deep_view() =~= Seq::<SpecValue>::empty());
    }
    while i < n
        invariant
            all == args.deep_view(),
            n == all.len(),
            n == args@.len(),
            i <= n,
            match spec_concat(all.subrange(i as int, n as int)) {
                Ok(r) => spec_concat(all) == Ok::<Seq<SpecValue>, SpecError>(acc.deep_view() + r),
                Err(e) => spec_concat(all) == Err::<Seq<SpecValue>, SpecError>(e),
            },
        decreases n - i,
    {
        let ghost rest = all.subrange(i as int, n as int);
        proof {
            assert(rest[0] == all[i as int]);
            assert(all[i as int] == args@[i as int]@);
            assert(rest.subrange(1, rest.len() as int) =~= all.subrange(i + 1, n as int));
        }
        match args[i].as_list() {
            Some(mut part) => {
                let ghost accv = acc.deep_view();
                let ghost partv = part.deep_view();
                acc.append(&mut part);
                proof {
                    assert(acc.deep_view() =~= accv + partv);
                    match spec_concat(all.subrange(i + 1, n as int)) {
                        Ok(r) => {
                            assert((accv + partv) + r =~= accv + (partv + r));
                        },
                        Err(_) => {},
                    }
                }
            },
            None => {
                return Err(Error::ImproperListError);
            },
        }
        i = i + 1;
    }
    proof {
        assert(all.subrange(n as int, n as int) =~= Seq::<SpecValue>::empty());
        match spec_concat(all) {
            Ok(r) => {
                assert(acc.deep_view() + Seq::<SpecValue>::empty() =~= acc.deep_view());
            },
            Err(_) => {},
        }
    }
    Ok(Value::list_rc(acc))
}

/// What `=` returns: whether its two arguments are structurally equal.
pub open spec fn spec_equal(s: Seq<SpecValue>) -> Result<SpecValue, SpecError> {
    if s.len() != 2 {
        Err(SpecError::ArityError("expected two arguments"@))
    } else {
        Ok(SpecValue::Boolean(spec_val_eq(s[0], s[1])))
    }
}

/// The `=` native.
fn equal(args: Vec<Value>) -> (r: Result<Value, Error>)
    ensures
        match r {
            Ok(v) => spec_equal(args.deep_view()) == Ok::<SpecValue, SpecError>(v@),
            Err(e) => spec_equal(args.deep_view()) == Err::<SpecValue, SpecError>(e@),
        },
{
    if args.len() != 2 {
        return Err(Error::ArityError(String::from_str("expected two arguments")));
    }
    proof {
        assert(args.deep_view()[0] == args@[0]@);
        assert(args.deep_view()[1] == args@[1]@);
    }
    Ok(Value::Boolean(val_eq(&args[0], &args[1])))
}

/// What `println` returns: `Nil` after substituting the rendered arguments
/// into the format string; an error where the first argument is missing or no
/// string, or where the format string and the arguments do not agree.
pub open spec fn spec_println(s: Seq<SpecValue>) -> Result<SpecValue, SpecError> {
    if s.len() == 0 {
        Err(SpecError::ArityError("expected a format string"@))
    } else {
        match s[0] {
            SpecValue::Str(f) => match spec_format(
                f,
                texts_of(s.subrange(1, s.len() as int)),
            ) {
                Some(_) => Ok(SpecValue::Nil),
                None => Err(SpecError::TypeError("invalid format string or arguments"@)),
            },
            _ => Err(SpecError::TypeError("expected string"@)),
        }
    }
}

/// The `println` native.
fn println(args: Vec<Value>) -> (r: Result<Value, Error>)
    ensures
        match r {
            Ok(v) => spec_println(args.deep_view()) == Ok::<SpecValue, SpecError>(v@),
            Err(e) => spec_println(args.deep_view()) == Err::<SpecValue, SpecError>(e@),
        },
{
    let ghost all = args.deep_view();
    if args.len() == 0 {
        return Err(Error::ArityError(String::from_str("expected a format string")));
    }
    proof {
        assert(all[0] == args@[0]@);
        lemma_vview_kinds(&args@[0]);
    }
    let fmt = match &args[0] {
        Value::String(f) => f.clone(),
        _ => {
            return Err(Error::TypeError(String::from_str("expected string")));
        },
    };
    let n = args.len();
    let mut vals: Vec<String> = Vec::new();
    let mut i: usize = 1;
    while i < n
        invariant
            all == args.deep_view(),
            n == all.len(),
            n == args@.len(),
            1 <= i <= n,
            vals.deep_view() =~= texts_of(all.subrange(1, n as int)).subrange(0, i - 1),
        decreases n - i,
    {
        proof {
            assert(all[i as int] == args@[i as int]@);
        }
        let ghost prev = vals.deep_view();
        let t = args[i].to_text();
        vals.push(t);
        proof {
            assert(vals.deep_view() =~= prev.push(t@));
            let big = texts_of(all.subrange(1, n as int));
            assert(big[i - 1] == spec_text(all.subrange(1, n as int)[i - 1]));
            assert(all.subrange(1, n as int)[i - 1] == all[i as int]);
            assert(t@ == big[i - 1]);
            assert(prev.push(t@) =~= big.subrange(0, i as int));
        }
        i = i + 1;
    }
    proof {
        assert(vals.deep_view() =~= texts_of(all.subrange(1, n as int)));
    }
    match format_text(fmt.as_str(), &vals) {
        Some(line) => {
            print_line(line.as_str());
            Ok(Value::Nil)
        },
        None => Err(Error::TypeError(String::from_str("invalid format string or arguments"))),
    }
}

/// What each native function returns, by its dispatch key.
pub open spec fn spec_dispatch(id: NativeFn, s: Seq<SpecValue>) -> Result<SpecValue, SpecError> {
    match id {
        NativeFn::Println => spec_println(s),
        NativeFn::List => Ok(mk_list(s)),
        NativeFn::Append => spec_append(s),
        NativeFn::Equal => spec_equal(s),
        NativeFn::Plus => spec_plus(s),
    }
}

/// The dispatch table: runs the native function named by `id` on evaluated
/// arguments.
pub(crate) fn dispatch_native(id: NativeFn, args: Vec<Value>) -> (r: Result<Value, Error>)
    ensures
        match r {
            Ok(v) => spec_dispatch(id, args.deep_view()) == Ok::<SpecValue, SpecError>(v@),
            Err(e) => spec_dispatch(id, args.deep_view()) == Err::<SpecValue, SpecError>(e@),
        },
{
    match id {
        NativeFn::Println => println(args),
        NativeFn::List => list(args),
        NativeFn::Append => append(args),
        NativeFn::Equal => equal(args),
        NativeFn::Plus => plus(args),
    }
}

/// The bindings the native function library contributes to a scope frame.
pub open spec fn with_native_entries(m: Map<Seq<char>, SpecValue>) -> Map<Seq<char>, SpecValue> {
    m.insert("println"@, SpecValue::NativeFunction("println"@, NativeFn::Println)).insert(
        "list"@,
        SpecValue::NativeFunction("list"@, NativeFn::List),
    ).insert("append"@, SpecValue::NativeFunction("append"@, NativeFn::Append)).insert(
        "="@,
        SpecValue::NativeFunction("equal"@, NativeFn::Equal),
    ).insert("+"@, SpecValue::NativeFunction("plus"@, NativeFn::Plus))
}

/// Adds the native function library to a scope frame.
pub fn register(sc: &mut crate::scope::Scope, frame: usize) -> (r: ())
    requires
        old(sc).wf(),
        frame < old(sc).frames@.len(),
    ensures
        final(sc).wf(),
        final(sc).frames@.len() == old(sc).frames@.len(),
        final(sc)@ == old(sc)@.update(
            frame as int,
            crate::scope::SpecFrame {
                parent: old(sc)@[frame as int].parent,
                vars: with_native_entries(old(sc)@[frame as int].vars),
            },
        ),
{
    sc.set_value(frame, String::from_str("println"), Value::NativeFunction(String::from_str("println"), NativeFn::Println));
    sc.set_value(frame, String::from_str("list"), Value::NativeFunction(String::from_str("list"), NativeFn::List));
    sc.set_value(frame, String::from_str("append"), Value::NativeFunction(String::from_str("append"), NativeFn::Append));
    sc.set_value(frame, String::from_str("="), Value::NativeFunction(String::from_str("equal"), NativeFn::Equal));
    sc.set_value(frame, String::from_str("+"), Value::NativeFunction(String::from_str("plus"), NativeFn::Plus));
    proof {
        assert(final(sc)@ =~= old(sc)@.update(
            frame as int,
            crate::scope::SpecFrame {
                parent: old(sc)@[frame as int].parent,
                vars: with_native_entries(old(sc)@[frame as int].vars),
            },
        ));
    }
}

} // verus!
