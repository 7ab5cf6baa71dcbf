use rasp::errors::Error;
use rasp::read_and_eval;
use rasp::value::{Reduce, Value};

#[test]
pub fn eval_set() {
    assert_eq!(
        read_and_eval(
            "(set a 2 b 3)\
                                  (+ a b)"
        )
        .unwrap(),
        Value::Integer(5)
    );
}

#[test]
pub fn eval_let() {
    assert_eq!(
        read_and_eval(
            "(let ((a 2) (b 3))\
                                    (+ a b))"
        )
        .unwrap(),
        Value::Integer(5)
    );
}

#[test]
pub fn eval_after_let() {
    assert_eq!(
        read_and_eval(
            "(set a 10 b 20)\
                                  (let ((a 2)\
                                        (b 3))\
                                    (+ a b)) (+ a b)"
        )
        .unwrap(),
        Value::Integer(30)
    );
}

#[test]
pub fn eval_defun() {
    assert_eq!(
        read_and_eval(
            "(defun plus (a b)\
                                    (+ a b))\
                                  (plus 4 6)"
        )
        .unwrap(),
        Value::Integer(10)
    );
}

#[test]
pub fn eval_addition() {
    assert_eq!(
        read_and_eval("(+ 1 2.4)").unwrap(),
        Value::Float((3.4f64).to_bits())
    );
}

#[test]
pub fn eval_nested_addition() {
    assert_eq!(
        read_and_eval("(+ (+ 3.1 1) 2.4)").unwrap(),
        Value::Float((6.5f64).to_bits())
    );
}

#[test]
fn literal_integer_round_trip() {
    assert_eq!(read_and_eval("42").unwrap(), Value::Integer(42));
}

#[test]
fn literal_float_round_trip() {
    assert_eq!(read_and_eval("3.5").unwrap(), Value::Float((3.5f64).to_bits()));
}

#[test]
fn literal_string_round_trip() {
    assert_eq!(
        read_and_eval("\"hi\"").unwrap(),
        Value::String("hi".to_string())
    );
}

#[test]
fn integer_sum_stays_integer() {
    assert_eq!(read_and_eval("(+ 1 2 3)").unwrap(), Value::Integer(6));
}

#[test]
fn single_argument_sum() {
    assert_eq!(read_and_eval("(+ 7)").unwrap(), Value::Integer(7));
}

#[test]
fn float_promotes_on_either_side() {
    assert_eq!(
        read_and_eval("(+ 2.5 1)").unwrap(),
        Value::Float((3.5f64).to_bits())
    );
}

#[test]
fn closure_captures_definition_scope() {
    assert_eq!(
        read_and_eval("(set x 1) (defun getx () x) (getx)").unwrap(),
        Value::Integer(1)
    );
}

#[test]
fn closure_sees_later_mutation() {
    assert_eq!(
        read_and_eval("(set x 1) (defun getx () x) (set x 5) (getx)").unwrap(),
        Value::Integer(5)
    );
}

#[test]
fn parameter_spec_full_ordering_accepted() {
    assert_eq!(
        read_and_eval("(defun f (a (b 1) ...rest :k) 0)").unwrap(),
        Value::Nil
    );
}

#[test]
fn parameter_spec_required_after_rest_rejected() {
    match read_and_eval("(defun f (a ...rest b) 0)") {
        Err(Error::ParameterSpecError(_)) => {}
        other => panic!("expected a parameter spec error, got {:?}", other),
    }
}

#[test]
fn optional_parameter_default_and_override() {
    assert_eq!(
        read_and_eval("(defun f (a (b 2)) (+ a b)) (f 1)").unwrap(),
        Value::Integer(3)
    );
    assert_eq!(
        read_and_eval("(defun f (a (b 2)) (+ a b)) (f 1 5)").unwrap(),
        Value::Integer(6)
    );
}

#[test]
fn rest_parameter_collects_leftovers() {
    assert_eq!(
        read_and_eval("(defun f (...r) r) (f 1 2)").unwrap(),
        Value::list(vec![Value::Integer(1), Value::Integer(2)])
    );
}

#[test]
fn keyword_parameter_supplied() {
    assert_eq!(
        read_and_eval("(defun f (a :k) (+ a k)) (f 1 :k 2)").unwrap(),
        Value::Integer(3)
    );
}

#[test]
fn keyword_parameter_default() {
    assert_eq!(
        read_and_eval("(defun f (a (:k 10)) (+ a k)) (f 1)").unwrap(),
        Value::Integer(11)
    );
}

#[test]
fn undeclared_keyword_argument_is_bound() {
    assert_eq!(
        read_and_eval("(defun f (a) b) (f 1 :b 7)").unwrap(),
        Value::Integer(7)
    );
}

#[test]
fn missing_keyword_argument_fails() {
    match read_and_eval("(defun f (:k) k) (f)") {
        Err(Error::MissingKeywordArgument(name)) => assert_eq!(name, "k"),
        other => panic!("expected a missing keyword argument error, got {:?}", other),
    }
}

#[test]
fn duplicate_keyword_argument_fails() {
    match read_and_eval("(defun f (:k) k) (f :k 1 :k 2)") {
        Err(Error::DuplicateKeyword(name)) => assert_eq!(name, "k"),
        other => panic!("expected a duplicate keyword error, got {:?}", other),
    }
}

#[test]
fn unbound_symbol_aborts() {
    match read_and_eval("foo") {
        Err(Error::UnboundSymbol(name)) => assert_eq!(name, "foo"),
        other => panic!("expected an unbound symbol error, got {:?}", other),
    }
}

#[test]
fn calling_nil_aborts() {
    match read_and_eval("(nil)") {
        Err(Error::TypeError(_)) => {}
        other => panic!("expected a type error, got {:?}", other),
    }
}

#[test]
fn too_few_arguments_abort() {
    match read_and_eval("(defun f (a b) a) (f 1)") {
        Err(Error::ArityError(msg)) => assert_eq!(msg, "missing required arguments: b"),
        other => panic!("expected an arity error, got {:?}", other),
    }
}

#[test]
fn too_many_arguments_abort() {
    match read_and_eval("(defun f (a) a) (f 1 2)") {
        Err(Error::ArityError(_)) => {}
        other => panic!("expected an arity error, got {:?}", other),
    }
}

#[test]
fn quasiquote_compiles_and_evaluates() {
    assert_eq!(
        read_and_eval("(set var 5) `(println ,var)").unwrap(),
        Value::list(vec![Value::symbol("println"), Value::Integer(5)])
    );
}

#[test]
fn unquote_splice_inside_template() {
    assert_eq!(
        read_and_eval("(set xs (list 1 2)) `(a ,@xs)").unwrap(),
        Value::list(vec![Value::symbol("a"), Value::Integer(1), Value::Integer(2)])
    );
}

#[test]
fn comma_outside_backquote_is_fatal() {
    match read_and_eval(",var") {
        Err(Error::SyntaxError(_)) => {}
        other => panic!("expected a syntax error, got {:?}", other),
    }
}

#[test]
fn if_takes_the_true_branch_only() {
    assert_eq!(read_and_eval("(if true 1 2)").unwrap(), Value::Integer(1));
    assert_eq!(read_and_eval("(if false 1 2 3)").unwrap(), Value::Integer(3));
}

#[test]
fn if_requires_a_boolean() {
    match read_and_eval("(if 5 1)") {
        Err(Error::TypeError(_)) => {}
        other => panic!("expected a type error, got {:?}", other),
    }
}

#[test]
fn progn_returns_last_or_nil() {
    assert_eq!(read_and_eval("(progn 1 2 3)").unwrap(), Value::Integer(3));
    assert_eq!(read_and_eval("(progn)").unwrap(), Value::Nil);
}

#[test]
fn quote_returns_the_form_verbatim() {
    assert_eq!(read_and_eval("(quote a)").unwrap(), Value::symbol("a"));
    assert_eq!(
        read_and_eval("'(1 2)").unwrap(),
        Value::list(vec![Value::Integer(1), Value::Integer(2)])
    );
}

#[test]
fn set_with_odd_arguments_fails() {
    match read_and_eval("(set a)") {
        Err(Error::TypeError(_)) => {}
        other => panic!("expected a type error, got {:?}", other),
    }
}

#[test]
fn reserved_literals_resolve() {
    assert_eq!(read_and_eval("nil").unwrap(), Value::Nil);
    assert_eq!(read_and_eval("true").unwrap(), Value::Boolean(true));
    assert_eq!(read_and_eval("false").unwrap(), Value::Boolean(false));
}

#[test]
fn keyword_symbols_self_evaluate() {
    assert_eq!(read_and_eval(":k").unwrap(), Value::Symbol(":k".to_string()));
}

#[test]
fn equality_native() {
    assert_eq!(read_and_eval("(= 1 1)").unwrap(), Value::Boolean(true));
    assert_eq!(read_and_eval("(= 1 2)").unwrap(), Value::Boolean(false));
    assert_eq!(read_and_eval("(= 1 1.0)").unwrap(), Value::Boolean(false));
}

#[test]
fn float_equality_is_ieee() {
    assert_eq!(read_and_eval("(= 0.0 -0.0)").unwrap(), Value::Boolean(true));
}

#[test]
fn append_concatenates_proper_lists() {
    assert_eq!(
        read_and_eval("(append (list 1 2) (list 3) nil)").unwrap(),
        Value::list(vec![Value::Integer(1), Value::Integer(2), Value::Integer(3)])
    );
}

#[test]
fn fexpr_receives_unevaluated_forms() {
    assert_eq!(
        read_and_eval("(defmacro first-form (...forms) forms) (first-form (+ 1 2))").unwrap(),
        Value::list(vec![Value::list(vec![
            Value::symbol("+"),
            Value::Integer(1),
            Value::Integer(2)
        ])])
    );
}

#[test]
fn reduce_folds_values_from_the_left() {
    let vals = vec![Value::Integer(1), Value::Integer(2), Value::Integer(3)];
    let folded = vals.reduce(|a: Value, b: Value| match (a, b) {
        (Value::Integer(x), Value::Integer(y)) => Value::Integer(x + y),
        _ => Value::Nil,
    });
    assert_eq!(folded, Some(Value::Integer(6)));
    let empty: Vec<Value> = Vec::new();
    assert_eq!(empty.reduce(|a: Value, _b: Value| a), None);
}

#[test]
fn cons_iterator_walks_a_list() {
    let v = rasp::read("(1 2)").unwrap();
    let mut it = v.iter_cons();
    assert_eq!(it.next().as_deref(), Some(&Value::Integer(1)));
    assert_eq!(it.next().as_deref(), Some(&Value::Integer(2)));
    assert_eq!(it.next(), None);
}

#[test]
fn nested_backquote_recompiles_as_a_fresh_template() {
    assert_eq!(read_and_eval("``a").unwrap(), Value::symbol("a"));
}

#[test]
fn backquote_inside_unquote_is_rejected() {
    match read_and_eval("`(,`a)") {
        Err(Error::SyntaxError(_)) => {}
        other => panic!("expected a syntax error, got {:?}", other),
    }
}

#[test]
fn optional_default_sees_earlier_parameters() {
    assert_eq!(
        read_and_eval("(defun f (a (b a)) (+ a b)) (f 2)").unwrap(),
        Value::Integer(4)
    );
}

#[test]
fn keyword_default_sees_earlier_parameters() {
    assert_eq!(
        read_and_eval("(defun f (a (:k a)) (+ a k)) (f 3)").unwrap(),
        Value::Integer(6)
    );
}
