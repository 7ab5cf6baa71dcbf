use rasp::expr::Expr;
use rasp::parser::{expr_at, float_at, integer_at, parse, string_at, symbol_at};
use rasp::text::format_text;
use rasp::value::Value;

fn chars_of(s: &str) -> Vec<char> {
    s.chars().collect()
}

#[test]
fn parse_integer() {
    let cs = chars_of("12 test");
    assert_eq!(integer_at(&cs, 0), Some((2, 12)));
    assert_eq!(&"12 test"[2..], " test");
}

#[test]
fn parse_float() {
    let cs = chars_of("12.4 test");
    assert_eq!(float_at(&cs, 0), Some((4, (12.4f64).to_bits())));
    assert_eq!(&"12.4 test"[4..], " test");
}

#[test]
fn parse_string() {
    let cs = chars_of(r#""test\nstring""#);
    assert_eq!(string_at(&cs, 0), Some((cs.len(), "test\nstring".to_string())));
}

#[test]
fn parse_sexpr() {
    let cs = chars_of(r#"(12.4 "string here\n")"#);
    let parsed = expr_at(&cs, 0).unwrap().unwrap();
    assert_eq!(
        parsed,
        (
            cs.len(),
            Expr::Sexpr(vec![
                Expr::Float((12.4f64).to_bits()),
                Expr::String("string here\n".to_string())
            ])
        )
    );
}

#[test]
fn parse_file() {
    assert_eq!(
        parse(r#"(println "{}" (+ 1 2.3))"#),
        Result::Ok(vec![Expr::Sexpr(vec![
            Expr::Symbol("println".to_string()),
            Expr::String("{}".to_string()),
            Expr::Sexpr(vec![
                Expr::Symbol("+".to_string()),
                Expr::Integer(1),
                Expr::Float((2.3f64).to_bits())
            ])
        ])])
    );
}

#[test]
fn parse_template() {
    println!("{:?}", parse(r#"`(println ,var)"#).unwrap()[0]);
    assert_eq!(
        parse(r#"`(println ,var)"#),
        Result::Ok(vec![Expr::Sexpr(vec![
            Expr::symbol("append"),
            Expr::Sexpr(vec![
                Expr::symbol("list"),
                Expr::quote(Expr::symbol("println"))
            ]),
            Expr::Sexpr(vec![Expr::symbol("list"), Expr::symbol("var")]),
            Expr::symbol("nil")
        ])])
    );
}

#[test]
fn parse_signed_numbers() {
    let cs = chars_of("+5");
    assert_eq!(integer_at(&cs, 0), Some((2, 5)));
    let cs = chars_of("-17");
    assert_eq!(integer_at(&cs, 0), Some((3, -17)));
    let cs = chars_of("-.5");
    assert_eq!(float_at(&cs, 0), Some((3, (-0.5f64).to_bits())));
}

#[test]
fn integer_with_exponent_becomes_float() {
    assert_eq!(
        parse("12e3"),
        Ok(vec![Expr::Float((12000.0f64).to_bits())])
    );
}

#[test]
fn integer_overflow_becomes_float() {
    assert_eq!(
        parse("9223372036854775808"),
        Ok(vec![Expr::Float((9223372036854775808.0f64).to_bits())])
    );
}

#[test]
fn dot_alone_is_a_symbol() {
    assert_eq!(parse("."), Ok(vec![Expr::Symbol(".".to_string())]));
}

#[test]
fn pipe_escaped_symbol_keeps_spaces() {
    assert_eq!(parse("|a b|"), Ok(vec![Expr::Symbol("a b".to_string())]));
}

#[test]
fn backslash_escapes_inside_symbols() {
    let cs = chars_of("ab\\ cd");
    assert_eq!(symbol_at(&cs, 0), Some((6, "ab cd".to_string())));
}

#[test]
fn string_escape_set() {
    assert_eq!(
        parse(r#""a\tb\\c\"d""#),
        Ok(vec![Expr::String("a\tb\\c\"d".to_string())])
    );
}

#[test]
fn bad_string_escape_is_rejected() {
    assert!(parse(r#""a\qb""#).is_err());
}

#[test]
fn unclosed_list_is_rejected() {
    assert!(parse("(1 2").is_err());
}

#[test]
fn empty_input_reads_as_nil() {
    assert_eq!(rasp::read("").unwrap(), Value::Nil);
    assert_eq!(rasp::read("   ").unwrap(), Value::Nil);
}

#[test]
fn several_forms_read_as_progn() {
    let v = rasp::read("1 2").unwrap();
    assert_eq!(
        v,
        Value::list(vec![Value::symbol("progn"), Value::Integer(1), Value::Integer(2)])
    );
}

#[test]
fn rendering_matches_the_printed_form() {
    assert_eq!(Value::Integer(-42).to_text(), "-42");
    assert_eq!(Value::Integer(0).to_text(), "0");
    assert_eq!(
        rasp::read("(1 (2 3) nil)").unwrap().to_text(),
        "(1 (2 3) nil)"
    );
    assert_eq!(rasp::read("'a").unwrap().to_text(), "'a");
    assert_eq!(Value::Boolean(true).to_text(), "true");
    assert_eq!(Value::String("hi".to_string()).to_text(), "hi");
}

#[test]
fn format_substitutes_in_order() {
    assert_eq!(
        format_text("a{}b{}", &vec!["1".to_string(), "2".to_string()]),
        Some("a1b2".to_string())
    );
    assert_eq!(format_text("{{}}", &Vec::new()), Some("{}".to_string()));
    assert_eq!(format_text("{}", &Vec::new()), None);
    assert_eq!(format_text("x", &vec!["1".to_string()]), None);
    assert_eq!(format_text("{", &Vec::new()), None);
}

#[test]
fn errors_describe_themselves() {
    let e = rasp::read_and_eval("foo").unwrap_err();
    assert_eq!(e.describe(), "symbol not found: foo");
}

#[test]
fn expr_rendering_quotes_strings() {
    let es = parse("(a \"x\n\" 1)").unwrap();
    assert_eq!(es[0].to_text(), "(a \"x\\n\" 1)");
    assert_eq!(parse("'a").unwrap().remove(0).to_text(), "'a");
    assert_eq!(parse("()").unwrap().remove(0).to_text(), "()");
}
