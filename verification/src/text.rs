use vstd::prelude::*;
use std::rc::Rc;
use std::io::Write;
use crate::value::{Value, SpecValue, vview, lemma_vview_kinds};
use crate::floats::{float_text_of, float_bits_to_text};

verus! {

/// The character of a single decimal digit.
pub open spec fn digit_char(d: nat) -> char {
    ((48 + d % 10) as u8) as char
}

/// Decimal text of a natural number, no sign, no leading zeroes (except "0").
pub open spec fn dec_text(n: nat) -> Seq<char>
    decreases n,
{
    if n < 10 {
        seq![digit_char(n)]
    } else {
        dec_text(n / 10).push(digit_char(n % 10))
    }
}

/// Decimal text of an integer, with a leading minus for negatives.
pub open spec fn int_text(i: int) -> Seq<char> {
    if i < 0 {
        seq!['-'] + dec_text((-i) as nat)
    } else {
        dec_text(i as nat)
    }
}

/// The printed form of a value: atoms as their literal text, lists in
/// parentheses, a one-element `quote` form with the `'` shorthand, an
/// improper tail after a dot, callables by their names.
pub open spec fn spec_text(v: SpecValue) -> Seq<char>
    decreases v, 0nat,
{
    match v {
        SpecValue::Integer(n) => int_text(n as int),
        SpecValue::Float(b) => float_text_of(b),
        SpecValue::Str(s) => s,
        SpecValue::Boolean(b) => if b {
            "true"@
        } else {
            "false"@
        },
        SpecValue::Symbol(s) => s,
        SpecValue::Nil => "nil"@,
        SpecValue::Function(f) => "<function "@ + f.name + ">"@,
        SpecValue::Macro(f) => "<macro "@ + f.name + ">"@,
        SpecValue::NativeFunction(n, _) => "<function "@ + n + ">"@,
        SpecValue::NativeMacro(n, _) => "<macro "@ + n + ">"@,
        SpecValue::Cons(l, r) => if is_quote_form(*l, *r) {
            seq!['\''] + spec_text(quoted_of(*r))
        } else {
            seq!['('] + spec_text(*l) + spec_tail_text(*r)
        },
    }
}

/// Whether a cons cell is a `quote` form with exactly one argument.
pub open spec fn is_quote_form(l: SpecValue, r: SpecValue) -> bool {
    &&& l == SpecValue::Symbol("quote"@)
    &&& r matches SpecValue::Cons(x, n) && *n is Nil
}

/// The single argument of such a `quote` form.
pub open spec fn quoted_of(r: SpecValue) -> SpecValue {
    match r {
        SpecValue::Cons(x, _) => *x,
        _ => r,
    }
}

/// The printed form of the rest of a list: each element after a space, an
/// improper tail after a dot, and the closing parenthesis.
pub open spec fn spec_tail_text(v: SpecValue) -> Seq<char>
    decreases v, 1nat,
{
    match v {
        SpecValue::Nil => ")"@,
        SpecValue::Cons(h, t) => seq![' '] + spec_text(*h) + spec_tail_text(*t),
        _ => " . "@ + spec_text(v) + ")"@,
    }
}

/// Appends the decimal text of a natural number to `out`.
fn push_dec(n: u64, out: &mut String)
    ensures
        final(out)@ == old(out)@ + dec_text(n as nat),
{
    let mut digits: Vec<char> = Vec::new();
    let mut m: u64 = n;
    proof {
        assert(dec_text(n as nat) =~= dec_text(n as nat) + Seq::<char>::empty());
    }
    while m >= 10
        invariant
            dec_text(n as nat) == dec_text(m as nat) + digits@,
        decreases m,
    {
        let d: u64 = m % 10;
        let c: char = (48 + d as u8) as char;
        let ghost before = digits@;
        digits.insert(0, c);
        proof {
            assert(c == digit_char(d as nat));
            assert(digits@ =~= seq![c] + before);
            assert(dec_text(m as nat) == dec_text((m / 10) as nat).push(digit_char((m % 10) as nat)));
            assert(dec_text((m / 10) as nat).push(c) =~= dec_text((m / 10) as nat) + seq![c]);
            assert(dec_text((m / 10) as nat) + seq![c] + before =~= dec_text((m / 10) as nat) + (seq![c] + before));
        }
        m = m / 10;
    }
    let c: char = (48 + m as u8) as char;
    let ghost before = digits@;
    digits.insert(0, c);
    proof {
        assert(c == digit_char(m as nat));
        assert(dec_text(m as nat) =~= seq![c]);
        assert(digits@ =~= seq![c] + before);
        assert(seq![c] + before =~= dec_text(m as nat) + before);
    }
    let part = string_from_chars(&digits);
    out.append(part.as_str());
}

/// Appends the decimal text of an integer to `out`.
pub(crate) fn push_int(i: i64, out: &mut String)
    ensures
        final(out)@ == old(out)@ + int_text(i as int),
{
    if i < 0 {
        out.append("-");
        proof {
            reveal_strlit("-");
            assert(old(out)@ + seq!['-'] =~= old(out)@ + "-"@);
        }
        let m: u64 = if i == i64::MIN {
            9223372036854775808u64
        } else {
            (-i) as u64
        };
        push_dec(m, out);
        proof {
            assert(old(out)@ + "-"@ + dec_text(m as nat) =~= old(out)@ + (seq!['-'] + dec_text(
                ((-(i as int)) as nat),
            )));
        }
    } else {
        push_dec(i as u64, out);
    }
}

/// The text std's Debug formatting gives a string: double-quoted, with its
/// special characters escaped.
pub uninterp spec fn debug_quoted(s: Seq<char>) -> Seq<char>;

/// Relies on std's Debug formatting for str: the quoted, escaped rendering
/// depends on the characters alone.
#[verifier::external_body]
pub(crate) fn debug_quote(s: &str) -> (r: String)
    ensures
        r@ == debug_quoted(s@),
{
    format!("{:?}", s)
}

/// Relies on std's String FromIterator: collects characters into a string.
#[verifier::external_body]
pub(crate) fn string_from_chars(v: &Vec<char>) -> (s: String)
    ensures
        s@ == v@,
{
    v.iter().collect()
}

impl Value {
    /// The printed form of the value, as `spec_text` states it.
    pub fn to_text(&self) -> (r: String)
        ensures
            r@ == spec_text(self@),
    {
        let mut out = String::new();
        self.write_text(&mut out);
        out
    }

    fn write_text(&self, out: &mut String)
        ensures
            final(out)@ == old(out)@ + spec_text(self@),
        decreases *self, 0nat,
    {
        match self {
            Value::Integer(n) => {
                push_int(*n, out);
            },
            Value::Float(b) => {
                let t = float_bits_to_text(*b);
                out.append(t.as_str());
            },
            Value::String(s) => {
                out.append(s.as_str());
            },
            Value::Boolean(b) => {
                if *b {
                    out.append("true");
                } else {
                    out.append("false");
                }
            },
            Value::Symbol(s) => {
                out.append(s.as_str());
            },
            Value::Nil => {
                out.append("nil");
            },
            Value::Function(f) => {
                out.append("<function ");
                out.append(f.name.as_str());
                out.append(">");
                proof {
                    assert(crate::function::fview(**f).name == (**f).name@);
                    assert((*out)@ =~= old(out)@ + spec_text(vview(*self)));
                }
            },
            Value::Macro(f) => {
                out.append("<macro ");
                out.append(f.name.as_str());
                out.append(">");
                proof {
                    assert(crate::function::mview(**f).name == (**f).name@);
                    assert((*out)@ =~= old(out)@ + spec_text(vview(*self)));
                }
            },
            Value::NativeFunction(n, _) => {
                out.append("<function ");
                out.append(n.as_str());
                out.append(">");
                proof {
                    assert((*out)@ =~= old(out)@ + spec_text(vview(*self)));
                }
            },
            Value::NativeMacro(n, _) => {
                out.append("<macro ");
                out.append(n.as_str());
                out.append(">");
                proof {
                    assert((*out)@ =~= old(out)@ + spec_text(vview(*self)));
                }
            },
            Value::Cons(l, r) => {
                proof {
                    lemma_vview_kinds(&**l);
                    lemma_vview_kinds(&**r);
                }
                if let Value::Symbol(s) = &**l {
                    if crate::scope::str_eq(s.as_str(), "quote") {
                        if let Value::Cons(x, n) = &**r {
                            proof {
                                lemma_vview_kinds(&**n);
                            }
                            if let Value::Nil = &**n {
                                out.append("'");
                                proof {
                                    reveal_strlit("'");
                                    assert("'"@ =~= seq!['\'']);
                                    assert(is_quote_form(vview(**l), vview(**r)));
                                    assert(quoted_of(vview(**r)) == vview(**x));
                                }
                                x.write_text(out);
                                proof {
                                    assert((*out)@ =~= old(out)@ + spec_text(vview(*self)));
                                }
                                return;
                            }
                        }
                    }
                }
                proof {
                    assert(!is_quote_form(vview(**l), vview(**r)));
                }
                out.append("(");
                proof {
                    reveal_strlit("(");
                    assert("("@ =~= seq!['(']);
                }
                l.write_text(out);
                r.write_tail_text(out);
                proof {
                    assert((*out)@ =~= old(out)@ + spec_text(vview(*self)));
                }
            },
        }
    }

    fn write_tail_text(&self, out: &mut String)
        ensures
            final(out)@ == old(out)@ + spec_tail_text(self@),
        decreases *self, 1nat,
    {
        match self {
            Value::Nil => {
                out.append(")");
            },
            Value::Cons(h, t) => {
                out.append(" ");
                proof {
                    reveal_strlit(" ");
                    assert(" "@ =~= seq![' ']);
                }
                h.write_text(out);
                t.write_tail_text(out);
                proof {
                    assert((*out)@ =~= old(out)@ + spec_tail_text(vview(*self)));
                }
            },
            _ => {
                proof {
                    lemma_vview_kinds(self);
                }
                out.append(" . ");
                self.write_text(out);
                out.append(")");
                proof {
                    assert((*out)@ =~= old(out)@ + spec_tail_text(vview(*self)));
                }
            },
        }
    }
}


/// The printed forms of a sequence of values.
pub open spec fn texts_of(s: Seq<SpecValue>) -> Seq<Seq<char>> {
    Seq::new(s.len(), |i: int| spec_text(s[i]))
}

/// Runtime format-string substitution: each `{}` takes the next argument,
/// `{{` and `}}` stand for literal braces, and the result is `None` where a
/// brace stands alone or the arguments are too few or left over.
pub open spec fn spec_format(fmt: Seq<char>, args: Seq<Seq<char>>) -> Option<Seq<char>>
    decreases fmt.len(),
{
    if fmt.len() == 0 {
        if args.len() == 0 {
            Some(Seq::empty())
        } else {
            None
        }
    } else if fmt[0] == '{' {
        if fmt.len() >= 2 && fmt[1] == '}' {
            if args.len() > 0 {
                match spec_format(fmt.subrange(2, fmt.len() as int), args.subrange(1, args.len() as int)) {
                    Some(r) => Some(args[0] + r),
                    None => None,
                }
            } else {
                None
            }
        } else if fmt.len() >= 2 && fmt[1] == '{' {
            match spec_format(fmt.subrange(2, fmt.len() as int), args) {
                Some(r) => Some(seq!['{'] + r),
                None => None,
            }
        } else {
            None
        }
    } else if fmt[0] == '}' {
        if fmt.len() >= 2 && fmt[1] == '}' {
            match spec_format(fmt.subrange(2, fmt.len() as int), args) {
                Some(r) => Some(seq!['}'] + r),
                None => None,
            }
        } else {
            None
        }
    } else {
        match spec_format(fmt.subrange(1, fmt.len() as int), args) {
            Some(r) => Some(seq![fmt[0]] + r),
            None => None,
        }
    }
}

/// The characters of a string, one by one.
pub fn str_chars(s: &str) -> (r: Vec<char>)
    ensures
        r@ == s@,
{
    let n = s.unicode_len();
    let mut out: Vec<char> = Vec::new();
    let mut i: usize = 0;
    while i < n
        invariant
            n == s@.len(),
            i <= n,
            out@ == s@.subrange(0, i as int),
        decreases n - i,
    {
        let c = s.get_char(i);
        out.push(c);
        proof {
            assert(out@ =~= s@.subrange(0, i + 1));
        }
        i = i + 1;
    }
    proof {
        assert(s@.subrange(0, n as int) =~= s@);
    }
    out
}

/// Substitutes `vals` into `fmt` as `spec_format` states it.
pub fn format_text(fmt: &str, vals: &Vec<String>) -> (r: Option<String>)
    ensures
        match r {
            Some(t) => spec_format(fmt@, vals.deep_view()) == Some(t@),
            None => spec_format(fmt@, vals.deep_view()) is None,
        },
{
    let chars = str_chars(fmt);
    let n = chars.len();
    let nv = vals.len();
    let ghost allf = fmt@;
    let ghost alla = vals.deep_view();
    let mut out = String::new();
    let mut i: usize = 0;
    let mut a: usize = 0;
    proof {
        assert(allf.subrange(0, n as int) =~= allf);
        assert(alla.subrange(0, nv as int) =~= alla);
        match spec_format(allf, alla) {
            Some(r) => {
                assert(out@ + r =~= r);
            },
            None => {},
        }
    }
    while i < n
        invariant
            allf == fmt@,
            chars@ == allf,
            n == allf.len(),
            alla == vals.deep_view(),
            nv == alla.len(),
            nv == vals@.len(),
            i <= n,
            a <= nv,
            match spec_format(allf.subrange(i as int, n as int), alla.subrange(a as int, nv as int)) {
                Some(r) => spec_format(allf, alla) == Some(out@ + r),
                None => spec_format(allf, alla) is None,
            },
        decreases n - i,
    {
        let ghost remf = allf.subrange(i as int, n as int);
        let ghost rema = alla.subrange(a as int, nv as int);
        let c = chars[i];
        if c == '{' {
            if i + 1 < n && chars[i + 1] == '}' {
                if a < nv {
                    out.append(vals[a].as_str());
                    proof {
                        assert(vals.deep_view()[a as int] == vals@[a as int]@);
                        assert(remf.subrange(2, remf.len() as int) =~= allf.subrange(
                            i + 2,
                            n as int,
                        ));
                        assert(rema.subrange(1, rema.len() as int) =~= alla.subrange(
                            a + 1,
                            nv as int,
                        ));
                        assert(rema[0] == alla[a as int]);
                    }
                    i = i + 2;
                    a = a + 1;
                } else {
                    proof {
                        assert(remf[0] == '{');
                        assert(remf.len() >= 2 && remf[1] == '}');
                        assert(rema.len() == 0);
                        assert(spec_format(remf, rema) is None);
                        assert(spec_format(allf, alla) is None);
                    }
                    return None;
                }
            } else if i + 1 < n && chars[i + 1] == '{' {
                out.append("{");
                proof {
                    reveal_strlit("{");
                    assert("{"@ =~= seq!['{']);
                    assert(remf.subrange(2, remf.len() as int) =~= allf.subrange(i + 2, n as int));
                }
                i = i + 2;
            } else {
                proof {
                    assert(remf[0] == '{');
                    if i + 1 < n {
                        assert(remf[1] == allf[i as int + 1]);
                    } else {
                        assert(remf.len() == 1);
                    }
                    assert(spec_format(remf, rema) is None);
                }
                return None;
            }
        } else if c == '}' {
            if i + 1 < n && chars[i + 1] == '}' {
                out.append("}");
                proof {
                    reveal_strlit("}");
                    assert("}"@ =~= seq!['}']);
                    assert(remf.subrange(2, remf.len() as int) =~= allf.subrange(i + 2, n as int));
                }
                i = i + 2;
            } else {
                proof {
                    assert(remf[0] == '}');
                    if i + 1 < n {
                        assert(remf[1] == allf[i as int + 1]);
                    } else {
                        assert(remf.len() == 1);
                    }
                    assert(spec_format(remf, rema) is None);
                    assert(spec_format(allf, alla) is None);
                }
                return None;
            }
        } else {
            let mut one: Vec<char> = Vec::new();
            one.push(c);
            let part = string_from_chars(&one);
            out.append(part.as_str());
            proof {
                assert(one@ =~= seq![c]);
                assert(remf[0] == c);
                assert(remf.subrange(1, remf.len() as int) =~= allf.subrange(i + 1, n as int));
            }
            i = i + 1;
        }
        proof {
            let newf = allf.subrange(i as int, n as int);
            let newa = alla.subrange(a as int, nv as int);
            match spec_format(newf, newa) {
                Some(r) => {
                    assert(spec_format(allf, alla) matches Some(t) && t =~= out@ + r);
                },
                None => {},
            }
        }
    }
    proof {
        assert(allf.subrange(n as int, n as int) =~= Seq::<char>::empty());
        assert(alla.subrange(a as int, nv as int).len() == nv - a);
    }
    if a < nv {
        return None;
    }
    proof {
        assert(alla.subrange(a as int, nv as int) =~= Seq::<Seq<char>>::empty());
        assert(spec_format(allf.subrange(n as int, n as int), alla.subrange(a as int, nv as int))
            == Some(Seq::<char>::empty()));
        assert(out@ + Seq::<char>::empty() =~= out@);
    }
    Some(out)
}

/// Relies on std::io::Stdout's Write: prints one line to standard output.
#[verifier::external_body]
pub(crate) fn print_line(s: &str) {
    let mut out = std::io::stdout();
    let _ = writeln!(out, "{}", s);
}

} // verus!
