use vstd::prelude::*;
use crate::expr::{Expr, SpecExpr, eviews, lemma_eviews};
use crate::template::{Template, SpecTemplate, tviews, lemma_tviews, spec_compile};
use crate::errors::{Error, SpecError, spec_describe};
use crate::floats::{float_bits_of_text, text_to_float_bits};
use crate::text::{string_from_chars, str_chars};

verus! {

broadcast use vstd::seq::group_seq_axioms, vstd::std_specs::vec::group_vec_axioms;

// ------------------------------------------------------------------
// The grammar, stated over a sequence of characters and a position.
// Every production either matches (with the position after it and the
// datum it denotes), does not match, or aborts the whole parse (a comma
// outside any backquote).
// ------------------------------------------------------------------

/// Outcome of trying one production at one position.
pub enum Parsed<T> {
    Found(int, T),
    Missing,
    Abort(SpecError),
}

pub open spec fn is_ws(c: char) -> bool {
    c == ' ' || c == '\t' || c == '\r' || c == '\n'
}

pub open spec fn is_digit(c: char) -> bool {
    '0' <= c && c <= '9'
}

/// A character that may stand in a bare symbol.
pub open spec fn is_sym_char(c: char) -> bool {
    &&& !is_ws(c)
    &&& c != '\\'
    &&& c != '"'
    &&& c != '\''
    &&& c != '`'
    &&& c != '('
    &&& c != ')'
    &&& c != '#'
    &&& c != '|'
    &&& c != ';'
}

/// The first position at or after `i` holding no whitespace.
pub open spec fn skip_ws(cs: Seq<char>, i: int) -> int
    decreases cs.len() - i,
{
    if 0 <= i < cs.len() && is_ws(cs[i]) {
        skip_ws(cs, i + 1)
    } else {
        i
    }
}

/// The end of the digit run starting at `i`.
pub open spec fn digits_end(cs: Seq<char>, i: int) -> int
    decreases cs.len() - i,
{
    if 0 <= i < cs.len() && is_digit(cs[i]) {
        digits_end(cs, i + 1)
    } else {
        i
    }
}

/// The value of the digits in `[i, j)`.
pub open spec fn digits_val(cs: Seq<char>, i: int, j: int) -> int
    decreases j - i,
{
    if i < j {
        digits_val(cs, i, j - 1) * 10 + (cs[j - 1] as int - 48)
    } else {
        0
    }
}

/// An optional sign: the position after it and whether it was a minus.
pub open spec fn after_sign(cs: Seq<char>, i: int) -> (int, bool) {
    if 0 <= i < cs.len() && (cs[i] == '+' || cs[i] == '-') {
        (i + 1, cs[i] == '-')
    } else {
        (i, false)
    }
}

/// Where an exponent part ending a number token stops, or `i` where none
/// starts at `i`.
pub open spec fn exp_end(cs: Seq<char>, i: int) -> int {
    if 0 <= i < cs.len() && (cs[i] == 'e' || cs[i] == 'E') {
        let (p, n) = after_sign(cs, i + 1);
        if digits_end(cs, p) > p {
            digits_end(cs, p)
        } else {
            i
        }
    } else {
        i
    }
}

/// An integer literal: an optional sign and digits, not followed by a dot,
/// with no exponent, and in range of a 64-bit integer; anything else falls
/// through to the float literal.
pub open spec fn spec_integer(cs: Seq<char>, i: int) -> Option<(int, i64)> {
    let (p, neg) = after_sign(cs, i);
    let d = digits_end(cs, p);
    if d == p {
        None
    } else {
        let t = exp_end(cs, d);
        if t < cs.len() && cs[t] == '.' {
            None
        } else if t != d {
            None
        } else {
            let m = digits_val(cs, p, d);
            if neg {
                if -m >= i64::MIN {
                    Some((d, (-m) as i64))
                } else {
                    None
                }
            } else {
                if m <= i64::MAX {
                    Some((d, m as i64))
                } else {
                    None
                }
            }
        }
    }
}

/// Where the mantissa of a float literal ends, or `None` where none starts.
pub open spec fn mantissa_end(cs: Seq<char>, i: int) -> Option<int> {
    let (p, neg) = after_sign(cs, i);
    let d = digits_end(cs, p);
    if d > p {
        if d < cs.len() && cs[d] == '.' {
            Some(digits_end(cs, d + 1))
        } else {
            Some(d)
        }
    } else {
        if p < cs.len() && cs[p] == '.' && digits_end(cs, p + 1) > p + 1 {
            Some(digits_end(cs, p + 1))
        } else {
            None
        }
    }
}

/// A float literal: sign, digits with an optional fraction (or a fraction
/// alone), an optional exponent; its value is the correctly rounded double
/// the token denotes. A token of a billion characters or more is not taken
/// as a float (a machine limit of the conversion).
pub open spec fn spec_float(cs: Seq<char>, i: int) -> Option<(int, u64)> {
    match mantissa_end(cs, i) {
        Some(m) => {
            let t = exp_end(cs, m);
            if t - i >= 0x40000000 {
                None
            } else {
                match float_bits_of_text(cs.subrange(i, t)) {
                    Some(b) => Some((t, b)),
                    None => None,
                }
            }
        },
        None => None,
    }
}

/// The character a string escape stands for.
pub open spec fn esc_map(c: char) -> Option<char> {
    if c == 'a' {
        Some(7 as u8 as char)
    } else if c == 'b' {
        Some(8 as u8 as char)
    } else if c == 'f' {
        Some(12 as u8 as char)
    } else if c == 'n' {
        Some('\n')
    } else if c == 'r' {
        Some('\r')
    } else if c == 't' {
        Some('\t')
    } else if c == 'v' {
        Some(11 as u8 as char)
    } else if c == '\'' {
        Some('\'')
    } else if c == '"' {
        Some('"')
    } else if c == '?' {
        Some('?')
    } else if c == '\\' {
        Some('\\')
    } else {
        None
    }
}

/// The body of a string literal, up to the closing quote.
pub open spec fn string_body(cs: Seq<char>, i: int, acc: Seq<char>) -> Option<(int, Seq<char>)>
    decreases cs.len() - i,
{
    if !(0 <= i < cs.len()) {
        None
    } else if cs[i] == '"' {
        Some((i, acc))
    } else if cs[i] == '\\' {
        if i + 1 < cs.len() {
            match esc_map(cs[i + 1]) {
                Some(c) => string_body(cs, i + 2, acc.push(c)),
                None => None,
            }
        } else {
            None
        }
    } else {
        string_body(cs, i + 1, acc.push(cs[i]))
    }
}

/// A double-quoted string literal with its escapes resolved.
pub open spec fn spec_string(cs: Seq<char>, i: int) -> Option<(int, Seq<char>)> {
    if 0 <= i < cs.len() && cs[i] == '"' {
        match string_body(cs, i + 1, Seq::empty()) {
            Some((j, s)) => Some((j + 1, s)),
            None => None,
        }
    } else {
        None
    }
}

/// The body of a pipe-escaped symbol, up to the closing pipe; a backslash
/// passes the next character through verbatim.
pub open spec fn piped_body(cs: Seq<char>, i: int, acc: Seq<char>) -> Option<(int, Seq<char>)>
    decreases cs.len() - i,
{
    if !(0 <= i < cs.len()) {
        None
    } else if cs[i] == '|' {
        Some((i, acc))
    } else if cs[i] == '\\' {
        if i + 1 < cs.len() {
            piped_body(cs, i + 2, acc.push(cs[i + 1]))
        } else {
            None
        }
    } else {
        piped_body(cs, i + 1, acc.push(cs[i]))
    }
}

/// The longest bare-symbol run from `i`; a backslash passes the next
/// character through verbatim.
pub open spec fn simple_sym(cs: Seq<char>, i: int, acc: Seq<char>) -> (int, Seq<char>)
    decreases cs.len() - i,
{
    if !(0 <= i < cs.len()) {
        (i, acc)
    } else if cs[i] == '\\' {
        if i + 1 < cs.len() {
            simple_sym(cs, i + 2, acc.push(cs[i + 1]))
        } else {
            (i, acc)
        }
    } else if is_sym_char(cs[i]) {
        simple_sym(cs, i + 1, acc.push(cs[i]))
    } else {
        (i, acc)
    }
}

/// A symbol: pipe-escaped, or a nonempty bare run.
pub open spec fn spec_symbol(cs: Seq<char>, i: int) -> Option<(int, Seq<char>)> {
    if 0 <= i < cs.len() && cs[i] == '|' {
        match piped_body(cs, i + 1, Seq::empty()) {
            Some((j, s)) => Some((j + 1, s)),
            None => None,
        }
    } else {
        let (j, s) = simple_sym(cs, i, Seq::empty());
        if j > i {
            Some((j, s))
        } else {
            None
        }
    }
}

/// One form, tried in the grammar's order: integer, float, string, list,
/// quote, backquote (compiled on the spot), comma (an abort at this level),
/// and symbol last.
pub open spec fn spec_expr_p(cs: Seq<char>, i: int) -> Parsed<SpecExpr>
    decreases cs.len() - i, 0nat,
{
    if !(0 <= i < cs.len()) {
        Parsed::Missing
    } else if spec_integer(cs, i) is Some {
        let (j, v) = spec_integer(cs, i)->Some_0;
        Parsed::Found(j, SpecExpr::Integer(v))
    } else if spec_float(cs, i) is Some {
        let (j, b) = spec_float(cs, i)->Some_0;
        Parsed::Found(j, SpecExpr::Float(b))
    } else if spec_string(cs, i) is Some {
        let (j, s) = spec_string(cs, i)->Some_0;
        Parsed::Found(j, SpecExpr::Str(s))
    } else if cs[i] == '(' {
        match spec_exprs(cs, i + 1) {
            Parsed::Found(j, es) => {
                if j < cs.len() && cs[j] == ')' {
                    Parsed::Found(j + 1, SpecExpr::Sexpr(es))
                } else {
                    Parsed::Missing
                }
            },
            Parsed::Missing => Parsed::Missing,
            Parsed::Abort(e) => Parsed::Abort(e),
        }
    } else if cs[i] == '\'' {
        match spec_expr_p(cs, i + 1) {
            Parsed::Found(j, e) => Parsed::Found(
                j,
                SpecExpr::Sexpr(seq![SpecExpr::Symbol("quote"@), e]),
            ),
            Parsed::Missing => Parsed::Missing,
            Parsed::Abort(e) => Parsed::Abort(e),
        }
    } else if cs[i] == '`' {
        match spec_template_p(cs, i + 1) {
            Some((j, t)) => match spec_compile(t) {
                Ok(e) => Parsed::Found(j, e),
                Err(er) => Parsed::Abort(er),
            },
            None => Parsed::Missing,
        }
    } else if cs[i] == ',' {
        if i + 1 < cs.len() && cs[i + 1] == '@' {
            match spec_template_p(cs, i + 2) {
                Some(_) => Parsed::Abort(SpecError::SyntaxError("comma not inside backquote"@)),
                None => match spec_symbol(cs, i) {
                    Some((j, s)) => Parsed::Found(j, SpecExpr::Symbol(s)),
                    None => Parsed::Missing,
                },
            }
        } else {
            match spec_template_p(cs, i + 1) {
                Some(_) => Parsed::Abort(SpecError::SyntaxError("comma not inside backquote"@)),
                None => match spec_symbol(cs, i) {
                    Some((j, s)) => Parsed::Found(j, SpecExpr::Symbol(s)),
                    None => Parsed::Missing,
                },
            }
        }
    } else {
        match spec_symbol(cs, i) {
            Some((j, s)) => Parsed::Found(j, SpecExpr::Symbol(s)),
            None => Parsed::Missing,
        }
    }
}

/// As many whitespace-separated forms as will match, from `i`; never fails
/// to match (zero forms is a match), but propagates an abort.
pub open spec fn spec_exprs(cs: Seq<char>, i: int) -> Parsed<Seq<SpecExpr>>
    decreases cs.len() - i, 1nat,
{
    if !(0 <= i <= cs.len()) {
        Parsed::Found(i, Seq::empty())
    } else {
        let k = skip_ws(cs, i);
        if !(i <= k <= cs.len()) {
            Parsed::Found(i, Seq::empty())
        } else {
        match spec_expr_p(cs, k) {
            Parsed::Found(j, e) => {
                if i <= k < j && j <= cs.len() {
                    match spec_exprs(cs, j) {
                        Parsed::Found(j2, es) => Parsed::Found(j2, Seq::empty().push(e) + es),
                        Parsed::Missing => Parsed::Missing,
                        Parsed::Abort(er) => Parsed::Abort(er),
                    }
                } else {
                    Parsed::Found(k, Seq::empty())
                }
            },
            Parsed::Missing => Parsed::Found(k, Seq::empty()),
            Parsed::Abort(er) => Parsed::Abort(er),
        }
        }
    }
}

/// One template node, tried in the grammar's order; inside a backquote a
/// comma is meaningful, and a nested backquote is kept as a node.
pub open spec fn spec_template_p(cs: Seq<char>, i: int) -> Option<(int, SpecTemplate)>
    decreases cs.len() - i, 0nat,
{
    if !(0 <= i < cs.len()) {
        None
    } else if spec_integer(cs, i) is Some {
        let (j, v) = spec_integer(cs, i)->Some_0;
        Some((j, SpecTemplate::Integer(v)))
    } else if spec_float(cs, i) is Some {
        let (j, b) = spec_float(cs, i)->Some_0;
        Some((j, SpecTemplate::Float(b)))
    } else if spec_string(cs, i) is Some {
        let (j, s) = spec_string(cs, i)->Some_0;
        Some((j, SpecTemplate::Str(s)))
    } else if cs[i] == '(' {
        match spec_templates(cs, i + 1) {
            Some((j, ts)) => {
                if j < cs.len() && cs[j] == ')' {
                    Some((j + 1, SpecTemplate::Sexpr(ts)))
                } else {
                    None
                }
            },
            None => None,
        }
    } else if cs[i] == '\'' {
        match spec_template_p(cs, i + 1) {
            Some((j, t)) => Some(
                (j, SpecTemplate::Sexpr(seq![SpecTemplate::Symbol("quote"@), t])),
            ),
            None => None,
        }
    } else if cs[i] == '`' {
        match spec_template_p(cs, i + 1) {
            Some((j, t)) => Some((j, SpecTemplate::Template(Box::new(t)))),
            None => None,
        }
    } else if cs[i] == ',' {
        if i + 1 < cs.len() && cs[i + 1] == '@' {
            match spec_template_p(cs, i + 2) {
                Some((j, t)) => Some((j, SpecTemplate::TemplateListExpr(Box::new(t)))),
                None => match spec_symbol(cs, i) {
                    Some((j, s)) => Some((j, SpecTemplate::Symbol(s))),
                    None => None,
                },
            }
        } else {
            match spec_template_p(cs, i + 1) {
                Some((j, t)) => Some((j, SpecTemplate::TemplateExpr(Box::new(t)))),
                None => match spec_symbol(cs, i) {
                    Some((j, s)) => Some((j, SpecTemplate::Symbol(s))),
                    None => None,
                },
            }
        }
    } else {
        match spec_symbol(cs, i) {
            Some((j, s)) => Some((j, SpecTemplate::Symbol(s))),
            None => None,
        }
    }
}

/// As many whitespace-separated template nodes as will match, from `i`.
pub open spec fn spec_templates(cs: Seq<char>, i: int) -> Option<(int, Seq<SpecTemplate>)>
    decreases cs.len() - i, 1nat,
{
    if !(0 <= i <= cs.len()) {
        Some((i, Seq::empty()))
    } else {
        let k = skip_ws(cs, i);
        if !(i <= k <= cs.len()) {
            Some((i, Seq::empty()))
        } else {
        match spec_template_p(cs, k) {
            Some((j, t)) => {
                if i <= k < j && j <= cs.len() {
                    match spec_templates(cs, j) {
                        Some((j2, ts)) => Some((j2, Seq::empty().push(t) + ts)),
                        None => None,
                    }
                } else {
                    Some((k, Seq::empty()))
                }
            },
            None => Some((k, Seq::empty())),
        }
        }
    }
}

/// What parsing a whole source text yields: its top-level forms in order,
/// or the first fatal error; leftover text that matches no form is itself
/// an error.
pub open spec fn spec_parse(cs: Seq<char>) -> Result<Seq<SpecExpr>, SpecError> {
    match spec_exprs(cs, 0) {
        Parsed::Found(j, es) => {
            if j == cs.len() {
                Ok(es)
            } else {
                Err(SpecError::SyntaxError("expected end of input"@))
            }
        },
        Parsed::Missing => Err(SpecError::SyntaxError("expected end of input"@)),
        Parsed::Abort(e) => Err(e),
    }
}


// ------------------------------------------------------------------
// The executable parser: each function decides the matching
// specification production at the given position.
// ------------------------------------------------------------------

fn skip_ws_exec(cs: &Vec<char>, pos: usize) -> (r: usize)
    requires
        pos <= cs@.len(),
    ensures
        r as int == skip_ws(cs@, pos as int),
        pos <= r <= cs@.len(),
{
    let n = cs.len();
    let mut i = pos;
    while i < n && (cs[i] == ' ' || cs[i] == '\t' || cs[i] == '\r' || cs[i] == '\n')
        invariant
            pos <= i <= n,
            n == cs@.len(),
            skip_ws(cs@, pos as int) == skip_ws(cs@, i as int),
        decreases n - i,
    {
        i = i + 1;
    }
    i
}

fn digits_end_exec(cs: &Vec<char>, pos: usize) -> (r: usize)
    requires
        pos <= cs@.len(),
    ensures
        r as int == digits_end(cs@, pos as int),
        pos <= r <= cs@.len(),
        forall|k: int| pos <= k < r ==> is_digit(cs@[k]),
{
    let n = cs.len();
    let mut i = pos;
    while i < n && '0' <= cs[i] && cs[i] <= '9'
        invariant
            pos <= i <= n,
            n == cs@.len(),
            digits_end(cs@, pos as int) == digits_end(cs@, i as int),
            forall|k: int| pos <= k < i ==> is_digit(cs@[k]),
        decreases n - i,
    {
        i = i + 1;
    }
    i
}

proof fn lemma_digits_nonneg(cs: Seq<char>, i: int, a: int)
    requires
        i <= a,
        forall|k: int| i <= k < a ==> is_digit(#[trigger] cs[k]),
    ensures
        digits_val(cs, i, a) >= 0,
    decreases a - i,
{
    if i < a {
        lemma_digits_nonneg(cs, i, a - 1);
        assert(is_digit(cs[a - 1]));
        assert(digits_val(cs, i, a - 1) * 10 >= 0) by (nonlinear_arith)
            requires
                digits_val(cs, i, a - 1) >= 0,
        ;
    }
}

proof fn lemma_digits_mono(cs: Seq<char>, i: int, a: int, b: int)
    requires
        i <= a <= b,
        forall|k: int| i <= k < b ==> is_digit(#[trigger] cs[k]),
    ensures
        0 <= digits_val(cs, i, a) <= digits_val(cs, i, b),
    decreases b - a,
{
    lemma_digits_nonneg(cs, i, a);
    if a < b {
        lemma_digits_mono(cs, i, a, b - 1);
        assert(is_digit(cs[b - 1]));
        assert(cs[b - 1] as int - 48 >= 0);
        assert(digits_val(cs, i, b) == digits_val(cs, i, b - 1) * 10 + (cs[b - 1] as int - 48));
        assert(digits_val(cs, i, b - 1) * 10 >= digits_val(cs, i, b - 1)) by (nonlinear_arith)
            requires
                digits_val(cs, i, b - 1) >= 0,
        ;
    }
}

/// The digits' value where it fits a 64-bit word; too large otherwise.
fn digits_u64(cs: &Vec<char>, start: usize, end: usize) -> (r: Option<u64>)
    requires
        start <= end <= cs@.len(),
        forall|k: int| start <= k < end ==> is_digit(cs@[k]),
    ensures
        match r {
            Some(m) => m as int == digits_val(cs@, start as int, end as int),
            None => digits_val(cs@, start as int, end as int) > u64::MAX,
        },
{
    let mut acc: u64 = 0;
    let mut i = start;
    while i < end
        invariant
            start <= i <= end,
            end <= cs@.len(),
            forall|k: int| start <= k < end ==> is_digit(cs@[k]),
            acc as int == digits_val(cs@, start as int, i as int),
        decreases end - i,
    {
        let d: u64 = (cs[i] as u32 as u64) - 48;
        proof {
            assert(is_digit(cs@[i as int]));
            assert(cs@[i as int] as u32 >= 48);
        }
        if acc > (u64::MAX - d) / 10 {
            proof {
                assert(digits_val(cs@, start as int, i + 1) == acc as int * 10 + d);
                assert(acc as int * 10 + d > u64::MAX) by (nonlinear_arith)
                    requires
                        acc as int > (u64::MAX - d) / 10,
                        0 <= d <= 9,
                ;
                lemma_digits_mono(cs@, start as int, i + 1, end as int);
            }
            return None;
        }
        proof {
            assert(acc as int * 10 + d <= u64::MAX) by (nonlinear_arith)
                requires
                    acc as int <= (u64::MAX - d) / 10,
                    0 <= d <= 9,
            ;
        }
        acc = acc * 10 + d;
        i = i + 1;
    }
    Some(acc)
}

/// Decides `after_sign` at a position.
fn after_sign_exec(cs: &Vec<char>, pos: usize) -> (r: (usize, bool))
    requires
        pos <= cs@.len(),
    ensures
        (r.0 as int, r.1) == after_sign(cs@, pos as int),
        pos <= r.0 <= cs@.len(),
{
    if pos < cs.len() && (cs[pos] == '+' || cs[pos] == '-') {
        (pos + 1, cs[pos] == '-')
    } else {
        (pos, false)
    }
}

/// Decides `exp_end` at a position.
fn exp_end_exec(cs: &Vec<char>, pos: usize) -> (r: usize)
    requires
        pos <= cs@.len(),
    ensures
        r as int == exp_end(cs@, pos as int),
        pos <= r <= cs@.len(),
{
    if pos < cs.len() && (cs[pos] == 'e' || cs[pos] == 'E') {
        let (p, _neg) = after_sign_exec(cs, pos + 1);
        let d = digits_end_exec(cs, p);
        if d > p {
            d
        } else {
            pos
        }
    } else {
        pos
    }
}

/// Decides the integer production at a position.
pub fn integer_at(cs: &Vec<char>, pos: usize) -> (r: Option<(usize, i64)>)
    requires
        pos <= cs@.len(),
    ensures
        match r {
            Some(p) => spec_integer(cs@, pos as int) == Some((p.0 as int, p.1)) && pos < p.0
                <= cs@.len(),
            None => spec_integer(cs@, pos as int) is None,
        },
{
    let (p, neg) = after_sign_exec(cs, pos);
    let d = digits_end_exec(cs, p);
    if d == p {
        return None;
    }
    let t = exp_end_exec(cs, d);
    if t < cs.len() && cs[t] == '.' {
        return None;
    }
    if t != d {
        return None;
    }
    let m = match digits_u64(cs, p, d) {
        Some(m) => m,
        None => {
            proof {
                assert(digits_val(cs@, p as int, d as int) > u64::MAX);
            }
            return None;
        },
    };
    if neg {
        if m <= 9223372036854775808u64 {
            let v: i64 = if m == 9223372036854775808u64 {
                i64::MIN
            } else {
                -(m as i64)
            };
            Some((d, v))
        } else {
            None
        }
    } else {
        if m <= 9223372036854775807u64 {
            Some((d, m as i64))
        } else {
            None
        }
    }
}

/// Decides the float production at a position.
pub fn float_at(cs: &Vec<char>, pos: usize) -> (r: Option<(usize, u64)>)
    requires
        pos <= cs@.len(),
    ensures
        match r {
            Some(p) => spec_float(cs@, pos as int) == Some((p.0 as int, p.1)) && pos < p.0
                <= cs@.len(),
            None => spec_float(cs@, pos as int) is None,
        },
{
    let (p, _neg) = after_sign_exec(cs, pos);
    let d = digits_end_exec(cs, p);
    let m_end: usize = if d > p {
        if d < cs.len() && cs[d] == '.' {
            digits_end_exec(cs, d + 1)
        } else {
            d
        }
    } else {
        if p < cs.len() && cs[p] == '.' {
            let q = digits_end_exec(cs, p + 1);
            if q > p + 1 {
                q
            } else {
                return None;
            }
        } else {
            return None;
        }
    };
    let t = exp_end_exec(cs, m_end);
    if t - pos >= 0x40000000 {
        return None;
    }
    let mut tok: Vec<char> = Vec::new();
    let mut k = pos;
    while k < t
        invariant
            pos <= k <= t,
            t <= cs@.len(),
            tok@ =~= cs@.subrange(pos as int, k as int),
        decreases t - k,
    {
        tok.push(cs[k]);
        proof {
            assert(tok@ =~= cs@.subrange(pos as int, k + 1));
        }
        k = k + 1;
    }
    let tok_s = string_from_chars(&tok);
    proof {
        assert(tok_s@ == cs@.subrange(pos as int, t as int));
        assert(pos < t) by {
            assert(mantissa_end(cs@, pos as int) == Some(m_end as int));
        }
    }
    match text_to_float_bits(tok_s.as_str()) {
        Some(b) => Some((t, b)),
        None => None,
    }
}

/// Decides one string escape.
fn esc_map_exec(c: char) -> (r: Option<char>)
    ensures
        r == esc_map(c),
{
    if c == 'a' {
        Some(7u8 as char)
    } else if c == 'b' {
        Some(8u8 as char)
    } else if c == 'f' {
        Some(12u8 as char)
    } else if c == 'n' {
        Some('\n')
    } else if c == 'r' {
        Some('\r')
    } else if c == 't' {
        Some('\t')
    } else if c == 'v' {
        Some(11u8 as char)
    } else if c == '\'' {
        Some('\'')
    } else if c == '"' {
        Some('"')
    } else if c == '?' {
        Some('?')
    } else if c == '\\' {
        Some('\\')
    } else {
        None
    }
}

/// Decides the string production at a position.
pub fn string_at(cs: &Vec<char>, pos: usize) -> (r: Option<(usize, String)>)
    requires
        pos <= cs@.len(),
    ensures
        match r {
            Some(p) => spec_string(cs@, pos as int) == Some((p.0 as int, p.1@)) && pos < p.0
                <= cs@.len(),
            None => spec_string(cs@, pos as int) is None,
        },
{
    let n = cs.len();
    if !(pos < n && cs[pos] == '"') {
        return None;
    }
    let mut acc: Vec<char> = Vec::new();
    let mut i = pos + 1;
    proof {
        assert(acc@ =~= Seq::<char>::empty());
    }
    while i < n
        invariant
            pos + 1 <= i <= n,
            n == cs@.len(),
            cs@[pos as int] == '"',
            string_body(cs@, pos + 1, Seq::empty()) == string_body(cs@, i as int, acc@),
        decreases n - i,
    {
        let c = cs[i];
        if c == '"' {
            let out = string_from_chars(&acc);
            return Some((i + 1, out));
        } else if c == '\\' {
            if i + 1 < n {
                match esc_map_exec(cs[i + 1]) {
                    Some(e) => {
                        acc.push(e);
                        i = i + 2;
                    },
                    None => {
                        return None;
                    },
                }
            } else {
                return None;
            }
        } else {
            acc.push(c);
            i = i + 1;
        }
    }
    None
}

/// Decides the symbol production at a position.
pub fn symbol_at(cs: &Vec<char>, pos: usize) -> (r: Option<(usize, String)>)
    requires
        pos <= cs@.len(),
    ensures
        match r {
            Some(p) => spec_symbol(cs@, pos as int) == Some((p.0 as int, p.1@)) && pos < p.0
                <= cs@.len(),
            None => spec_symbol(cs@, pos as int) is None,
        },
{
    let n = cs.len();
    if pos < n && cs[pos] == '|' {
        let mut acc: Vec<char> = Vec::new();
        let mut i = pos + 1;
        proof {
            assert(acc@ =~= Seq::<char>::empty());
        }
        while i < n
            invariant
                pos + 1 <= i <= n,
                n == cs@.len(),
                cs@[pos as int] == '|',
                piped_body(cs@, pos + 1, Seq::empty()) == piped_body(cs@, i as int, acc@),
            decreases n - i,
        {
            let c = cs[i];
            if c == '|' {
                let out = string_from_chars(&acc);
                return Some((i + 1, out));
            } else if c == '\\' {
                if i + 1 < n {
                    acc.push(cs[i + 1]);
                    i = i + 2;
                } else {
                    return None;
                }
            } else {
                acc.push(c);
                i = i + 1;
            }
        }
        None
    } else {
        let mut acc: Vec<char> = Vec::new();
        let mut i = pos;
        proof {
            assert(acc@ =~= Seq::<char>::empty());
        }
        loop
            invariant
                pos <= i <= n,
                n == cs@.len(),
                !(pos < cs@.len() && cs@[pos as int] == '|'),
                simple_sym(cs@, pos as int, Seq::empty()) == simple_sym(cs@, i as int, acc@),
            ensures
                pos <= i <= n,
                n == cs@.len(),
                !(pos < cs@.len() && cs@[pos as int] == '|'),
                simple_sym(cs@, pos as int, Seq::empty()) == (i as int, acc@),
            decreases n - i,
        {
            if i < n {
                let c = cs[i];
                if c == '\\' {
                    if i + 1 < n {
                        acc.push(cs[i + 1]);
                        i = i + 2;
                    } else {
                        break;
                    }
                } else if !(c == ' ' || c == '\t' || c == '\n' || c == '\r' || c == '\\' || c
                    == '"' || c == '\'' || c == '`' || c == '(' || c == ')' || c == '#' || c == '|'
                    || c == ';') {
                    acc.push(c);
                    i = i + 1;
                } else {
                    break;
                }
            } else {
                break;
            }
        }
        if i > pos {
            let out = string_from_chars(&acc);
            Some((i, out))
        } else {
            None
        }
    }
}


/// Decides the form production at a position; an `Err` is a fatal parse
/// error (a comma outside any backquote, or a bad backquote template).
pub fn expr_at(cs: &Vec<char>, pos: usize) -> (r: Result<Option<(usize, Expr)>, Error>)
    requires
        pos <= cs@.len(),
    ensures
        match r {
            Ok(Some(p)) => spec_expr_p(cs@, pos as int) == Parsed::Found(p.0 as int, p.1@) && pos
                < p.0 <= cs@.len(),
            Ok(None) => spec_expr_p(cs@, pos as int) is Missing,
            Err(e) => spec_expr_p(cs@, pos as int) == Parsed::<SpecExpr>::Abort(e@),
        },
    decreases cs@.len() - pos, 0nat,
{
    let n = cs.len();
    if pos >= n {
        return Ok(None);
    }
    if let Some((j, v)) = integer_at(cs, pos) {
        return Ok(Some((j, Expr::Integer(v))));
    }
    if let Some((j, b)) = float_at(cs, pos) {
        return Ok(Some((j, Expr::Float(b))));
    }
    if let Some((j, sv)) = string_at(cs, pos) {
        return Ok(Some((j, Expr::String(sv))));
    }
    let c = cs[pos];
    if c == '(' {
        match exprs_at(cs, pos + 1) {
            Ok(Some((j, es))) => {
                if j < n && cs[j] == ')' {
                    proof {
                        lemma_eviews(es@);
                        assert(es.deep_view() =~= eviews(es@));
                    }
                    Ok(Some((j + 1, Expr::Sexpr(es))))
                } else {
                    Ok(None)
                }
            },
            Ok(None) => Ok(None),
            Err(e) => Err(e),
        }
    } else if c == '\'' {
        match expr_at(cs, pos + 1) {
            Ok(Some((j, e))) => Ok(Some((j, Expr::quote(e)))),
            Ok(None) => Ok(None),
            Err(e) => Err(e),
        }
    } else if c == '`' {
        match template_at(cs, pos + 1) {
            Some((j, t)) => match t.compile() {
                Ok(e) => Ok(Some((j, e))),
                Err(er) => Err(er),
            },
            None => Ok(None),
        }
    } else if c == ',' {
        if pos + 1 < n && cs[pos + 1] == '@' {
            match template_at(cs, pos + 2) {
                Some(_) => Err(Error::SyntaxError(String::from_str("comma not inside backquote"))),
                None => match symbol_at(cs, pos) {
                    Some((j, sv)) => Ok(Some((j, Expr::Symbol(sv)))),
                    None => Ok(None),
                },
            }
        } else {
            match template_at(cs, pos + 1) {
                Some(_) => Err(Error::SyntaxError(String::from_str("comma not inside backquote"))),
                None => match symbol_at(cs, pos) {
                    Some((j, sv)) => Ok(Some((j, Expr::Symbol(sv)))),
                    None => Ok(None),
                },
            }
        }
    } else {
        match symbol_at(cs, pos) {
            Some((j, sv)) => Ok(Some((j, Expr::Symbol(sv)))),
            None => Ok(None),
        }
    }
}

/// Parses as many whitespace-separated forms as will match, from `pos`.
pub fn exprs_at(cs: &Vec<char>, pos: usize) -> (r: Result<Option<(usize, Vec<Expr>)>, Error>)
    requires
        pos <= cs@.len(),
    ensures
        match r {
            Ok(Some(p)) => spec_exprs(cs@, pos as int) == Parsed::Found(
                p.0 as int,
                p.1.deep_view(),
            ) && pos <= p.0 <= cs@.len(),
            Ok(None) => spec_exprs(cs@, pos as int) is Missing,
            Err(e) => spec_exprs(cs@, pos as int) == Parsed::<Seq<SpecExpr>>::Abort(e@),
        },
    decreases cs@.len() - pos, 1nat,
{
    let k = skip_ws_exec(cs, pos);
    match expr_at(cs, k) {
        Ok(Some((j, e))) => {
            if k < j && j <= cs.len() {
                match exprs_at(cs, j) {
                    Ok(Some((j2, mut es))) => {
                        let ghost tailviews = es.deep_view();
                        es.insert(0, e);
                        proof {
                            assert(es.deep_view() =~= Seq::empty().push(e@) + tailviews);
                        }
                        Ok(Some((j2, es)))
                    },
                    Ok(None) => Ok(None),
                    Err(er) => Err(er),
                }
            } else {
                // The grammar never stands still: a matched form always
                // consumes at least one character, so this branch (kept to
                // mirror the specification's guard) cannot be reached.
                proof {
                    assert(false);
                }
                Ok(Some((k, Vec::new())))
            }
        },
        Ok(None) => {
            let out: Vec<Expr> = Vec::new();
            proof {
                assert(out.deep_view() =~= Seq::<SpecExpr>::empty());
            }
            Ok(Some((k, out)))
        },
        Err(e) => Err(e),
    }
}

/// Decides the template production at a position.
pub fn template_at(cs: &Vec<char>, pos: usize) -> (r: Option<(usize, Template)>)
    requires
        pos <= cs@.len(),
    ensures
        match r {
            Some(p) => spec_template_p(cs@, pos as int) == Some((p.0 as int, p.1@)) && pos < p.0
                <= cs@.len(),
            None => spec_template_p(cs@, pos as int) is None,
        },
    decreases cs@.len() - pos, 0nat,
{
    let n = cs.len();
    if pos >= n {
        return None;
    }
    if let Some((j, v)) = integer_at(cs, pos) {
        return Some((j, Template::Integer(v)));
    }
    if let Some((j, b)) = float_at(cs, pos) {
        return Some((j, Template::Float(b)));
    }
    if let Some((j, sv)) = string_at(cs, pos) {
        return Some((j, Template::String(sv)));
    }
    let c = cs[pos];
    if c == '(' {
        match templates_at(cs, pos + 1) {
            Some((j, ts)) => {
                if j < n && cs[j] == ')' {
                    proof {
                        lemma_tviews(ts@);
                        assert(ts.deep_view() =~= tviews(ts@));
                    }
                    Some((j + 1, Template::Sexpr(ts)))
                } else {
                    None
                }
            },
            None => None,
        }
    } else if c == '\'' {
        match template_at(cs, pos + 1) {
            Some((j, t)) => Some((j, Template::quote(t))),
            None => None,
        }
    } else if c == '`' {
        match template_at(cs, pos + 1) {
            Some((j, t)) => Some((j, Template::Template(Box::new(t)))),
            None => None,
        }
    } else if c == ',' {
        if pos + 1 < n && cs[pos + 1] == '@' {
            match template_at(cs, pos + 2) {
                Some((j, t)) => Some((j, Template::TemplateListExpr(Box::new(t)))),
                None => match symbol_at(cs, pos) {
                    Some((j, sv)) => Some((j, Template::Symbol(sv))),
                    None => None,
                },
            }
        } else {
            match template_at(cs, pos + 1) {
                Some((j, t)) => Some((j, Template::TemplateExpr(Box::new(t)))),
                None => match symbol_at(cs, pos) {
                    Some((j, sv)) => Some((j, Template::Symbol(sv))),
                    None => None,
                },
            }
        }
    } else {
        match symbol_at(cs, pos) {
            Some((j, sv)) => Some((j, Template::Symbol(sv))),
            None => None,
        }
    }
}

/// Parses as many whitespace-separated template nodes as will match.
pub fn templates_at(cs: &Vec<char>, pos: usize) -> (r: Option<(usize, Vec<Template>)>)
    requires
        pos <= cs@.len(),
    ensures
        match r {
            Some(p) => spec_templates(cs@, pos as int) == Some((p.0 as int, p.1.deep_view()))
                && pos <= p.0 <= cs@.len(),
            None => spec_templates(cs@, pos as int) is None,
        },
    decreases cs@.len() - pos, 1nat,
{
    let k = skip_ws_exec(cs, pos);
    match template_at(cs, k) {
        Some((j, t)) => {
            if k < j && j <= cs.len() {
                match templates_at(cs, j) {
                    Some((j2, mut ts)) => {
                        let ghost tailviews = ts.deep_view();
                        ts.insert(0, t);
                        proof {
                            assert(ts.deep_view() =~= Seq::empty().push(t@) + tailviews);
                        }
                        Some((j2, ts))
                    },
                    None => None,
                }
            } else {
                // Unreachable for the same reason as in `exprs_at`.
                proof {
                    assert(false);
                }
                Some((k, Vec::new()))
            }
        },
        None => {
            let out: Vec<Template> = Vec::new();
            proof {
                assert(out.deep_view() =~= Seq::<SpecTemplate>::empty());
            }
            Some((k, out))
        },
    }
}

/// Parses a whole source text into its top-level forms, as `spec_parse`
/// states it; a failure's message is the failing error's description.
pub fn parse(string: &str) -> (r: Result<Vec<Expr>, String>)
    ensures
        match spec_parse(string@) {
            Ok(es) => r matches Ok(v) && v.deep_view() == es,
            Err(e) => r matches Err(msg) && msg@ == spec_describe(e),
        },
{
    let cs = str_chars(string);
    match exprs_at(&cs, 0) {
        Ok(Some((j, es))) => {
            if j == cs.len() {
                Ok(es)
            } else {
                Err(Error::SyntaxError(String::from_str("expected end of input")).describe())
            }
        },
        Ok(None) => Err(Error::SyntaxError(String::from_str("expected end of input")).describe()),
        Err(e) => Err(e.describe()),
    }
}


// ------------------------------------------------------------------
// Parsed forms are free of template markers: a comma either aborts the
// parse or is compiled away inside a backquote.
// ------------------------------------------------------------------

proof fn lemma_convert_no_markers(t: SpecTemplate)
    ensures
        crate::template::spec_convert(t) matches Ok(e) ==> crate::expr::no_markers(e),
    decreases t, 0nat,
{
    match t {
        SpecTemplate::Sexpr(children) => {
            lemma_convert_children_no_markers(children);
        },
        _ => {},
    }
}

proof fn lemma_convert_children_no_markers(s: Seq<SpecTemplate>)
    ensures
        crate::template::spec_convert_children(s) matches Ok(es) ==> forall|i: int|
            0 <= i < es.len() ==> crate::expr::no_markers(#[trigger] es[i]),
    decreases s, 1nat,
{
    if s.len() > 0 {
        lemma_convert_no_markers(s[0]);
        lemma_convert_children_no_markers(s.subrange(1, s.len() as int));
        match crate::template::spec_convert_children(s) {
            Ok(es) => {
                let head = crate::template::spec_convert(s[0])->Ok_0;
                let tail = crate::template::spec_convert_children(
                    s.subrange(1, s.len() as int),
                )->Ok_0;
                assert(es == Seq::empty().push(head) + tail);
                assert(forall|i: int| 1 <= i < es.len() ==> es[i] == tail[i - 1]);
            },
            Err(_) => {},
        }
    }
}

proof fn lemma_expr_p_no_markers(cs: Seq<char>, i: int)
    ensures
        spec_expr_p(cs, i) matches Parsed::Found(j, e) ==> crate::expr::no_markers(e),
    decreases cs.len() - i, 0nat,
{
    if 0 <= i < cs.len() {
        if spec_integer(cs, i) is Some {
        } else if spec_float(cs, i) is Some {
        } else if spec_string(cs, i) is Some {
        } else if cs[i] == '(' {
            lemma_exprs_no_markers(cs, i + 1);
        } else if cs[i] == '\'' {
            lemma_expr_p_no_markers(cs, i + 1);
            match spec_expr_p(cs, i + 1) {
                Parsed::Found(j, e) => {
                    let w = seq![SpecExpr::Symbol("quote"@), e];
                    assert(crate::expr::no_markers(w[0]));
                    assert(crate::expr::no_markers(w[1]));
                    assert(forall|k: int| 0 <= k < w.len() ==> crate::expr::no_markers(
                        #[trigger] w[k]));
                },
                _ => {},
            }
        } else if cs[i] == '`' {
            match spec_template_p(cs, i + 1) {
                Some((j, t)) => {
                    match crate::template::spec_compile_root(t) {
                        Ok(c) => {
                            lemma_convert_no_markers(c);
                        },
                        Err(_) => {},
                    }
                },
                None => {},
            }
        } else {
        }
    }
}

pub proof fn lemma_exprs_no_markers(cs: Seq<char>, i: int)
    ensures
        spec_exprs(cs, i) matches Parsed::Found(j, es) ==> forall|k: int|
            0 <= k < es.len() ==> crate::expr::no_markers(#[trigger] es[k]),
    decreases cs.len() - i, 1nat,
{
    if 0 <= i <= cs.len() {
        let k = skip_ws(cs, i);
        if i <= k <= cs.len() {
            lemma_expr_p_no_markers(cs, k);
            match spec_expr_p(cs, k) {
                Parsed::Found(j, e) => {
                    if i <= k < j && j <= cs.len() {
                        lemma_exprs_no_markers(cs, j);
                        match spec_exprs(cs, j) {
                            Parsed::Found(j2, tail) => {
                                let es = Seq::empty().push(e) + tail;
                                assert(forall|q: int| 1 <= q < es.len() ==> es[q] == tail[q - 1]);
                                assert(es[0] == e);
                            },
                            _ => {},
                        }
                    }
                },
                _ => {},
            }
        }
    }
}

/// What reading a whole source text yields: no form is nil, one form is
/// itself, several forms are wrapped in an implicit `progn`.
pub open spec fn spec_read(cs: Seq<char>) -> Result<crate::value::SpecValue, SpecError> {
    match spec_parse(cs) {
        Ok(es) => {
            if es.len() == 0 {
                Ok(crate::value::SpecValue::Nil)
            } else if es.len() == 1 {
                Ok(crate::expr::spec_into_value(es[0]))
            } else {
                Ok(
                    crate::value::SpecValue::Cons(
                        Box::new(crate::value::SpecValue::Symbol("progn"@)),
                        Box::new(crate::value::mk_list(crate::expr::into_values(es))),
                    ),
                )
            }
        },
        Err(e) => Err(e),
    }
}

} // verus!
