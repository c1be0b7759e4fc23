//! S-expressions as KiCAD writes them: a reader from text and a writer back to
//! KiCAD's layout.
//!
//! The grammar, at any point of the input:
//! - `(` opens a list of expressions separated by whitespace (space, tab, CR, LF)
//!   and closed by `)`;
//! - `"` opens a string; `\\`, `\"`, `\n`, `\r` and `\t` are its escapes;
//! - `-`? digits (`.` digits*)? ([eE] [+-]? digits)? is a number;
//! - a run of alphanumeric characters and `_ - . / : ~ + *` is a symbol.
//!
//! Numbers are held exactly, as a decimal mantissa and scale.
use vstd::prelude::*;

verus! {

/// A decimal number: `mantissa × 10^(-scale)`.
#[derive(Clone, Copy, Debug, PartialEq, Eq, Structural)]
pub struct Decimal {
    pub mantissa: i64,
    pub scale: u32,
}

/// An S-expression value
#[derive(Debug, PartialEq)]
pub enum SExpr {
    /// A symbol/identifier like `kicad_symbol_lib` or `pin`
    Symbol(String),
    /// A quoted string like `"Resistor"`
    String(String),
    /// A numeric value
    Number(Decimal),
    /// A list of S-expressions like `(property "Value" "R")`
    List(Vec<SExpr>),
}

/// The mathematical value of an S-expression.
pub enum SExprView {
    Symbol(Seq<char>),
    Str(Seq<char>),
    Number(Decimal),
    List(Seq<SExprView>),
}

/// The view of an S-expression: strings by their characters, lists by their items.
pub open spec fn sexpr_view(e: SExpr) -> SExprView
    decreases e,
{
    match e {
        SExpr::Symbol(s) => SExprView::Symbol(s@),
        SExpr::String(s) => SExprView::Str(s@),
        SExpr::Number(n) => SExprView::Number(n),
        SExpr::List(items) => SExprView::List(
            Seq::new(
                items@.len(),
                |i: int|
                    if 0 <= i < items@.len() {
                        proof {
                            assert(decreases_to!(e => items));
                            assert(decreases_to!(items => items@));
                            assert(decreases_to!(items@ => items@[i]));
                        }
                        sexpr_view(items@[i])
                    } else {
                        SExprView::List(Seq::empty())
                    },
            ),
        ),
    }
}

impl View for SExpr {
    type V = SExprView;

    open spec fn view(&self) -> SExprView {
        sexpr_view(*self)
    }
}


/// What went wrong when reading an S-expression.
#[derive(Clone, Copy, Debug, PartialEq, Eq, Structural)]
pub enum ParseErrorKind {
    /// No expression starts here.
    ExpectedExpression,
    /// A list is not closed by `)`.
    UnclosedList,
    /// A string is not closed by `"`.
    UnclosedString,
    /// A backslash in a string is not followed by one of `\ " n r t`.
    InvalidEscape,
    /// A number whose exact value is not held by a `Decimal`.
    NumberOutOfRange,
}

/// A reading error, at a position counted in characters from the start of the input.
#[derive(Clone, Copy, Debug, PartialEq, Eq, Structural)]
pub struct ParseError {
    pub position: usize,
    pub kind: ParseErrorKind,
}

/// The outcome of reading one item at a position: the item and the position after it;
/// no match (another alternative may be tried); or a definite error.
pub enum Step<T> {
    Done(T, int),
    NoMatch,
    Fail(int, ParseErrorKind),
}

/// The whitespace that separates expressions.
pub open spec fn is_multispace(c: char) -> bool {
    c == ' ' || c == '\t' || c == '\r' || c == '\n'
}

pub open spec fn is_digit(c: char) -> bool {
    '0' <= c && c <= '9'
}

/// Whether `char::is_alphanumeric` holds of a non-ASCII character (Unicode's
/// Alphabetic or Numeric property).
pub uninterp spec fn alphanumeric(c: char) -> bool;

/// Whether `char::is_alphanumeric` holds of a character: on ASCII, exactly the
/// letters and digits; beyond ASCII, as named by `alphanumeric`.
pub open spec fn is_alphanumeric_char(c: char) -> bool {
    if (c as u32) < 128 {
        ('a' <= c && c <= 'z') || ('A' <= c && c <= 'Z') || ('0' <= c && c <= '9')
    } else {
        alphanumeric(c)
    }
}

/// Wrapper around `char::is_alphanumeric`. On ASCII characters, Unicode's
/// Alphabetic and Numeric properties hold exactly of the letters and the digits;
/// beyond ASCII the result is named by `alphanumeric`.
#[verifier::external_body]
fn is_alphanumeric(c: char) -> (r: bool)
    ensures
        (c as u32) < 128 ==> (r <==> (('a' <= c && c <= 'z') || ('A' <= c && c <= 'Z') || ('0'
            <= c && c <= '9'))),
        (c as u32) >= 128 ==> r == alphanumeric(c),
{
    c.is_alphanumeric()
}

/// The characters a symbol is made of.
pub open spec fn is_symbol_char(c: char) -> bool {
    is_alphanumeric_char(c) || c == '_' || c == '-' || c == '.' || c == '/' || c == ':' || c == '~' || c
        == '+' || c == '*'
}

/// The first position at or after `i` that holds no whitespace.
pub open spec fn ws_end(s: Seq<char>, i: int) -> int
    decreases s.len() - i,
{
    if 0 <= i < s.len() && is_multispace(s[i]) {
        ws_end(s, i + 1)
    } else {
        i
    }
}

/// The first position at or after `i` that holds no symbol character.
pub open spec fn symbol_end(s: Seq<char>, i: int) -> int
    decreases s.len() - i,
{
    if 0 <= i < s.len() && is_symbol_char(s[i]) {
        symbol_end(s, i + 1)
    } else {
        i
    }
}

/// The first position at or after `i` that holds no digit.
pub open spec fn digits_end(s: Seq<char>, i: int) -> int
    decreases s.len() - i,
{
    if 0 <= i < s.len() && is_digit(s[i]) {
        digits_end(s, i + 1)
    } else {
        i
    }
}

/// The character that an escape `\c` stands for.
pub open spec fn unescape(c: char) -> Option<char> {
    if c == '\\' {
        Some('\\')
    } else if c == '"' {
        Some('"')
    } else if c == 'n' {
        Some('\n')
    } else if c == 'r' {
        Some('\r')
    } else if c == 't' {
        Some('\t')
    } else {
        None
    }
}

/// The rest of a string from position `i` (after the opening quote), with `acc`
/// read so far.
pub open spec fn string_body(s: Seq<char>, i: int, acc: Seq<char>) -> Step<Seq<char>>
    decreases s.len() - i,
{
    if i < 0 || i >= s.len() {
        Step::Fail(s.len() as int, ParseErrorKind::UnclosedString)
    } else if s[i] == '"' {
        Step::Done(acc, i + 1)
    } else if s[i] == '\\' {
        if i + 1 < s.len() && unescape(s[i + 1]) is Some {
            string_body(s, i + 2, acc.push(unescape(s[i + 1])->0))
        } else {
            Step::Fail(i, ParseErrorKind::InvalidEscape)
        }
    } else {
        string_body(s, i + 1, acc.push(s[i]))
    }
}

/// Whether an exec outcome carrying a value `w` agrees with a step that carries `v`.
pub open spec fn agrees<T, U>(r: Result<(T, usize), ParseError>, step: Step<U>, f: spec_fn(T) -> U) -> bool {
    match step {
        Step::Done(v, next) => r matches Ok((w, n)) && f(w) == v && n == next,
        Step::Fail(p, k) => r matches Err(e) && e.position == p && e.kind == k,
        Step::NoMatch => false,
    }
}

fn skip_ws(chars: &Vec<char>, i: usize) -> (r: usize)
    requires
        i <= chars@.len(),
    ensures
        r == ws_end(chars@, i as int),
        i <= r <= chars@.len(),
{
    let mut j = i;
    while j < chars.len() && (chars[j] == ' ' || chars[j] == '\t' || chars[j] == '\r' || chars[j]
        == '\n')
        invariant
            i <= j <= chars@.len(),
            ws_end(chars@, i as int) == ws_end(chars@, j as int),
        decreases chars@.len() - j,
    {
        j = j + 1;
    }
    j
}

fn symbol_char(c: char) -> (r: bool)
    ensures
        r == is_symbol_char(c),
{
    is_alphanumeric(c) || c == '_' || c == '-' || c == '.' || c == '/' || c == ':' || c == '~'
        || c == '+' || c == '*'
}

fn skip_symbol(chars: &Vec<char>, i: usize) -> (r: usize)
    requires
        i <= chars@.len(),
    ensures
        r == symbol_end(chars@, i as int),
        i <= r <= chars@.len(),
{
    let mut j = i;
    while j < chars.len() && symbol_char(chars[j])
        invariant
            i <= j <= chars@.len(),
            symbol_end(chars@, i as int) == symbol_end(chars@, j as int),
        decreases chars@.len() - j,
    {
        j = j + 1;
    }
    j
}

fn skip_digits(chars: &Vec<char>, i: usize) -> (r: usize)
    requires
        i <= chars@.len(),
    ensures
        r == digits_end(chars@, i as int),
        i <= r <= chars@.len(),
{
    let mut j = i;
    while j < chars.len() && '0' <= chars[j] && chars[j] <= '9'
        invariant
            i <= j <= chars@.len(),
            digits_end(chars@, i as int) == digits_end(chars@, j as int),
        decreases chars@.len() - j,
    {
        j = j + 1;
    }
    j
}

/// Reads the body of a string whose opening quote stands just before `start`.
fn scan_string(chars: &Vec<char>, start: usize) -> (r: Result<(String, usize), ParseError>)
    requires
        start <= chars@.len(),
    ensures
        agrees(r, string_body(chars@, start as int, seq![]), |w: String| w@),
{
    let mut acc = String::new();
    let mut i = start;
    let n = chars.len();
    while i < n
        invariant
            start <= i <= n == chars@.len(),
            string_body(chars@, start as int, seq![]) == string_body(chars@, i as int, acc@),
        decreases n - i,
    {
        let c = chars[i];
        if c == '"' {
            return Ok((acc, i + 1));
        } else if c == '\\' {
            if i + 1 < n {
                let d = chars[i + 1];
                let u = if d == '\\' {
                    '\\'
                } else if d == '"' {
                    '"'
                } else if d == 'n' {
                    '\n'
                } else if d == 'r' {
                    '\r'
                } else if d == 't' {
                    '\t'
                } else {
                    return Err(ParseError { position: i, kind: ParseErrorKind::InvalidEscape });
                };
                crate::text::push_char(&mut acc, u);
                i = i + 2;
            } else {
                return Err(ParseError { position: i, kind: ParseErrorKind::InvalidEscape });
            }
        } else {
            crate::text::push_char(&mut acc, c);
            i = i + 1;
        }
    }
    Err(ParseError { position: n, kind: ParseErrorKind::UnclosedString })
}


/// Ten to the power `n`.
pub open spec fn pow10(n: nat) -> int
    decreases n,
{
    if n == 0 {
        1
    } else {
        10 * pow10((n - 1) as nat)
    }
}

/// The value of a digit character.
pub open spec fn digit_value(c: char) -> int {
    c as int - '0' as int
}

/// The value of a sequence of digits read in base ten.
pub open spec fn digits_value(d: Seq<char>) -> int
    decreases d.len(),
{
    if d.len() == 0 {
        0
    } else {
        digits_value(d.drop_last()) * 10 + digit_value(d.last())
    }
}

/// `d` without its leading zeros.
pub open spec fn strip_leading_zeros(d: Seq<char>) -> Seq<char>
    decreases d.len(),
{
    if d.len() > 0 && d[0] == '0' {
        strip_leading_zeros(d.drop_first())
    } else {
        d
    }
}

/// `d` without its trailing zeros.
pub open spec fn strip_trailing_zeros(d: Seq<char>) -> Seq<char>
    decreases d.len(),
{
    if d.len() > 0 && d.last() == '0' {
        strip_trailing_zeros(d.drop_last())
    } else {
        d
    }
}

/// The decimal whose value is `±digits × 10^exp10`, in its canonical form: the
/// mantissa carries no trailing zero unless the scale is 0, and zero is `0 × 10^0`.
/// `None` when the mantissa or the scale of that form does not fit.
pub open spec fn decimal_from(neg: bool, digits: Seq<char>, exp10: int) -> Option<Decimal> {
    let lead = strip_leading_zeros(digits);
    if lead.len() == 0 {
        Some(Decimal { mantissa: 0, scale: 0 })
    } else {
        let sig = strip_trailing_zeros(lead);
        let shift = exp10 + (lead.len() - sig.len());
        let t = digits_value(sig);
        let m = if shift >= 0 {
            t * pow10(shift as nat)
        } else {
            t
        };
        let sc = if shift >= 0 {
            0
        } else {
            -shift
        };
        let sm = if neg {
            -m
        } else {
            m
        };
        if i64::MIN <= sm <= i64::MAX && sc <= u32::MAX {
            Some(Decimal { mantissa: sm as i64, scale: sc as u32 })
        } else {
            None
        }
    }
}

/// The number at position `i`: `-`? digits (`.` digits*)? ([eE] [+-]? digits)?,
/// the exponent taken only when it has a digit.
pub open spec fn number_at(s: Seq<char>, i: int) -> Step<Decimal> {
    let neg = 0 <= i < s.len() && s[i] == '-';
    let j = if neg {
        i + 1
    } else {
        i
    };
    let k = digits_end(s, j);
    if i < 0 || i > s.len() || k == j {
        Step::NoMatch
    } else {
        let has_dot = k < s.len() && s[k] == '.';
        let fstart = if has_dot {
            k + 1
        } else {
            k
        };
        let fe = digits_end(s, fstart);
        let has_e = fe < s.len() && (s[fe] == 'e' || s[fe] == 'E');
        let signed = fe + 1 < s.len() && (s[fe + 1] == '+' || s[fe + 1] == '-');
        let q = if signed {
            fe + 2
        } else {
            fe + 1
        };
        let ee = digits_end(s, q);
        let has_exp = has_e && ee > q;
        let end = if has_exp {
            ee
        } else {
            fe
        };
        let e_abs = digits_value(s.subrange(q, ee));
        let e_val = if !has_exp {
            0
        } else if signed && s[fe + 1] == '-' {
            -e_abs
        } else {
            e_abs
        };
        let digits = s.subrange(j, k) + s.subrange(fstart, fe);
        match decimal_from(neg, digits, e_val - (fe - fstart)) {
            Some(d) => Step::Done(d, end),
            None => Step::Fail(i, ParseErrorKind::NumberOutOfRange),
        }
    }
}


pub proof fn lemma_pow10_positive(n: nat)
    ensures
        pow10(n) >= 1,
    decreases n,
{
    if n > 0 {
        lemma_pow10_positive((n - 1) as nat);
    }
}

pub proof fn lemma_pow10_monotone(a: nat, b: nat)
    requires
        a <= b,
    ensures
        pow10(a) <= pow10(b),
    decreases b,
{
    if a < b {
        lemma_pow10_monotone(a, (b - 1) as nat);
        lemma_pow10_positive((b - 1) as nat);
    }
}

pub proof fn lemma_pow10_19()
    ensures
        pow10(19) == 10000000000000000000,
{
    reveal_with_fuel(pow10, 20);
}

/// Bounds on the value of a digit sequence by its length.
pub proof fn lemma_digits_value_bounds(d: Seq<char>)
    requires
        forall|t: int| 0 <= t < d.len() ==> is_digit(#[trigger] d[t]),
    ensures
        0 <= digits_value(d) < pow10(d.len()),
        d.len() > 0 && d[0] != '0' ==> digits_value(d) >= pow10((d.len() - 1) as nat),
    decreases d.len(),
{
    if d.len() > 0 {
        let p = d.drop_last();
        assert forall|t: int| 0 <= t < p.len() implies is_digit(#[trigger] p[t]) by {
            assert(p[t] == d[t]);
        }
        lemma_digits_value_bounds(p);
        assert(is_digit(d[d.len() - 1]));
        if d.len() > 1 {
            assert(p[0] == d[0]);
        }
    }
}

pub proof fn lemma_strip_leading(d: Seq<char>, a: int)
    requires
        0 <= a <= d.len(),
        forall|t: int| 0 <= t < a ==> d[t] == '0',
        a == d.len() || d[a] != '0',
    ensures
        strip_leading_zeros(d) == d.subrange(a, d.len() as int),
    decreases a,
{
    if a == 0 {
        assert(d.subrange(0, d.len() as int) == d);
    } else {
        let r = d.drop_first();
        assert forall|t: int| 0 <= t < a - 1 implies r[t] == '0' by {
            assert(r[t] == d[t + 1]);
        }
        if a < d.len() {
            assert(r[a - 1] == d[a]);
        }
        lemma_strip_leading(r, a - 1);
        assert(r.subrange(a - 1, r.len() as int) == d.subrange(a, d.len() as int));
    }
}

pub proof fn lemma_strip_trailing(d: Seq<char>, b: int)
    requires
        0 <= b <= d.len(),
        forall|t: int| b <= t < d.len() ==> d[t] == '0',
        b == 0 || d[b - 1] != '0',
    ensures
        strip_trailing_zeros(d) == d.subrange(0, b),
    decreases d.len() - b,
{
    if b == d.len() {
        assert(d.subrange(0, d.len() as int) == d);
    } else {
        let r = d.drop_last();
        assert forall|t: int| b <= t < r.len() implies r[t] == '0' by {
            assert(r[t] == d[t]);
        }
        if b > 0 {
            assert(r[b - 1] == d[b - 1]);
        }
        lemma_strip_trailing(r, b);
        assert(r.subrange(0, b) == d.subrange(0, b));
    }
}

/// A sequence of digits that starts with a nonzero digit keeps that digit when its
/// trailing zeros go.
proof fn lemma_strip_trailing_keeps_first(d: Seq<char>)
    requires
        d.len() > 0,
        d[0] != '0',
    ensures
        strip_trailing_zeros(d).len() > 0,
        strip_trailing_zeros(d)[0] == d[0],
        strip_trailing_zeros(d).len() <= d.len(),
        forall|t: int|
            0 <= t < strip_trailing_zeros(d).len() ==> #[trigger] strip_trailing_zeros(d)[t]
                == d[t],
    decreases d.len(),
{
    if d.last() == '0' {
        assert(d.len() > 1);
        let r = d.drop_last();
        assert(r[0] == d[0]);
        lemma_strip_trailing_keeps_first(r);
    }
}

proof fn lemma_strip_leading_shape(d: Seq<char>)
    ensures
        strip_leading_zeros(d).len() <= d.len(),
        strip_leading_zeros(d).len() > 0 ==> strip_leading_zeros(d)[0] != '0',
        forall|t: int|
            0 <= t < strip_leading_zeros(d).len() ==> #[trigger] strip_leading_zeros(d)[t]
                == d[t + d.len() - strip_leading_zeros(d).len()],
    decreases d.len(),
{
    if d.len() > 0 && d[0] == '0' {
        lemma_strip_leading_shape(d.drop_first());
    }
}

/// Beyond a length's worth of zeros, how far an exponent lies makes no difference:
/// far above, every nonzero value is out of range; far below, so is its scale.
proof fn lemma_decimal_far_exponent(neg: bool, d: Seq<char>, x: int, y: int)
    requires
        forall|t: int| 0 <= t < d.len() ==> is_digit(#[trigger] d[t]),
        d.len() < 0x1_0000_0000_0000_0000,
        (x >= 0x1_0000_0000_0000_0000 && y >= 0x1_0000_0000_0000_0000) || (x <= -0x2_0000_0000_0000_0000
            && y <= -0x2_0000_0000_0000_0000),
    ensures
        decimal_from(neg, d, x) == decimal_from(neg, d, y),
{
    let lead = strip_leading_zeros(d);
    lemma_strip_leading_shape(d);
    if lead.len() > 0 {
        lemma_strip_trailing_keeps_first(lead);
        let sig = strip_trailing_zeros(lead);
        assert forall|t: int| 0 <= t < sig.len() implies is_digit(#[trigger] sig[t]) by {
            assert(sig[t] == lead[t]);
            assert(lead[t] == d[t + d.len() - lead.len()]);
        }
        lemma_digits_value_bounds(sig);
        lemma_pow10_positive((sig.len() - 1) as nat);
        let tv = digits_value(sig);
        assert(tv >= 1);
        let z = lead.len() - sig.len();
        if x >= 0x1_0000_0000_0000_0000 {
            lemma_pow10_monotone(19, (x + z) as nat);
            lemma_pow10_monotone(19, (y + z) as nat);
            lemma_pow10_19();
            let px = pow10((x + z) as nat);
            let py = pow10((y + z) as nat);
            assert(tv * px >= px) by (nonlinear_arith)
                requires
                    tv >= 1,
                    px >= 1,
            ;
            assert(tv * py >= py) by (nonlinear_arith)
                requires
                    tv >= 1,
                    py >= 1,
            ;
        }
    }
}

/// Ten to the power `k`, for small `k`.
pub fn pow10_exec(k: u32) -> (r: u64)
    requires
        k <= 19,
    ensures
        r == pow10(k as nat),
{
    let mut r: u64 = 1;
    let mut i: u32 = 0;
    while i < k
        invariant
            i <= k <= 19,
            r == pow10(i as nat),
        decreases k - i,
    {
        proof {
            lemma_pow10_monotone((i + 1) as nat, 19);
            lemma_pow10_19();
        }
        r = r * 10;
        i = i + 1;
    }
    r
}

/// The canonical decimal of `±ds × 10^exp10`.
fn make_decimal(neg: bool, ds: &Vec<char>, exp10: i128) -> (r: Option<Decimal>)
    requires
        forall|t: int| 0 <= t < ds@.len() ==> is_digit(#[trigger] ds@[t]),
        -0x100_0000_0000_0000_0000 < exp10 < 0x100_0000_0000_0000_0000,
    ensures
        r == decimal_from(neg, ds@, exp10 as int),
{
    let n = ds.len();
    let mut a: usize = 0;
    while a < n && ds[a] == '0'
        invariant
            a <= n == ds@.len(),
            forall|t: int| 0 <= t < a ==> ds@[t] == '0',
        decreases n - a,
    {
        a = a + 1;
    }
    proof {
        lemma_strip_leading(ds@, a as int);
    }
    let ghost lead = ds@.subrange(a as int, n as int);
    if a == n {
        return Some(Decimal { mantissa: 0, scale: 0 });
    }
    let mut b: usize = n;
    while b > a && ds[b - 1] == '0'
        invariant
            a < n == ds@.len(),
            a <= b <= n,
            ds@[a as int] != '0',
            forall|t: int| b <= t < n ==> ds@[t] == '0',
        decreases b - a,
    {
        b = b - 1;
    }
    proof {
        assert forall|t: int| b - a <= t < lead.len() implies lead[t] == '0' by {
            assert(lead[t] == ds@[t + a]);
        }
        if b - a > 0 {
            assert(lead[b - a - 1] == ds@[b - 1]);
        }
        lemma_strip_trailing(lead, b - a);
        assert(lead.subrange(0, b - a) == ds@.subrange(a as int, b as int));
    }
    let ghost sig = ds@.subrange(a as int, b as int);
    assert(b > a);
    proof {
        assert(sig[0] == ds@[a as int]);
        assert forall|t: int| 0 <= t < sig.len() implies is_digit(#[trigger] sig[t]) by {
            assert(sig[t] == ds@[t + a]);
        }
        lemma_digits_value_bounds(sig);
    }
    let limit: u128 = if neg {
        0x8000_0000_0000_0000
    } else {
        0x7fff_ffff_ffff_ffff
    };
    if b - a > 19 {
        proof {
            lemma_pow10_monotone(19, (sig.len() - 1) as nat);
            lemma_pow10_19();
            let tv = digits_value(sig);
            let sh = exp10 + (n - b);
            if sh >= 0 {
                lemma_pow10_positive(sh as nat);
                let p = pow10(sh as nat);
                assert(tv * p >= tv) by (nonlinear_arith)
                    requires
                        tv >= 0,
                        p >= 1,
                ;
            }
        }
        return None;
    }
    let mut t: u64 = 0;
    let mut p: usize = a;
    while p < b
        invariant
            a <= p <= b <= n == ds@.len(),
            b - a <= 19,
            forall|x: int| 0 <= x < ds@.len() ==> is_digit(#[trigger] ds@[x]),
            t == digits_value(ds@.subrange(a as int, p as int)),
        decreases b - p,
    {
        proof {
            let sub = ds@.subrange(a as int, p + 1);
            assert(sub.drop_last() == ds@.subrange(a as int, p as int));
            assert forall|x: int| 0 <= x < sub.len() implies is_digit(#[trigger] sub[x]) by {
                assert(sub[x] == ds@[x + a]);
            }
            lemma_digits_value_bounds(sub);
            lemma_pow10_monotone(sub.len(), 19);
            lemma_pow10_19();
            assert(is_digit(ds@[p as int]));
        }
        let dv = (ds[p] as u32 - '0' as u32) as u64;
        t = t * 10 + dv;
        p = p + 1;
    }
    assert(t == digits_value(sig));
    let shift: i128 = exp10 + (n - b) as i128;
    if shift >= 0 {
        if t as u128 > limit {
            proof {
                lemma_pow10_positive(shift as nat);
                let ps = pow10(shift as nat);
                let tt = t as int;
                assert(tt * ps >= tt) by (nonlinear_arith)
                    requires
                        tt >= 0,
                        ps >= 1,
                ;
            }
            return None;
        }
        let mut m: u128 = t as u128;
        let mut i: i128 = 0;
        while i < shift
            invariant
                0 <= i <= shift,
                t == digits_value(sig),
                t >= 0,
                m == t * pow10(i as nat),
                m <= 0x8000_0000_0000_0000,
                limit == (if neg {
                    0x8000_0000_0000_0000u128
                } else {
                    0x7fff_ffff_ffff_ffffu128
                }),
                a < b <= n == ds@.len(),
                strip_leading_zeros(ds@) == ds@.subrange(a as int, n as int),
                strip_trailing_zeros(ds@.subrange(a as int, n as int)) == sig,
                sig == ds@.subrange(a as int, b as int),
                shift == exp10 + (n - b),
            decreases shift - i,
        {
            proof {
                let pi = pow10(i as nat);
                let tt = t as int;
                assert(tt * (10 * pi) == 10 * (tt * pi)) by (nonlinear_arith);
            }
            m = m * 10;
            i = i + 1;
            if m > limit {
                proof {
                    lemma_pow10_monotone(i as nat, shift as nat);
                    let pi = pow10(i as nat);
                    let ps = pow10(shift as nat);
                    let tt = t as int;
                    assert(tt * pi <= tt * ps) by (nonlinear_arith)
                        requires
                            tt >= 0,
                            pi <= ps,
                    ;
                }
                return None;
            }
        }
        if m > limit {
            return None;
        }
        let mantissa: i64 = if neg {
            (0 - (m as i128)) as i64
        } else {
            m as i64
        };
        Some(Decimal { mantissa, scale: 0 })
    } else {
        let sc: i128 = 0 - shift;
        if sc > 0xffff_ffff {
            return None;
        }
        let m = t as u128;
        if m > limit {
            return None;
        }
        let mantissa: i64 = if neg {
            (0 - (m as i128)) as i64
        } else {
            m as i64
        };
        Some(Decimal { mantissa, scale: sc as u32 })
    }
}


/// Whether an exec outcome with `None` for no match agrees with a step.
pub open spec fn agrees_opt<T>(r: Result<Option<(T, usize)>, ParseError>, step: Step<T>) -> bool {
    match r {
        Ok(None) => step is NoMatch,
        Ok(Some((v, n))) => step == Step::Done(v, n as int),
        Err(e) => step == Step::<T>::Fail(e.position as int, e.kind),
    }
}

pub proof fn lemma_digits_end(s: Seq<char>, i: int)
    requires
        0 <= i <= s.len(),
    ensures
        i <= digits_end(s, i) <= s.len(),
        forall|t: int| i <= t < digits_end(s, i) ==> is_digit(#[trigger] s[t]),
        digits_end(s, i) < s.len() ==> !is_digit(s[digits_end(s, i)]),
    decreases s.len() - i,
{
    if i < s.len() && is_digit(s[i]) {
        lemma_digits_end(s, i + 1);
    }
}

/// The value of the exponent digits `chars[q..ee]`, exact below 2^65 and at least
/// 2^65 otherwise.
fn read_exponent(chars: &Vec<char>, q: usize, ee: usize) -> (e: i128)
    requires
        q <= ee <= chars@.len(),
        forall|x: int| q <= x < ee ==> is_digit(#[trigger] chars@[x]),
    ensures
        0 <= e <= 0x14_0000_0000_0000_0009,
        (e == digits_value(chars@.subrange(q as int, ee as int))) || (e >= 0x2_0000_0000_0000_0000
            && digits_value(chars@.subrange(q as int, ee as int)) >= 0x2_0000_0000_0000_0000),
{
    let mut e: i128 = 0;
    let mut p = q;
    while p < ee
        invariant
            q <= p <= ee <= chars@.len(),
            forall|x: int| q <= x < ee ==> is_digit(#[trigger] chars@[x]),
            0 <= e <= 0x14_0000_0000_0000_0009,
            (e == digits_value(chars@.subrange(q as int, p as int))) || (e >= 0x2_0000_0000_0000_0000
                && digits_value(chars@.subrange(q as int, p as int)) >= 0x2_0000_0000_0000_0000),
        decreases ee - p,
    {
        proof {
            let sub = chars@.subrange(q as int, p + 1);
            assert(sub.drop_last() == chars@.subrange(q as int, p as int));
            assert(is_digit(chars@[p as int]));
            assert(sub.last() == chars@[p as int]);
            let s0 = chars@.subrange(q as int, p as int);
            assert forall|x: int| 0 <= x < s0.len() implies is_digit(#[trigger] s0[x]) by {
                assert(s0[x] == chars@[x + q]);
            }
            lemma_digits_value_bounds(s0);
        }
        if e < 0x2_0000_0000_0000_0000 {
            e = e * 10 + (chars[p] as u32 - '0' as u32) as i128;
        }
        p = p + 1;
    }
    e
}

/// The digits `chars[j..k]` followed by the digits `chars[f..g]`.
fn collect_digits(chars: &Vec<char>, j: usize, k: usize, f: usize, g: usize) -> (ds: Vec<char>)
    requires
        j <= k <= f <= g <= chars@.len(),
        forall|x: int| j <= x < k ==> is_digit(#[trigger] chars@[x]),
        forall|x: int| f <= x < g ==> is_digit(#[trigger] chars@[x]),
    ensures
        ds@ == chars@.subrange(j as int, k as int) + chars@.subrange(f as int, g as int),
        forall|x: int| 0 <= x < ds@.len() ==> is_digit(#[trigger] ds@[x]),
        ds@.len() <= chars@.len(),
{
    let mut ds: Vec<char> = Vec::new();
    let mut p = j;
    while p < k
        invariant
            j <= p <= k <= chars@.len(),
            ds@ == chars@.subrange(j as int, p as int),
        decreases k - p,
    {
        ds.push(chars[p]);
        p = p + 1;
    }
    let mut p = f;
    while p < g
        invariant
            k <= f <= p <= g <= chars@.len(),
            ds@ == chars@.subrange(j as int, k as int) + chars@.subrange(f as int, p as int),
        decreases g - p,
    {
        ds.push(chars[p]);
        p = p + 1;
    }
    assert forall|x: int| 0 <= x < ds@.len() implies is_digit(#[trigger] ds@[x]) by {
        if x < k - j {
            assert(ds@[x] == chars@[x + j]);
        } else {
            assert(ds@[x] == chars@[x - (k - j) + f]);
        }
    }
    ds
}

/// Reads a number at position `i`; `Ok(None)` when none starts there.
#[verifier::rlimit(30)]
fn scan_number(chars: &Vec<char>, i: usize) -> (r: Result<Option<(Decimal, usize)>, ParseError>)
    requires
        i <= chars@.len(),
    ensures
        agrees_opt(r, number_at(chars@, i as int)),
{
    let n = chars.len();
    let neg = i < n && chars[i] == '-';
    let j = if neg {
        i + 1
    } else {
        i
    };
    let k = skip_digits(chars, j);
    if k == j {
        return Ok(None);
    }
    let has_dot = k < n && chars[k] == '.';
    let fstart = if has_dot {
        k + 1
    } else {
        k
    };
    let fe = skip_digits(chars, fstart);
    proof {
        lemma_digits_end(chars@, j as int);
        lemma_digits_end(chars@, fstart as int);
    }
    let has_e = fe < n && (chars[fe] == 'e' || chars[fe] == 'E');
    let signed = fe < n && fe + 1 < n && (chars[fe + 1] == '+' || chars[fe + 1] == '-');
    let mut end = fe;
    let mut e: i128 = 0;
    let mut exp_neg = false;
    let ghost mut e_true: int = 0;
    if has_e {
        let q = if signed {
            fe + 2
        } else {
            fe + 1
        };
        let ee = skip_digits(chars, q);
        proof {
            lemma_digits_end(chars@, q as int);
        }
        if ee > q {
            end = ee;
            exp_neg = signed && chars[fe + 1] == '-';
            e = read_exponent(chars, q, ee);
            proof {
                e_true = digits_value(chars@.subrange(q as int, ee as int));
            }
        }
    }
    let ds = collect_digits(chars, j, k, fstart, fe);
    let fl = (fe - fstart) as i128;
    let exp10: i128 = if exp_neg {
        0 - e - fl
    } else {
        e - fl
    };
    proof {
        let spec_exp = if exp_neg {
            -e_true - fl
        } else {
            e_true - fl
        };
        if e != e_true {
            lemma_decimal_far_exponent(neg, ds@, exp10 as int, spec_exp);
        }
    }
    match make_decimal(neg, &ds, exp10) {
        Some(d) => Ok(Some((d, end))),
        None => Err(ParseError { position: i, kind: ParseErrorKind::NumberOutOfRange }),
    }
}


pub proof fn lemma_ws_end(s: Seq<char>, i: int)
    requires
        0 <= i <= s.len(),
    ensures
        i <= ws_end(s, i) <= s.len(),
        forall|t: int| i <= t < ws_end(s, i) ==> is_multispace(#[trigger] s[t]),
        ws_end(s, i) < s.len() ==> !is_multispace(s[ws_end(s, i)]),
    decreases s.len() - i,
{
    if i < s.len() && is_multispace(s[i]) {
        lemma_ws_end(s, i + 1);
    }
}

pub proof fn lemma_symbol_end(s: Seq<char>, i: int)
    requires
        0 <= i <= s.len(),
    ensures
        i <= symbol_end(s, i) <= s.len(),
        forall|t: int| i <= t < symbol_end(s, i) ==> is_symbol_char(#[trigger] s[t]),
        symbol_end(s, i) < s.len() ==> !is_symbol_char(s[symbol_end(s, i)]),
    decreases s.len() - i,
{
    if i < s.len() && is_symbol_char(s[i]) {
        lemma_symbol_end(s, i + 1);
    }
}

/// The expression that starts at position `i`.
pub open spec fn sexpr_at(s: Seq<char>, i: int) -> Step<SExprView>
    decreases s.len() - i, 0int,
{
    if i < 0 || i >= s.len() {
        Step::NoMatch
    } else if s[i] == '(' {
        match list_items(s, i + 1, seq![]) {
            Step::Done(items, k) => Step::Done(SExprView::List(items), k),
            Step::NoMatch => Step::NoMatch,
            Step::Fail(p, kind) => Step::Fail(p, kind),
        }
    } else if s[i] == '"' {
        match string_body(s, i + 1, seq![]) {
            Step::Done(text, k) => Step::Done(SExprView::Str(text), k),
            Step::NoMatch => Step::NoMatch,
            Step::Fail(p, kind) => Step::Fail(p, kind),
        }
    } else {
        match number_at(s, i) {
            Step::Done(d, k) => Step::Done(SExprView::Number(d), k),
            Step::Fail(p, kind) => Step::Fail(p, kind),
            Step::NoMatch => {
                let e = symbol_end(s, i);
                if e == i {
                    Step::NoMatch
                } else {
                    Step::Done(SExprView::Symbol(s.subrange(i, e)), e)
                }
            },
        }
    }
}

/// The closing parenthesis of a list, after optional whitespace from `i`.
pub open spec fn list_close(s: Seq<char>, i: int, acc: Seq<SExprView>) -> Step<Seq<SExprView>> {
    let j = ws_end(s, i);
    if 0 <= j < s.len() && s[j] == ')' {
        Step::Done(acc, j + 1)
    } else {
        Step::Fail(j, ParseErrorKind::UnclosedList)
    }
}

/// The rest of a list from position `i`, with the items `acc` read so far; on success,
/// the position after the closing parenthesis.
pub open spec fn list_items(s: Seq<char>, i: int, acc: Seq<SExprView>) -> Step<Seq<SExprView>>
    decreases s.len() - i, 1int,
{
    if i < 0 || i > s.len() {
        Step::Fail(i, ParseErrorKind::UnclosedList)
    } else {
        let j = ws_end(s, i);
        proof {
            lemma_ws_end(s, i);
        }
        match sexpr_at(s, j) {
            Step::Done(e, k) => {
                if k <= i || k > s.len() {
                    Step::Fail(k, ParseErrorKind::UnclosedList)
                } else {
                    list_items(s, k, acc.push(e))
                }
            },
            Step::NoMatch => list_close(s, i, acc),
            Step::Fail(p, kind) => Step::Fail(p, kind),
        }
    }
}

/// Reading a whole input: optional whitespace, then one expression. On success, the
/// position where the unread rest of the input starts.
pub open spec fn parse_spec(s: Seq<char>) -> Step<SExprView> {
    let j = ws_end(s, 0);
    match sexpr_at(s, j) {
        Step::NoMatch => Step::Fail(j, ParseErrorKind::ExpectedExpression),
        other => other,
    }
}

/// Whether an exec outcome holding an expression agrees with a step.
pub open spec fn expr_agrees(r: Result<Option<(SExpr, usize)>, ParseError>, step: Step<SExprView>) -> bool {
    match r {
        Ok(None) => step is NoMatch,
        Ok(Some((v, n))) => step == Step::Done(v@, n as int),
        Err(e) => step == Step::<SExprView>::Fail(e.position as int, e.kind),
    }
}

/// The views of a sequence of expressions.
pub open spec fn views(items: Seq<SExpr>) -> Seq<SExprView> {
    items.map_values(|e: SExpr| e@)
}

proof fn lemma_string_body_bounds(s: Seq<char>, i: int, acc: Seq<char>)
    requires
        0 <= i <= s.len(),
    ensures
        string_body(s, i, acc) matches Step::Done(_, k) ==> i < k <= s.len(),
    decreases s.len() - i,
{
    if i < s.len() && s[i] != '"' {
        if s[i] == '\\' {
            if i + 1 < s.len() && unescape(s[i + 1]) is Some {
                lemma_string_body_bounds(s, i + 2, acc.push(unescape(s[i + 1])->0));
            }
        } else {
            lemma_string_body_bounds(s, i + 1, acc.push(s[i]));
        }
    }
}

proof fn lemma_number_at_bounds(s: Seq<char>, i: int)
    requires
        0 <= i <= s.len(),
    ensures
        number_at(s, i) matches Step::Done(_, k) ==> i < k <= s.len(),
{
    let neg = 0 <= i < s.len() && s[i] == '-';
    let j = if neg {
        i + 1
    } else {
        i
    };
    lemma_digits_end(s, j);
    let k = digits_end(s, j);
    if k > j {
        let has_dot = k < s.len() && s[k] == '.';
        let fstart = if has_dot {
            k + 1
        } else {
            k
        };
        lemma_digits_end(s, fstart);
        let fe = digits_end(s, fstart);
        let signed = fe + 1 < s.len() && (s[fe + 1] == '+' || s[fe + 1] == '-');
        let q = if signed {
            fe + 2
        } else {
            fe + 1
        };
        if fe < s.len() {
            lemma_digits_end(s, q);
        }
    }
}

/// Reads the expression at position `i`; `Ok(None)` when none starts there.
fn parse_at(chars: &Vec<char>, i: usize) -> (r: Result<Option<(SExpr, usize)>, ParseError>)
    requires
        i <= chars@.len(),
    ensures
        expr_agrees(r, sexpr_at(chars@, i as int)),
        r matches Ok(Some((_, k))) ==> i < k <= chars@.len(),
    decreases chars@.len() - i,
{
    let n = chars.len();
    if i >= n {
        return Ok(None);
    }
    let c = chars[i];
    if c == '(' {
        let mut items: Vec<SExpr> = Vec::new();
        let mut pos = i + 1;
        assert(views(items@) == Seq::<SExprView>::empty());
        while true
            invariant
                i < pos <= n == chars@.len(),
                chars@[i as int] == '(',
                list_items(chars@, i + 1, seq![]) == list_items(chars@, pos as int, views(items@)),
            decreases n - pos,
        {
            let j = skip_ws(chars, pos);
            proof {
                lemma_ws_end(chars@, pos as int);
            }
            match parse_at(chars, j) {
                Err(e) => {
                    return Err(e);
                },
                Ok(None) => {
                    if j < n && chars[j] == ')' {
                        let ghost vs = views(items@);
                        let r = SExpr::List(items);
                        proof {
                            assert(sexpr_view(r)->List_0 =~= vs);
                        }
                        return Ok(Some((r, j + 1)));
                    } else {
                        return Err(ParseError { position: j, kind: ParseErrorKind::UnclosedList });
                    }
                },
                Ok(Some((e, k))) => {
                    proof {
                        assert(views(items@.push(e)) == views(items@).push(e@));
                    }
                    items.push(e);
                    pos = k;
                },
            }
        }
        return Err(ParseError { position: pos, kind: ParseErrorKind::UnclosedList });
    } else if c == '"' {
        proof {
            lemma_string_body_bounds(chars@, i + 1, seq![]);
        }
        match scan_string(chars, i + 1) {
            Ok((text, k)) => Ok(Some((SExpr::String(text), k))),
            Err(e) => Err(e),
        }
    } else {
        proof {
            lemma_number_at_bounds(chars@, i as int);
            lemma_symbol_end(chars@, i as int);
        }
        match scan_number(chars, i) {
            Err(e) => Err(e),
            Ok(Some((d, k))) => Ok(Some((SExpr::Number(d), k))),
            Ok(None) => {
                let e = skip_symbol(chars, i);
                if e == i {
                    Ok(None)
                } else {
                    let text = crate::text::string_from_chars(chars, i, e);
                    Ok(Some((SExpr::Symbol(text), e)))
                }
            },
        }
    }
}


/// The digit character of a value below ten.
pub open spec fn digit_char(d: int) -> char {
    if d == 0 {
        '0'
    } else if d == 1 {
        '1'
    } else if d == 2 {
        '2'
    } else if d == 3 {
        '3'
    } else if d == 4 {
        '4'
    } else if d == 5 {
        '5'
    } else if d == 6 {
        '6'
    } else if d == 7 {
        '7'
    } else if d == 8 {
        '8'
    } else {
        '9'
    }
}

/// The decimal digits of `n`, without leading zeros (`0` for zero).
pub open spec fn dec_digits(n: nat) -> Seq<char>
    decreases n,
{
    if n < 10 {
        seq![digit_char(n as int)]
    } else {
        dec_digits(n / 10).push(digit_char((n % 10) as int))
    }
}

pub proof fn lemma_digit_char(d: int)
    requires
        0 <= d < 10,
    ensures
        digit_value(digit_char(d)) == d,
        is_digit(digit_char(d)),
        digit_char(d) == '0' <==> d == 0,
{
}

/// The decimal digits of a number read back give the number.
pub proof fn lemma_dec_digits(n: nat)
    ensures
        digits_value(dec_digits(n)) == n,
        dec_digits(n).len() > 0,
        forall|t: int| 0 <= t < dec_digits(n).len() ==> is_digit(#[trigger] dec_digits(n)[t]),
        n > 0 ==> dec_digits(n)[0] != '0',
        dec_digits(n).last() == digit_char((n % 10) as int),
    decreases n,
{
    lemma_digit_char((n % 10) as int);
    if n >= 10 {
        lemma_dec_digits(n / 10);
        let d = dec_digits(n);
        assert(d.drop_last() == dec_digits(n / 10));
        assert(d.last() == digit_char((n % 10) as int));
        assert(digits_value(d) == digits_value(dec_digits(n / 10)) * 10 + digit_value(
            digit_char((n % 10) as int),
        ));
        assert(n == (n / 10) * 10 + n % 10);
        assert forall|t: int| 0 <= t < d.len() implies is_digit(#[trigger] d[t]) by {
            if t < d.len() - 1 {
                assert(d[t] == dec_digits(n / 10)[t]);
            }
        }
    } else {
        assert(dec_digits(n).drop_last() == Seq::<char>::empty());
        assert(digits_value(dec_digits(n)) == digits_value(Seq::<char>::empty()) * 10
            + digit_value(digit_char(n as int)));
    }
}

fn digit_char_exec(d: u128) -> (c: char)
    requires
        d < 10,
    ensures
        c == digit_char(d as int),
{
    if d == 0 {
        '0'
    } else if d == 1 {
        '1'
    } else if d == 2 {
        '2'
    } else if d == 3 {
        '3'
    } else if d == 4 {
        '4'
    } else if d == 5 {
        '5'
    } else if d == 6 {
        '6'
    } else if d == 7 {
        '7'
    } else if d == 8 {
        '8'
    } else {
        '9'
    }
}

/// The decimal digits of `n`, appended to `out`.
pub fn push_digits(out: &mut String, n: u128)
    ensures
        final(out)@ == old(out)@ + dec_digits(n as nat),
    decreases n,
{
    if n < 10 {
        crate::text::push_char(out, digit_char_exec(n));
    } else {
        push_digits(out, n / 10);
        crate::text::push_char(out, digit_char_exec(n % 10));
    }
}


/// An expression that is a list whose first item is the symbol `name`.
pub open spec fn starts_with_symbol(e: SExprView, name: Seq<char>) -> bool {
    e matches SExprView::List(items) && items.len() > 0 && items[0] == SExprView::Symbol(name)
}

impl SExpr {
    /// Create a symbol S-expression
    pub fn symbol(s: &str) -> (r: SExpr)
        ensures
            r@ == SExprView::Symbol(s@),
    {
        SExpr::Symbol(String::from_str(s))
    }

    /// Create a string S-expression
    pub fn string(s: &str) -> (r: SExpr)
        ensures
            r@ == SExprView::Str(s@),
    {
        SExpr::String(String::from_str(s))
    }

    /// Create a number S-expression
    pub fn number(n: Decimal) -> (r: SExpr)
        ensures
            r@ == SExprView::Number(n),
    {
        SExpr::Number(n)
    }

    /// Create a list S-expression
    pub fn list(items: Vec<SExpr>) -> (r: SExpr)
        ensures
            r@ == SExprView::List(views(items@)),
    {
        let ghost vs = views(items@);
        let r = SExpr::List(items);
        assert(sexpr_view(r)->List_0 =~= vs);
        r
    }

    /// Get the symbol name if this is a Symbol
    pub fn as_symbol(&self) -> (r: Option<&str>)
        ensures
            match self@ {
                SExprView::Symbol(s) => r matches Some(t) && t@ == s,
                _ => r is None,
            },
    {
        match self {
            SExpr::Symbol(s) => Some(s.as_str()),
            _ => None,
        }
    }

    /// Get the string value if this is a String
    pub fn as_string(&self) -> (r: Option<&str>)
        ensures
            match self@ {
                SExprView::Str(s) => r matches Some(t) && t@ == s,
                _ => r is None,
            },
    {
        match self {
            SExpr::String(s) => Some(s.as_str()),
            _ => None,
        }
    }

    /// Get the number if this is a Number
    pub fn as_number(&self) -> (r: Option<Decimal>)
        ensures
            match self@ {
                SExprView::Number(n) => r == Some(n),
                _ => r is None,
            },
    {
        match self {
            SExpr::Number(n) => Some(*n),
            _ => None,
        }
    }

    /// Get the list contents if this is a List
    pub fn as_list(&self) -> (r: Option<&[SExpr]>)
        ensures
            match *self {
                SExpr::List(items) => r matches Some(sl) && sl@ == items@,
                _ => r is None,
            },
    {
        match self {
            SExpr::List(l) => Some(l.as_slice()),
            _ => None,
        }
    }

    /// Check if this is a list starting with the given symbol
    pub fn is_list_starting_with(&self, name: &str) -> (r: bool)
        ensures
            r == starts_with_symbol(self@, name@),
    {
        match self {
            SExpr::List(items) => {
                assert(self@->List_0.len() == items@.len());
                if items.len() > 0 {
                    assert(self@->List_0[0] == items@[0]@);
                    match &items[0] {
                        SExpr::Symbol(s) => crate::text::str_eq(s.as_str(), name),
                        _ => false,
                    }
                } else {
                    false
                }
            },
            _ => false,
        }
    }

    /// Get list contents if it starts with the given symbol
    pub fn as_list_starting_with(&self, name: &str) -> (r: Option<&[SExpr]>)
        ensures
            match *self {
                SExpr::List(items) => if starts_with_symbol(self@, name@) {
                    r matches Some(sl) && sl@ == items@.subrange(1, items@.len() as int)
                } else {
                    r is None
                },
                _ => r is None,
            },
    {
        if self.is_list_starting_with(name) {
            match self {
                SExpr::List(items) => Some(items.as_slice().split_at(1).1),
                _ => None,
            }
        } else {
            None
        }
    }
}

/// Parser for KiCAD S-expressions
pub struct SExprParser;

impl SExprParser {
    /// Parse a complete S-expression from input: optional whitespace, then one
    /// expression. Returns the unread rest of the input and the expression.
    pub fn parse(input: &str) -> (r: Result<(&str, SExpr), ParseError>)
        ensures
            match parse_spec(input@) {
                Step::Done(e, k) => r matches Ok((rest, v)) && v@ == e && rest@ == input@.subrange(
                    k,
                    input@.len() as int,
                ),
                Step::Fail(p, kind) => r matches Err(err) && err.position == p && err.kind == kind,
                Step::NoMatch => false,
            },
    {
        let chars = crate::text::chars_of(input);
        let j = skip_ws(&chars, 0);
        match parse_at(&chars, j) {
            Ok(Some((e, k))) => {
                let rest = input.substring_char(k, chars.len());
                Ok((rest, e))
            },
            Ok(None) => Err(ParseError { position: j, kind: ParseErrorKind::ExpectedExpression }),
            Err(e) => Err(e),
        }
    }
}

/// Line and column (both from 1) of position `p` in `s`.
pub open spec fn line_column(s: Seq<char>, p: nat) -> (nat, nat)
    decreases p,
{
    if p == 0 {
        (1, 1)
    } else {
        let (l, c) = line_column(s, (p - 1) as nat);
        if (p - 1) < s.len() && s[p - 1] == '\n' {
            (l + 1, 1)
        } else {
            (l, c + 1)
        }
    }
}

/// What an error says.
pub open spec fn error_kind_text(k: ParseErrorKind) -> Seq<char> {
    match k {
        ParseErrorKind::ExpectedExpression => "expected an S-expression"@,
        ParseErrorKind::UnclosedList => "expected closing ')'"@,
        ParseErrorKind::UnclosedString => "expected closing '\"'"@,
        ParseErrorKind::InvalidEscape => "invalid escape in string"@,
        ParseErrorKind::NumberOutOfRange => "number out of range"@,
    }
}

/// The message for an error in `s`: `line L, column C: what`.
pub open spec fn error_text(s: Seq<char>, e: ParseError) -> Seq<char> {
    let (l, c) = line_column(s, e.position as nat);
    "line "@ + dec_digits(l) + ", column "@ + dec_digits(c) + ": "@ + error_kind_text(e.kind)
}

/// Format a parse error with its place in the input for display
pub fn format_error(input: &str, e: &ParseError) -> (r: String)
    ensures
        r@ == error_text(input@, *e),
{
    let chars = crate::text::chars_of(input);
    let mut line: u128 = 1;
    let mut col: u128 = 1;
    let mut t: usize = 0;
    while t < e.position
        invariant
            t <= e.position,
            chars@ == input@,
            (line as nat, col as nat) == line_column(input@, t as nat),
            line <= t + 1,
            col <= t + 1,
        decreases e.position - t,
    {
        if t < chars.len() && chars[t] == '\n' {
            line = line + 1;
            col = 1;
        } else {
            col = col + 1;
        }
        t = t + 1;
    }
    let mut r = String::from_str("line ");
    push_digits(&mut r, line);
    r.append(", column ");
    push_digits(&mut r, col);
    r.append(": ");
    let what = match e.kind {
        ParseErrorKind::ExpectedExpression => "expected an S-expression",
        ParseErrorKind::UnclosedList => "expected closing ')'",
        ParseErrorKind::UnclosedString => "expected closing '\"'",
        ParseErrorKind::InvalidEscape => "invalid escape in string",
        ParseErrorKind::NumberOutOfRange => "number out of range",
    };
    r.append(what);
    r
}

/// Types that can be written as S-expressions.
pub trait ToSExpr {
    /// The expression a value is written as.
    spec fn sexpr_form(&self) -> SExprView;

    /// Convert this value to an S-expression
    fn to_sexpr(&self) -> (r: SExpr)
        ensures
            r@ == self.sexpr_form(),
    ;
}

} // verus!
