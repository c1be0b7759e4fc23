//! Reading back what the writer wrote gives the expression that was written.
use vstd::prelude::*;
use crate::sexpr::{
    Decimal, SExprView, Step, is_multispace, is_digit, is_symbol_char, ws_end, digits_end,
    symbol_end, sexpr_at, number_at, string_body, list_items, parse_spec, decimal_from,
    digits_value, strip_leading_zeros, strip_trailing_zeros, dec_digits, pow10,
    lemma_dec_digits, lemma_strip_trailing, lemma_digit_char, lemma_strip_leading, lemma_ws_end,
};
use crate::sexpr_write::{
    kicad_text, escape_text, escape_char, number_text, fixed_text, pad_zeros, magnitude, tabs,
    next_indent, join_spaced, join_lines, texts_of, lemma_texts_of, is_multiline,
    head_count,
};

verus! {

/// Position `p` ends a token: the end of the input, whitespace, or a closing parenthesis.
pub open spec fn ends_token(s: Seq<char>, p: int) -> bool {
    p == s.len() || (0 <= p < s.len() && (is_multispace(s[p]) || s[p] == ')'))
}

/// A symbol that reads back as itself: not empty, made of symbol characters, and not
/// the start of a number.
pub open spec fn writable_symbol(s: Seq<char>) -> bool {
    &&& s.len() > 0
    &&& forall|k: int| 0 <= k < s.len() ==> is_symbol_char(#[trigger] s[k])
    &&& !is_digit(s[0])
    &&& (s[0] == '-' && s.len() > 1 ==> !is_digit(s[1]))
}

/// A number in the form the reader gives, with at most six decimal places.
pub open spec fn writable_number(d: Decimal) -> bool {
    d.scale <= 6 && (d.scale == 0 || d.mantissa % 10 != 0)
}

/// An expression that the writer writes faithfully: its symbols and numbers are
/// writable, at any depth.
pub open spec fn writable(e: SExprView) -> bool
    decreases e,
{
    match e {
        SExprView::Symbol(s) => writable_symbol(s),
        SExprView::Str(_) => true,
        SExprView::Number(d) => writable_number(d),
        SExprView::List(items) => all_writable(items),
    }
}

/// Every expression of a sequence is writable.
pub open spec fn all_writable(items: Seq<SExprView>) -> bool
    decreases items,
{
    if items.len() == 0 {
        true
    } else {
        all_writable(items.drop_last()) && writable(items.last())
    }
}

pub proof fn lemma_all_writable(items: Seq<SExprView>)
    ensures
        all_writable(items) <==> forall|k: int| 0 <= k < items.len() ==> #[trigger] writable(items[k]),
    decreases items.len(),
{
    if items.len() > 0 {
        lemma_all_writable(items.drop_last());
        if all_writable(items) {
            assert forall|k: int| 0 <= k < items.len() implies #[trigger] writable(items[k]) by {
                if k < items.len() - 1 {
                    assert(items.drop_last()[k] == items[k]);
                }
            }
        }
        if forall|k: int| 0 <= k < items.len() ==> #[trigger] writable(items[k]) {
            assert forall|k: int| 0 <= k < items.drop_last().len() implies #[trigger] writable(
                items.drop_last()[k],
            ) by {
                assert(items.drop_last()[k] == items[k]);
            }
            assert(writable(items[items.len() - 1]));
        }
    }
}

proof fn lemma_ws_run(s: Seq<char>, a: int, b: int)
    requires
        0 <= a <= b <= s.len(),
        forall|p: int| a <= p < b ==> is_multispace(#[trigger] s[p]),
        b == s.len() || !is_multispace(s[b]),
    ensures
        ws_end(s, a) == b,
    decreases b - a,
{
    if a < b {
        lemma_ws_run(s, a + 1, b);
    }
}

proof fn lemma_digits_run(s: Seq<char>, a: int, b: int)
    requires
        0 <= a <= b <= s.len(),
        forall|p: int| a <= p < b ==> is_digit(#[trigger] s[p]),
        b == s.len() || !is_digit(s[b]),
    ensures
        digits_end(s, a) == b,
    decreases b - a,
{
    if a < b {
        lemma_digits_run(s, a + 1, b);
    }
}

proof fn lemma_symbol_run(s: Seq<char>, a: int, b: int)
    requires
        0 <= a <= b <= s.len(),
        forall|p: int| a <= p < b ==> is_symbol_char(#[trigger] s[p]),
        b == s.len() || !is_symbol_char(s[b]),
    ensures
        symbol_end(s, a) == b,
    decreases b - a,
{
    if a < b {
        lemma_symbol_run(s, a + 1, b);
    }
}

/// No expression starts where a token ends.
proof fn lemma_nothing_at_token_end(s: Seq<char>, p: int)
    requires
        0 <= p <= s.len(),
        ends_token(s, p),
    ensures
        sexpr_at(s, p) is NoMatch,
{
    if p < s.len() {
        lemma_digits_run(s, p, p);
        lemma_symbol_run(s, p, p);
    }
}


proof fn lemma_escape_concat(a: Seq<char>, b: Seq<char>)
    ensures
        escape_text(a + b) == escape_text(a) + escape_text(b),
    decreases b.len(),
{
    if b.len() == 0 {
        assert(a + b == a);
    } else {
        lemma_escape_concat(a, b.drop_last());
        assert((a + b).drop_last() == a + b.drop_last());
    }
}

/// A string body written escaped and closed by a quote reads back as itself.
proof fn lemma_read_string_body(s: Seq<char>, p: int, u: Seq<char>, acc: Seq<char>)
    requires
        0 <= p,
        p + escape_text(u).len() < s.len(),
        s.subrange(p, p + escape_text(u).len()) == escape_text(u),
        s[p + escape_text(u).len()] == '"',
    ensures
        string_body(s, p, acc) == Step::Done(acc + u, p + escape_text(u).len() + 1),
    decreases u.len(),
{
    if u.len() == 0 {
        assert(acc + u == acc);
    } else {
        let c = u[0];
        let rest = u.drop_first();
        assert(u == seq![c] + rest);
        lemma_escape_concat(seq![c], rest);
        assert(seq![c].drop_last() == Seq::<char>::empty());
        assert(seq![c].last() == c);
        assert(escape_text(Seq::<char>::empty()) == Seq::<char>::empty());
        assert(Seq::<char>::empty() + escape_char(c) =~= escape_char(c));
        assert(escape_text(seq![c]) == escape_char(c));
        let w = escape_char(c).len() as int;
        let n = escape_text(u).len() as int;
        assert(s.subrange(p, p + n)[0] == s[p]);
        assert(s.subrange(p + w, p + w + escape_text(rest).len()) == escape_text(rest)) by {
            assert forall|x: int| 0 <= x < escape_text(rest).len() implies s.subrange(
                p + w,
                p + w + escape_text(rest).len(),
            )[x] == escape_text(rest)[x] by {
                assert(s.subrange(p, p + n)[w + x] == escape_text(u)[w + x]);
            }
        }
        if w == 2 {
            assert(s.subrange(p, p + n)[1] == s[p + 1]);
        }
        lemma_read_string_body(s, p + w, rest, acc.push(c));
        assert(acc.push(c) + rest == acc + u);
    }
}


/// Where `a + b` stands in `s` at `i`, `a` stands at `i` and `b` right after it.
pub proof fn lemma_split_at(s: Seq<char>, i: int, a: Seq<char>, b: Seq<char>)
    requires
        0 <= i,
        i + a.len() + b.len() <= s.len(),
        s.subrange(i, i + a.len() + b.len()) == a + b,
    ensures
        s.subrange(i, i + a.len()) == a,
        s.subrange(i + a.len(), i + a.len() + b.len()) == b,
{
    assert forall|x: int| 0 <= x < a.len() implies s.subrange(i, i + a.len())[x] == a[x] by {
        assert(s.subrange(i, i + a.len() + b.len())[x] == (a + b)[x]);
    }
    assert forall|x: int| 0 <= x < b.len() implies s.subrange(
        i + a.len(),
        i + a.len() + b.len(),
    )[x] == b[x] by {
        assert(s.subrange(i, i + a.len() + b.len())[a.len() + x] == (a + b)[a.len() + x]);
        assert(s.subrange(i + a.len(), i + a.len() + b.len())[x] == s[i + a.len() + x]);
        assert(s.subrange(i, i + a.len() + b.len())[a.len() + x] == s[i + a.len() + x]);
        assert((a + b)[a.len() + x] == b[x]);
    }
    assert(s.subrange(i, i + a.len()) =~= a);
    assert(s.subrange(i + a.len(), i + a.len() + b.len()) =~= b);
}

proof fn lemma_strip_trailing_value(x: Seq<char>)
    requires
        forall|t: int| 0 <= t < x.len() ==> is_digit(#[trigger] x[t]),
    ensures
        strip_trailing_zeros(x).len() <= x.len(),
        strip_trailing_zeros(x) == x.take(strip_trailing_zeros(x).len() as int),
        digits_value(x) == digits_value(strip_trailing_zeros(x)) * pow10(
            (x.len() - strip_trailing_zeros(x).len()) as nat,
        ),
    decreases x.len(),
{
    if x.len() > 0 && x.last() == '0' {
        let y = x.drop_last();
        assert forall|t: int| 0 <= t < y.len() implies is_digit(#[trigger] y[t]) by {
            assert(y[t] == x[t]);
        }
        lemma_strip_trailing_value(y);
        let st = strip_trailing_zeros(y);
        assert(st == x.take(st.len() as int)) by {
            assert(st =~= y.take(st.len() as int));
            assert(y.take(st.len() as int) =~= x.take(st.len() as int));
        }
        let a = digits_value(st);
        let p = pow10((y.len() - st.len()) as nat);
        assert(pow10((x.len() - st.len()) as nat) == 10 * p);
        assert((a * p) * 10 == a * (10 * p)) by (nonlinear_arith);
    } else {
        assert(x.take(x.len() as int) == x);
    }
}

/// The zeros put in front of a digit sequence go again when leading zeros go.
proof fn lemma_strip_leading_pad(d: Seq<char>, n: nat)
    ensures
        strip_leading_zeros(Seq::new(n, |_i: int| '0') + d) == strip_leading_zeros(d),
    decreases n,
{
    if n > 0 {
        let z = Seq::new(n, |_i: int| '0') + d;
        assert(z[0] == '0');
        assert(z.drop_first() == Seq::new((n - 1) as nat, |_i: int| '0') + d);
        lemma_strip_leading_pad(d, (n - 1) as nat);
    } else {
        assert(Seq::new(n, |_i: int| '0') + d == d);
    }
}

/// A number without exponent, its digits and fraction where the positions say.
proof fn lemma_number_at_plain(s: Seq<char>, i: int, k: int, fstart: int, fe: int)
    requires
        0 <= i < s.len(),
        ({
            let j = if s[i] == '-' {
                i + 1
            } else {
                i
            };
            &&& j < k
            &&& digits_end(s, j) == k
            &&& (k < s.len() && s[k] == '.') ==> fstart == k + 1
            &&& !(k < s.len() && s[k] == '.') ==> fstart == k
            &&& digits_end(s, fstart) == fe
        }),
        ends_token(s, fe),
    ensures
        ({
            let neg = s[i] == '-';
            let j = if neg {
                i + 1
            } else {
                i
            };
            number_at(s, i) == match decimal_from(
                neg,
                s.subrange(j, k) + s.subrange(fstart, fe),
                0 - (fe - fstart),
            ) {
                Some(d) => Step::Done(d, fe),
                None => Step::<Decimal>::Fail(i, crate::sexpr::ParseErrorKind::NumberOutOfRange),
            }
        }),
{
}

/// The signed value of a magnitude.
pub open spec fn signed(neg: bool, q: nat) -> int {
    if neg {
        -q
    } else {
        q as int
    }
}

proof fn lemma_decimal_of_integer(neg: bool, q: nat)
    requires
        i64::MIN <= signed(neg, q) <= i64::MAX,
        q == 0 ==> !neg,
    ensures
        decimal_from(neg, dec_digits(q), 0) == Some(
            Decimal { mantissa: signed(neg, q) as i64, scale: 0 },
        ),
{
    let dd = dec_digits(q);
    lemma_dec_digits(q);
    if q == 0 {
        assert(dd == seq!['0']);
        lemma_strip_leading(dd, 1);
        assert(dd.subrange(1, 1) =~= Seq::<char>::empty());
    } else {
        lemma_strip_leading(dd, 0);
        assert(dd.subrange(0, dd.len() as int) == dd);
        lemma_strip_trailing_value(dd);
    }
}

proof fn lemma_decimal_of_fraction(neg: bool, q: nat, sc: nat)
    requires
        i64::MIN <= signed(neg, q) <= i64::MAX,
        q % 10 != 0,
        1 <= sc <= 6,
    ensures
        decimal_from(neg, pad_zeros(dec_digits(q), sc + 1), 0 - sc) == Some(
            Decimal { mantissa: signed(neg, q) as i64, scale: sc as u32 },
        ),
{
    let dd = dec_digits(q);
    lemma_dec_digits(q);
    lemma_digit_char((q % 10) as int);
    if dd.len() < sc + 1 {
        lemma_strip_leading_pad(dd, (sc + 1 - dd.len()) as nat);
    }
    lemma_strip_leading(dd, 0);
    assert(dd.subrange(0, dd.len() as int) == dd);
    lemma_strip_trailing(dd, dd.len() as int);
    assert(dd.subrange(0, dd.len() as int) == dd);
}

proof fn lemma_fixed_shape(q: nat, sc: nat)
    requires
        sc <= 6,
        sc > 0 ==> q % 10 != 0,
    ensures
        ({
            let ds = pad_zeros(dec_digits(q), sc + 1);
            let cut = ds.len() - sc;
            &&& ds.len() >= sc + 1
            &&& forall|x: int| 0 <= x < ds.len() ==> is_digit(#[trigger] ds[x])
            &&& sc == 0 ==> ds == dec_digits(q) && fixed_text(q, sc) == ds
            &&& sc > 0 ==> fixed_text(q, sc) == ds.take(cut) + seq!['.'] + ds.skip(cut)
        }),
{
    let dd = dec_digits(q);
    lemma_dec_digits(q);
    let ds = pad_zeros(dd, sc + 1);
    let cut = ds.len() - sc;
    assert forall|x: int| 0 <= x < ds.len() implies is_digit(#[trigger] ds[x]) by {
        if dd.len() < sc + 1 {
            if x >= ds.len() - dd.len() {
                assert(ds[x] == dd[x - (ds.len() - dd.len())]);
            }
        }
    }
    if sc == 0 {
        assert(ds.skip(cut) =~= Seq::<char>::empty());
        assert(ds.take(cut) =~= dd);
    } else {
        lemma_digit_char((q % 10) as int);
        assert(ds.last() == dd.last());
        let tail = ds.skip(cut);
        assert(tail.last() == ds.last());
        lemma_strip_trailing(tail, tail.len() as int);
        assert(tail.subrange(0, tail.len() as int) == tail);
    }
}

/// A written number reads back as itself.
#[verifier::rlimit(30)]
proof fn lemma_read_number(d: Decimal, s: Seq<char>, i: int)
    requires
        writable_number(d),
        0 <= i,
        i + number_text(d).len() <= s.len(),
        s.subrange(i, i + number_text(d).len()) == number_text(d),
        ends_token(s, i + number_text(d).len()),
    ensures
        number_at(s, i) == Step::Done(d, i + number_text(d).len()),
{
    let m = d.mantissa;
    let sc = d.scale as nat;
    let q = magnitude(m);
    let neg = m < 0;
    let sign = if neg {
        seq!['-']
    } else {
        Seq::<char>::empty()
    };
    let ft = fixed_text(q, sc);
    let t = number_text(d);
    assert(t == sign + ft);
    let end = i + t.len();
    lemma_split_at(s, i, sign, ft);
    let j = i + sign.len();
    let dd = dec_digits(q);
    lemma_dec_digits(q);
    if sc > 0 {
        assert(q % 10 != 0);
    }
    lemma_fixed_shape(q, sc);
    let ds = pad_zeros(dd, sc + 1);
    let cut = ds.len() - sc;
    assert(signed(neg, q) == m);
    if neg {
        assert(s.subrange(i, i + 1)[0] == s[i]);
    } else {
        assert(s.subrange(j, end)[0] == s[i]);
        assert(is_digit(ft[0]));
    }
    if sc == 0 {
        assert forall|x: int| j <= x < end implies is_digit(#[trigger] s[x]) by {
            assert(s.subrange(j, end)[x - j] == ft[x - j]);
        }
        lemma_digits_run(s, j, end);
        lemma_digits_run(s, end, end);
        lemma_number_at_plain(s, i, end, end, end);
        assert(s.subrange(j, end) + s.subrange(end, end) == dd);
        lemma_decimal_of_integer(neg, q);
    } else {
        let ip = ds.take(cut);
        let tail = ds.skip(cut);
        lemma_split_at(s, j, ip + seq!['.'], tail);
        lemma_split_at(s, j, ip, seq!['.']);
        let k = j + cut;
        assert(s.subrange(k, k + 1)[0] == s[k]);
        assert forall|x: int| j <= x < k implies is_digit(#[trigger] s[x]) by {
            assert(s.subrange(j, k)[x - j] == ip[x - j]);
        }
        lemma_digits_run(s, j, k);
        assert forall|x: int| k + 1 <= x < end implies is_digit(#[trigger] s[x]) by {
            assert(s.subrange(k + 1, end)[x - k - 1] == tail[x - k - 1]);
        }
        lemma_digits_run(s, k + 1, end);
        lemma_number_at_plain(s, i, k, k + 1, end);
        assert(s.subrange(j, k) + s.subrange(k + 1, end) == ds) by {
            assert(ip + tail =~= ds);
        }
        lemma_decimal_of_fraction(neg, q, sc);
    }
}


/// Texts, each preceded by its separator.
pub open spec fn concat_sep(texts: Seq<Seq<char>>, seps: Seq<Seq<char>>) -> Seq<char>
    decreases texts.len(),
{
    if texts.len() == 0 {
        Seq::empty()
    } else {
        seps[0] + texts[0] + concat_sep(texts.drop_first(), seps.drop_first())
    }
}

/// The separators of items joined by spaces.
pub open spec fn spaced_seps(n: nat) -> Seq<Seq<char>> {
    Seq::new(
        n,
        |k: int|
            if k == 0 {
                Seq::empty()
            } else {
                seq![' ']
            },
    )
}

/// A line break and `d` tabs, `n` times.
pub open spec fn line_seps(n: nat, d: nat) -> Seq<Seq<char>> {
    Seq::new(n, |k: int| seq!['\n'] + tabs(d))
}

proof fn lemma_concat_sep_push(a: Seq<Seq<char>>, sa: Seq<Seq<char>>, x: Seq<char>, y: Seq<char>)
    requires
        a.len() == sa.len(),
    ensures
        concat_sep(a.push(x), sa.push(y)) == concat_sep(a, sa) + y + x,
    decreases a.len(),
{
    if a.len() == 0 {
        assert(a.push(x).drop_first() == Seq::<Seq<char>>::empty());
        assert(sa.push(y).drop_first() == Seq::<Seq<char>>::empty());
        assert(a.push(x)[0] == x);
        assert(sa.push(y)[0] == y);
        assert(concat_sep(a, sa) == Seq::<char>::empty());
        assert(concat_sep(Seq::<Seq<char>>::empty(), Seq::<Seq<char>>::empty())
            == Seq::<char>::empty());
        assert(concat_sep(a.push(x), sa.push(y)) == y + x + Seq::<char>::empty());
        assert(y + x + Seq::<char>::empty() =~= Seq::<char>::empty() + y + x);
    } else {
        lemma_concat_sep_push(a.drop_first(), sa.drop_first(), x, y);
        assert(a.push(x).drop_first() == a.drop_first().push(x));
        assert(sa.push(y).drop_first() == sa.drop_first().push(y));
        assert(a.push(x)[0] == a[0]);
        assert(sa.push(y)[0] == sa[0]);
        let r = concat_sep(a.drop_first(), sa.drop_first());
        assert(sa[0] + a[0] + (r + y + x) =~= (sa[0] + a[0] + r) + y + x);
    }
}

proof fn lemma_concat_sep_append(a: Seq<Seq<char>>, sa: Seq<Seq<char>>, b: Seq<Seq<char>>, sb: Seq<Seq<char>>)
    requires
        a.len() == sa.len(),
        b.len() == sb.len(),
    ensures
        concat_sep(a + b, sa + sb) == concat_sep(a, sa) + concat_sep(b, sb),
    decreases a.len(),
{
    if a.len() == 0 {
        assert(a + b == b);
        assert(sa + sb == sb);
        assert(Seq::<char>::empty() + concat_sep(b, sb) =~= concat_sep(b, sb));
    } else {
        lemma_concat_sep_append(a.drop_first(), sa.drop_first(), b, sb);
        assert((a + b).drop_first() == a.drop_first() + b);
        assert((sa + sb).drop_first() == sa.drop_first() + sb);
        assert((a + b)[0] == a[0]);
        assert((sa + sb)[0] == sa[0]);
        let r = concat_sep(a.drop_first(), sa.drop_first());
        assert(sa[0] + a[0] + (r + concat_sep(b, sb)) =~= (sa[0] + a[0] + r) + concat_sep(b, sb));
    }
}

proof fn lemma_join_spaced_sep(ts: Seq<Seq<char>>)
    ensures
        join_spaced(ts) == concat_sep(ts, spaced_seps(ts.len())),
    decreases ts.len(),
{
    if ts.len() == 1 {
        assert(ts.drop_first() == Seq::<Seq<char>>::empty());
        assert(spaced_seps(1)[0] == Seq::<char>::empty());
        assert(spaced_seps(1).drop_first() == Seq::<Seq<char>>::empty());
        assert(concat_sep(Seq::<Seq<char>>::empty(), Seq::<Seq<char>>::empty())
            == Seq::<char>::empty());
        assert(spaced_seps(ts.len()) == spaced_seps(1));
        assert(Seq::<char>::empty() + ts[0] + Seq::<char>::empty() =~= ts[0]);
    } else if ts.len() > 1 {
        lemma_join_spaced_sep(ts.drop_last());
        assert(spaced_seps(ts.len()) == spaced_seps((ts.len() - 1) as nat).push(seq![' ']));
        assert(ts == ts.drop_last().push(ts.last()));
        lemma_concat_sep_push(ts.drop_last(), spaced_seps((ts.len() - 1) as nat), ts.last(), seq![' ']);
    }
}

proof fn lemma_join_lines_sep(ts: Seq<Seq<char>>, d: nat)
    ensures
        join_lines(ts, d) == concat_sep(ts, line_seps(ts.len(), d)),
    decreases ts.len(),
{
    if ts.len() > 0 {
        lemma_join_lines_sep(ts.drop_last(), d);
        assert(line_seps(ts.len(), d) == line_seps((ts.len() - 1) as nat, d).push(seq!['\n'] + tabs(d)));
        assert(ts == ts.drop_last().push(ts.last()));
        lemma_concat_sep_push(ts.drop_last(), line_seps((ts.len() - 1) as nat, d), ts.last(), seq!['\n'] + tabs(d));
        assert(join_lines(ts, d) =~= concat_sep(ts.drop_last(), line_seps((ts.len() - 1) as nat, d)) + (seq!['\n'] + tabs(d)) + ts.last());
    }
}

/// The text of a writable expression is not empty and starts with neither
/// whitespace nor a closing parenthesis.
proof fn lemma_text_start(e: SExprView, indent: nat)
    requires
        writable(e),
    ensures
        kicad_text(e, indent).len() > 0,
        !is_multispace(kicad_text(e, indent)[0]),
        kicad_text(e, indent)[0] != ')',
{
    match e {
        SExprView::Symbol(sym) => {
            assert(is_symbol_char(sym[0]));
        },
        SExprView::Number(d) => {
            let q = magnitude(d.mantissa);
            lemma_dec_digits(q);
            if d.scale > 0 {
                assert(q % 10 != 0);
            }
            lemma_fixed_shape(q, d.scale as nat);
            let ds = pad_zeros(dec_digits(q), (d.scale + 1) as nat);
            assert(is_digit(ds[0]));
            if d.scale > 0 {
                let cut = ds.len() - d.scale;
                assert(fixed_text(q, d.scale as nat)[0] == ds[0]);
            }
        },
        _ => {},
    }
}

/// The items `items[k..]` of a written list, each after its separator and followed by
/// whitespace and the closing parenthesis at `close`, read back as themselves.
#[verifier::rlimit(40)]
proof fn lemma_read_items(
    items: Seq<SExprView>,
    nd: nat,
    seps: Seq<Seq<char>>,
    k: int,
    s: Seq<char>,
    q: int,
    close: int,
)
    requires
        0 <= k <= items.len(),
        forall|t: int| 0 <= t < items.len() ==> #[trigger] writable(items[t]),
        seps.len() == items.len(),
        items.len() > 0 ==> seps[0].len() == 0,
        forall|t: int| 1 <= t < seps.len() ==> #[trigger] seps[t].len() > 0,
        forall|t: int, x: int|
            0 <= t < seps.len() && 0 <= x < seps[t].len() ==> is_multispace(#[trigger] seps[t][x]),
        0 <= q,
        q + concat_sep(texts_of(items, nd).skip(k), seps.skip(k)).len() <= close < s.len(),
        s.subrange(q, q + concat_sep(texts_of(items, nd).skip(k), seps.skip(k)).len()) == concat_sep(
            texts_of(items, nd).skip(k),
            seps.skip(k),
        ),
        forall|p: int|
            q + concat_sep(texts_of(items, nd).skip(k), seps.skip(k)).len() <= p < close
                ==> is_multispace(#[trigger] s[p]),
        s[close] == ')',
    ensures
        list_items(s, q, items.take(k)) == Step::Done(items, close + 1),
    decreases items, items.len() - k,
{
    let texts = texts_of(items, nd);
    lemma_texts_of(items, nd);
    let rest = concat_sep(texts.skip(k), seps.skip(k));
    lemma_ws_end(s, q);
    if k == items.len() {
        assert(texts.skip(k).len() == 0);
        assert(rest.len() == 0);
        lemma_ws_run(s, q, close);
        lemma_nothing_at_token_end(s, close);
        assert(items.take(k) == items);
    } else {
        let sep = seps[k];
        let tx = texts[k];
        let after = concat_sep(texts.skip(k + 1), seps.skip(k + 1));
        assert(texts.skip(k)[0] == tx);
        assert(seps.skip(k)[0] == sep);
        assert(texts.skip(k).drop_first() == texts.skip(k + 1));
        assert(seps.skip(k).drop_first() == seps.skip(k + 1));
        assert(rest == sep + tx + after);
        lemma_split_at(s, q, sep + tx, after);
        lemma_split_at(s, q, sep, tx);
        let j = q + sep.len();
        let nxt = j + tx.len();
        assert(items[k] == items[k]);
        assert(writable(items[k]));
        lemma_text_start(items[k], nd);
        assert forall|p: int| q <= p < j implies is_multispace(#[trigger] s[p]) by {
            assert(s.subrange(q, j)[p - q] == sep[p - q]);
        }
        assert(s.subrange(j, nxt)[0] == s[j]);
        lemma_ws_run(s, q, j);
        // what follows the item ends its token
        if k + 1 < items.len() {
            let sep2 = seps[k + 1];
            assert(texts.skip(k + 1)[0] == texts[k + 1]);
            assert(seps.skip(k + 1)[0] == sep2);
            assert(after == sep2 + texts[k + 1] + concat_sep(texts.skip(k + 2), seps.skip(k + 2))) by {
                assert(texts.skip(k + 1).drop_first() == texts.skip(k + 2));
                assert(seps.skip(k + 1).drop_first() == seps.skip(k + 2));
            }
            assert(s.subrange(nxt, nxt + after.len())[0] == s[nxt]);
            assert(after[0] == sep2[0]);
            assert(is_multispace(sep2[0]));
        } else {
            assert(texts.skip(k + 1).len() == 0);
            assert(after.len() == 0);
        }
        assert(ends_token(s, nxt));
        lemma_read_written(items[k], nd, s, j);
        assert(items.take(k).push(items[k]) == items.take(k + 1));
        lemma_read_items(items, nd, seps, k + 1, s, nxt, close);
    }
}

/// A writable expression written at `indent` and standing in `s` at `i`, followed
/// by the end of its token, reads back as itself.
#[verifier::rlimit(40)]
pub proof fn lemma_read_written(e: SExprView, indent: nat, s: Seq<char>, i: int)
    requires
        writable(e),
        0 <= i,
        i + kicad_text(e, indent).len() <= s.len(),
        s.subrange(i, i + kicad_text(e, indent).len()) == kicad_text(e, indent),
        ends_token(s, i + kicad_text(e, indent).len()),
    ensures
        sexpr_at(s, i) == Step::Done(e, i + kicad_text(e, indent).len()),
    decreases e, 0int,
{
    let t = kicad_text(e, indent);
    let end = i + t.len();
    lemma_text_start(e, indent);
    assert(s.subrange(i, end)[0] == s[i]);
    match e {
        SExprView::Symbol(sym) => {
            assert(is_symbol_char(sym[0]));
            let j = if s[i] == '-' {
                i + 1
            } else {
                i
            };
            if s[i] == '-' && sym.len() > 1 {
                assert(s.subrange(i, end)[1] == s[i + 1]);
            }
            lemma_digits_run(s, j, j);
            assert forall|p: int| i <= p < end implies is_symbol_char(#[trigger] s[p]) by {
                assert(s.subrange(i, end)[p - i] == sym[p - i]);
            }
            lemma_symbol_run(s, i, end);
        },
        SExprView::Str(u) => {
            lemma_split_at(s, i, seq!['"'] + escape_text(u), seq!['"']);
            lemma_split_at(s, i, seq!['"'], escape_text(u));
            assert(s.subrange(end - 1, end)[0] == s[end - 1]);
            lemma_read_string_body(s, i + 1, u, Seq::empty());
            assert(Seq::<char>::empty() + u == u);
        },
        SExprView::Number(d) => {
            lemma_read_number(d, s, i);
        },
        SExprView::List(items) => {
            lemma_all_writable(items);
            if items.len() == 0 {
                assert(s.subrange(i, end)[1] == s[i + 1]);
                let texts = texts_of(items, next_indent(indent));
                assert(texts.skip(0).len() == 0);
                assert(concat_sep(texts.skip(0), Seq::<Seq<char>>::empty().skip(0)) == Seq::<char>::empty());
                assert(s.subrange(i + 1, i + 1) =~= Seq::<char>::empty());
                lemma_read_items(items, next_indent(indent), Seq::empty(), 0, s, i + 1, i + 1);
                assert(items.take(0) == Seq::<SExprView>::empty());
            } else {
                let nd = next_indent(indent);
                let texts = texts_of(items, nd);
                lemma_texts_of(items, nd);
                let n = items.len();
                if is_multiline(items, indent) {
                    let h = head_count(items);
                    let seps = spaced_seps(h as nat) + line_seps((n - h) as nat, nd);
                    lemma_join_spaced_sep(texts.take(h));
                    lemma_join_lines_sep(texts.skip(h), nd);
                    lemma_concat_sep_append(texts.take(h), spaced_seps(h as nat), texts.skip(h), line_seps((n - h) as nat, nd));
                    assert(texts.take(h) + texts.skip(h) == texts);
                    let body = concat_sep(texts, seps);
                    let tail = seq!['\n'] + tabs(indent);
                    assert(t == seq!['('] + body + tail + seq![')']);
                    lemma_split_at(s, i, seq!['('] + body + tail, seq![')']);
                    lemma_split_at(s, i, seq!['('] + body, tail);
                    lemma_split_at(s, i, seq!['('], body);
                    let close = end - 1;
                    assert(s.subrange(close, end)[0] == s[close]);
                    assert forall|p: int| i + 1 + body.len() <= p < close implies is_multispace(#[trigger] s[p]) by {
                        assert(s.subrange(i + 1 + body.len(), close)[p - (i + 1 + body.len())] == tail[p - (i + 1 + body.len())]);
                    }
                    assert forall|t2: int, x: int| 0 <= t2 < seps.len() && 0 <= x < seps[t2].len() implies is_multispace(#[trigger] seps[t2][x]) by {
                        if t2 >= h {
                            assert(seps[t2] == seq!['\n'] + tabs(nd));
                        }
                    }
                    assert forall|t2: int| 1 <= t2 < seps.len() implies #[trigger] seps[t2].len() > 0 by {
                        if t2 >= h {
                            assert(seps[t2] == seq!['\n'] + tabs(nd));
                        }
                    }
                    assert(texts.skip(0) == texts);
                    assert(seps.skip(0) == seps);
                    lemma_read_items(items, nd, seps, 0, s, i + 1, close);
                } else {
                    let seps = spaced_seps(n);
                    lemma_join_spaced_sep(texts);
                    let body = concat_sep(texts, seps);
                    assert(t == seq!['('] + body + seq![')']);
                    lemma_split_at(s, i, seq!['('] + body, seq![')']);
                    lemma_split_at(s, i, seq!['('], body);
                    let close = end - 1;
                    assert(s.subrange(close, end)[0] == s[close]);
                    assert(texts.skip(0) == texts);
                    assert(seps.skip(0) == seps);
                    lemma_read_items(items, nd, seps, 0, s, i + 1, close);
                }
                assert(items.take(0) == Seq::<SExprView>::empty());
            }
        },
    }
}


/// What the writer writes, the reader reads back: reading the text that
/// `SExpr::to_kicad_string` gives for a writable expression yields that expression
/// and leaves nothing unread.
pub proof fn lemma_parse_after_write(e: SExprView)
    requires
        writable(e),
    ensures
        parse_spec(kicad_text(e, 0)) == Step::Done(e, kicad_text(e, 0).len() as int),
{
    let t = kicad_text(e, 0);
    lemma_text_start(e, 0);
    lemma_ws_run(t, 0, 0);
    assert(t.subrange(0, t.len() as int) == t);
    lemma_read_written(e, 0, t, 0);
}

} // verus!
