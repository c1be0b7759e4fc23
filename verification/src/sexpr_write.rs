//! Writing S-expressions back as text, in KiCAD's layout.
use vstd::prelude::*;
use crate::sexpr::{
    Decimal, SExpr, SExprView, pow10, dec_digits, strip_trailing_zeros, lemma_pow10_monotone,
    lemma_pow10_positive, push_digits, pow10_exec, views, sexpr_view,
};
use crate::text::{push_char, str_eq};

verus! {

/// Rounds `n / p` to the nearest integer, ties to the even one.
pub open spec fn round_half_even(n: nat, p: nat) -> nat
    recommends
        p > 0,
{
    let q = n / p;
    let r = n % p;
    if 2 * r > p {
        q + 1
    } else if 2 * r < p {
        q
    } else if q % 2 == 0 {
        q
    } else {
        q + 1
    }
}

/// `d` with zeros in front, up to `w` characters.
pub open spec fn pad_zeros(d: Seq<char>, w: nat) -> Seq<char> {
    if d.len() >= w {
        d
    } else {
        Seq::new((w - d.len()) as nat, |_i: int| '0') + d
    }
}

/// `q × 10^(-s)` written with its integer part, then a point and the fraction digits
/// when any nonzero one remains.
pub open spec fn fixed_text(q: nat, s: nat) -> Seq<char> {
    let ds = pad_zeros(dec_digits(q), s + 1);
    let cut = ds.len() - s;
    let ip = ds.take(cut);
    let fp = strip_trailing_zeros(ds.skip(cut));
    if fp.len() == 0 {
        ip
    } else {
        ip + seq!['.'] + fp
    }
}

/// The magnitude of a mantissa.
pub open spec fn magnitude(m: i64) -> nat {
    if m < 0 {
        (-m) as nat
    } else {
        m as nat
    }
}

/// How a number is written: at most six decimal places (rounded, ties to even),
/// without trailing zeros or a trailing point, with a minus sign when negative.
pub open spec fn number_text(d: Decimal) -> Seq<char> {
    let sign = if d.mantissa < 0 {
        seq!['-']
    } else {
        Seq::empty()
    };
    if d.scale <= 6 {
        sign + fixed_text(magnitude(d.mantissa), d.scale as nat)
    } else {
        sign + fixed_text(
            round_half_even(magnitude(d.mantissa), pow10((d.scale - 6) as nat) as nat),
            6,
        )
    }
}

/// The digits of `q`, with zeros in front up to `w` characters.
fn padded_digits(q: u128, w: usize) -> (ds: Vec<char>)
    ensures
        ds@ == pad_zeros(dec_digits(q as nat), w as nat),
{
    let mut digits = String::new();
    push_digits(&mut digits, q);
    let dv = crate::text::chars_of(digits.as_str());
    let mut ds: Vec<char> = Vec::new();
    if dv.len() < w {
        let pad = w - dv.len();
        let mut t: usize = 0;
        while t < pad
            invariant
                t <= pad,
                ds@ == Seq::new(t as nat, |_i: int| '0'),
            decreases pad - t,
        {
            ds.push('0');
            t = t + 1;
            assert(ds@ == Seq::new(t as nat, |_i: int| '0'));
        }
    }
    let ghost head = ds@;
    let mut t: usize = 0;
    while t < dv.len()
        invariant
            t <= dv@.len(),
            ds@ == head + dv@.take(t as int),
        decreases dv@.len() - t,
    {
        ds.push(dv[t]);
        t = t + 1;
        assert(ds@ == head + dv@.take(t as int));
    }
    assert(dv@.take(dv@.len() as int) == dv@);
    ds
}

fn write_fixed(out: &mut String, q: u128, s: u32)
    requires
        s <= 6,
    ensures
        final(out)@ == old(out)@ + fixed_text(q as nat, s as nat),
{
    let ds = padded_digits(q, (s + 1) as usize);
    proof {
        crate::sexpr::lemma_dec_digits(q as nat);
    }
    let n = ds.len();
    let cut = n - s as usize;
    let mut t: usize = 0;
    let ghost start = old(out)@;
    while t < cut
        invariant
            t <= cut <= n == ds@.len(),
            out@ == start + ds@.take(t as int),
        decreases cut - t,
    {
        push_char(out, ds[t]);
        t = t + 1;
        assert(out@ == start + ds@.take(t as int));
    }
    let mut end = n;
    while end > cut && ds[end - 1] == '0'
        invariant
            cut <= end <= n == ds@.len(),
            forall|x: int| end <= x < n ==> ds@[x] == '0',
        decreases end - cut,
    {
        end = end - 1;
    }
    proof {
        let tail = ds@.skip(cut as int);
        assert forall|x: int| end - cut <= x < tail.len() implies tail[x] == '0' by {
            assert(tail[x] == ds@[x + cut]);
        }
        if end > cut {
            assert(tail[end - cut - 1] == ds@[end - 1]);
        }
        crate::sexpr::lemma_strip_trailing(tail, end - cut);
        assert(tail.subrange(0, end - cut) == ds@.subrange(cut as int, end as int));
    }
    assert(ds@.take(cut as int) == ds@.take(t as int));
    if end > cut {
        push_char(out, '.');
        let ghost mid = out@;
        let mut t: usize = cut;
        while t < end
            invariant
                cut <= t <= end <= n == ds@.len(),
                out@ == mid + ds@.subrange(cut as int, t as int),
            decreases end - t,
        {
            push_char(out, ds[t]);
            t = t + 1;
            assert(out@ == mid + ds@.subrange(cut as int, t as int));
        }
    }
}


pub(crate) fn write_number(out: &mut String, d: Decimal)
    ensures
        final(out)@ == old(out)@ + number_text(d),
{
    let neg = d.mantissa < 0;
    let mag: u128 = if neg {
        (0 - (d.mantissa as i128)) as u128
    } else {
        d.mantissa as u128
    };
    assert(mag == magnitude(d.mantissa));
    if neg {
        push_char(out, '-');
    }
    if d.scale <= 6 {
        write_fixed(out, mag, d.scale);
    } else {
        let e = d.scale - 6;
        let q: u128 = if e > 19 {
            proof {
                lemma_pow10_monotone(20, e as nat);
                crate::sexpr::lemma_pow10_19();
                assert(pow10(20) == 10 * pow10(19));
                let p = pow10(e as nat);
                let m = mag as int;
                assert(m / p == 0 && m % p == m) by (nonlinear_arith)
                    requires
                        0 <= m < p,
                ;
            }
            0
        } else {
            let p = pow10_exec(e) as u128;
            proof {
                lemma_pow10_positive(e as nat);
            }
            let q0 = mag / p;
            let r = mag % p;
            if 2 * r > p {
                q0 + 1
            } else if 2 * r < p {
                q0
            } else if q0 % 2 == 0 {
                q0
            } else {
                q0 + 1
            }
        };
        write_fixed(out, q, 6);
    }
}

/// How a character is written inside a quoted string.
pub open spec fn escape_char(c: char) -> Seq<char> {
    if c == '"' {
        seq!['\\', '"']
    } else if c == '\\' {
        seq!['\\', '\\']
    } else if c == '\n' {
        seq!['\\', 'n']
    } else if c == '\r' {
        seq!['\\', 'r']
    } else if c == '\t' {
        seq!['\\', 't']
    } else {
        seq![c]
    }
}

/// The characters of a string, escaped for writing between quotes.
pub open spec fn escape_text(s: Seq<char>) -> Seq<char>
    decreases s.len(),
{
    if s.len() == 0 {
        Seq::empty()
    } else {
        escape_text(s.drop_last()) + escape_char(s.last())
    }
}

fn write_escaped(out: &mut String, s: &str)
    ensures
        final(out)@ == old(out)@ + escape_text(s@),
{
    let cs = crate::text::chars_of(s);
    let ghost start = old(out)@;
    let mut t: usize = 0;
    assert(cs@.take(0) == Seq::<char>::empty());
    while t < cs.len()
        invariant
            t <= cs@.len(),
            cs@ == s@,
            out@ == start + escape_text(cs@.take(t as int)),
        decreases cs@.len() - t,
    {
        let c = cs[t];
        if c == '"' {
            push_char(out, '\\');
            push_char(out, '"');
        } else if c == '\\' {
            push_char(out, '\\');
            push_char(out, '\\');
        } else if c == '\n' {
            push_char(out, '\\');
            push_char(out, 'n');
        } else if c == '\r' {
            push_char(out, '\\');
            push_char(out, 'r');
        } else if c == '\t' {
            push_char(out, '\\');
            push_char(out, 't');
        } else {
            push_char(out, c);
        }
        assert(cs@.take(t + 1).drop_last() == cs@.take(t as int));
        t = t + 1;
    }
    assert(cs@.take(cs@.len() as int) == cs@);
}


/// `n` tab characters.
pub open spec fn tabs(n: nat) -> Seq<char> {
    Seq::new(n, |_i: int| '\t')
}

/// The indentation of the items of a list written at `indent` (the count stops at the
/// largest `usize`).
pub open spec fn next_indent(indent: nat) -> nat {
    if indent < usize::MAX {
        indent + 1
    } else {
        indent
    }
}

/// The list heads whose items KiCAD writes one per line.
pub open spec fn is_multiline_head(name: Seq<char>) -> bool {
    ||| name == "kicad_sch"@
    ||| name == "lib_symbols"@
    ||| name == "symbol"@
    ||| name == "property"@
    ||| name == "junction"@
    ||| name == "wire"@
    ||| name == "bus"@
    ||| name == "global_label"@
    ||| name == "hierarchical_label"@
    ||| name == "label"@
    ||| name == "text"@
    ||| name == "title_block"@
    ||| name == "sheet_instances"@
    ||| name == "instances"@
    ||| name == "project"@
    ||| name == "path"@
}

/// Texts joined by single spaces.
pub open spec fn join_spaced(ts: Seq<Seq<char>>) -> Seq<char>
    decreases ts.len(),
{
    if ts.len() == 0 {
        Seq::empty()
    } else if ts.len() == 1 {
        ts[0]
    } else {
        join_spaced(ts.drop_last()) + seq![' '] + ts.last()
    }
}

/// Texts, each on a new line indented by `d` tabs.
pub open spec fn join_lines(ts: Seq<Seq<char>>, d: nat) -> Seq<char>
    decreases ts.len(),
{
    if ts.len() == 0 {
        Seq::empty()
    } else {
        join_lines(ts.drop_last(), d) + seq!['\n'] + tabs(d) + ts.last()
    }
}

/// Whether a list written at `indent` puts its items on lines of their own: at the
/// top level, or when it starts with one of the multiline heads, and has more than
/// one item.
pub open spec fn is_multiline(items: Seq<SExprView>, indent: nat) -> bool {
    &&& indent == 0 || (items[0] matches SExprView::Symbol(name) && is_multiline_head(name))
    &&& items.len() > 1
}

/// How many leading items share the opening line of a multiline list: the head, and
/// a string right after it.
pub open spec fn head_count(items: Seq<SExprView>) -> int {
    if items[1] is Str {
        2
    } else {
        1
    }
}

/// A list written at `indent`, laid out from the texts of its items.
pub open spec fn list_layout(items: Seq<SExprView>, texts: Seq<Seq<char>>, indent: nat) -> Seq<
    char,
> {
    if is_multiline(items, indent) {
        let split = head_count(items);
        seq!['('] + join_spaced(texts.take(split)) + join_lines(
            texts.skip(split),
            next_indent(indent),
        ) + seq!['\n'] + tabs(indent) + seq![')']
    } else {
        seq!['('] + join_spaced(texts) + seq![')']
    }
}

/// An expression written in KiCAD's layout, with `indent` tabs before the closing
/// parenthesis of a multiline list.
pub open spec fn kicad_text(e: SExprView, indent: nat) -> Seq<char>
    decreases e,
{
    match e {
        SExprView::Symbol(s) => s,
        SExprView::Str(s) => seq!['"'] + escape_text(s) + seq!['"'],
        SExprView::Number(d) => number_text(d),
        SExprView::List(items) => {
            if items.len() == 0 {
                seq!['(', ')']
            } else {
                list_layout(items, texts_of(items, next_indent(indent)), indent)
            }
        },
    }
}

/// The texts of expressions written at `d`.
pub open spec fn texts_of(items: Seq<SExprView>, d: nat) -> Seq<Seq<char>>
    decreases items,
{
    if items.len() == 0 {
        Seq::empty()
    } else {
        texts_of(items.drop_last(), d).push(kicad_text(items.last(), d))
    }
}

pub proof fn lemma_texts_of(items: Seq<SExprView>, d: nat)
    ensures
        texts_of(items, d).len() == items.len(),
        forall|k: int| 0 <= k < items.len() ==> #[trigger] texts_of(items, d)[k] == kicad_text(items[k], d),
    decreases items.len(),
{
    if items.len() > 0 {
        lemma_texts_of(items.drop_last(), d);
    }
}

fn write_tabs(out: &mut String, n: usize)
    ensures
        final(out)@ == old(out)@ + tabs(n as nat),
{
    let ghost start = old(out)@;
    let mut t: usize = 0;
    while t < n
        invariant
            t <= n,
            out@ == start + tabs(t as nat),
        decreases n - t,
    {
        push_char(out, '\t');
        t = t + 1;
        assert(out@ == start + tabs(t as nat));
    }
}

fn is_multiline_name(s: &str) -> (r: bool)
    ensures
        r == is_multiline_head(s@),
{
    str_eq(s, "kicad_sch") || str_eq(s, "lib_symbols") || str_eq(s, "symbol") || str_eq(
        s,
        "property",
    ) || str_eq(s, "junction") || str_eq(s, "wire") || str_eq(s, "bus") || str_eq(
        s,
        "global_label",
    ) || str_eq(s, "hierarchical_label") || str_eq(s, "label") || str_eq(s, "text") || str_eq(
        s,
        "title_block",
    ) || str_eq(s, "sheet_instances") || str_eq(s, "instances") || str_eq(s, "project")
        || str_eq(s, "path")
}


proof fn lemma_views_index(items: Seq<SExpr>, k: int)
    requires
        0 <= k < items.len(),
    ensures
        views(items)[k] == items[k]@,
        views(items).len() == items.len(),
{
}

/// Writes the items `items[from..]`, each on a new line indented by `d` tabs.
fn write_items_on_lines(items: &Vec<SExpr>, from: usize, output: &mut String, d: usize)
    requires
        from <= items@.len(),
    ensures
        final(output)@ == old(output)@ + join_lines(texts_of(views(items@), d as nat).skip(from as int), d as nat),
    decreases items, 0int,
{
    let ghost texts = texts_of(views(items@), d as nat);
    proof {
        lemma_texts_of(views(items@), d as nat);
        assert(texts.skip(from as int).take(0) =~= Seq::<Seq<char>>::empty());
    }
    let ghost head = old(output)@;
    let mut k: usize = from;
    while k < items.len()
        invariant
            from <= k <= items@.len(),
            texts == texts_of(views(items@), d as nat),
            texts.len() == items@.len(),
            forall|t: int| 0 <= t < items@.len() ==> #[trigger] texts[t] == kicad_text(views(items@)[t], d as nat),
            output@ == head + join_lines(texts.skip(from as int).take(k - from), d as nat),
        decreases items@.len() - k,
    {
        push_char(output, '\n');
        write_tabs(output, d);
        proof {
            lemma_views_index(items@, k as int);
            assert(decreases_to!(*items => items@));
            assert(decreases_to!(items@ => items@[k as int]));
        }
        items[k].write_kicad_string(output, d);
        proof {
            let ts = texts.skip(from as int);
            assert(ts.take(k - from + 1).drop_last() =~= ts.take(k - from));
            assert(ts.take(k - from + 1).last() == texts[k as int]);
        }
        k = k + 1;
    }
    assert(texts.skip(from as int).take(items@.len() - from) =~= texts.skip(from as int));
}

/// Writes the items `items[..upto]` separated by single spaces, at indent `d`.
fn write_items_spaced(items: &Vec<SExpr>, upto: usize, output: &mut String, d: usize)
    requires
        upto <= items@.len(),
    ensures
        final(output)@ == old(output)@ + join_spaced(texts_of(views(items@), d as nat).take(upto as int)),
    decreases items, 0int,
{
    let ghost texts = texts_of(views(items@), d as nat);
    proof {
        lemma_texts_of(views(items@), d as nat);
        assert(texts.take(0) =~= Seq::<Seq<char>>::empty());
    }
    let ghost head = old(output)@;
    let mut k: usize = 0;
    while k < upto
        invariant
            k <= upto <= items@.len(),
            texts == texts_of(views(items@), d as nat),
            texts.len() == items@.len(),
            forall|t: int| 0 <= t < items@.len() ==> #[trigger] texts[t] == kicad_text(views(items@)[t], d as nat),
            output@ == head + join_spaced(texts.take(k as int)),
        decreases upto - k,
    {
        if k > 0 {
            push_char(output, ' ');
        }
        proof {
            lemma_views_index(items@, k as int);
            assert(decreases_to!(*items => items@));
            assert(decreases_to!(items@ => items@[k as int]));
        }
        items[k].write_kicad_string(output, d);
        proof {
            assert(texts.take(k + 1).drop_last() =~= texts.take(k as int));
            if k == 0 {
                assert(texts.take(1) =~= seq![texts[0]]);
            }
        }
        k = k + 1;
    }
}

impl SExpr {
    /// Convert to KiCAD-formatted string
    pub fn to_kicad_string(&self) -> (r: String)
        ensures
            r@ == kicad_text(self@, 0),
    {
        let mut output = String::new();
        self.write_kicad_string(&mut output, 0);
        output
    }

    /// Write KiCAD-formatted string with indentation
    fn write_kicad_string(&self, output: &mut String, indent: usize)
        ensures
            final(output)@ == old(output)@ + kicad_text(self@, indent as nat),
        decreases self, 1int,
    {
        match self {
            SExpr::Symbol(s) => {
                output.append(s.as_str());
            },
            SExpr::String(s) => {
                push_char(output, '"');
                write_escaped(output, s.as_str());
                push_char(output, '"');
            },
            SExpr::Number(n) => {
                write_number(output, *n);
            },
            SExpr::List(items) => {
                let ghost vs = views(items@);
                assert(self@ == SExprView::List(vs)) by {
                    assert(sexpr_view(*self)->List_0 =~= vs);
                }
                if items.len() == 0 {
                    push_char(output, '(');
                    push_char(output, ')');
                    return;
                }
                let next: usize = if indent < usize::MAX {
                    indent + 1
                } else {
                    indent
                };
                let multiline = indent == 0 || match &items[0] {
                    SExpr::Symbol(s) => is_multiline_name(s.as_str()),
                    _ => false,
                };
                proof {
                    lemma_views_index(items@, 0);
                }
                assert(multiline == (indent == 0 || (vs[0] matches SExprView::Symbol(name)
                    && is_multiline_head(name))));
                push_char(output, '(');
                proof {
                    assert(decreases_to!(*self => *items));
                }
                if multiline && items.len() > 1 {
                    let split: usize = match &items[1] {
                        SExpr::String(_) => 2,
                        _ => 1,
                    };
                    proof {
                        lemma_views_index(items@, 1);
                    }
                    assert(split == head_count(vs));
                    write_items_spaced(items, split, output, next);
                    write_items_on_lines(items, split, output, next);
                    push_char(output, '\n');
                    write_tabs(output, indent);
                } else {
                    write_items_spaced(items, items.len(), output, next);
                    assert(texts_of(vs, next as nat).take(items@.len() as int) =~= texts_of(
                        vs,
                        next as nat,
                    )) by {
                        lemma_texts_of(vs, next as nat);
                    }
                }
                push_char(output, ')');
            },
        }
    }
}

} // verus!
