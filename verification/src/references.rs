//! Reference designators for new components: the next free number after a prefix.
use vstd::prelude::*;
use crate::semantic_components::{all_digits, string_views};
use crate::sexpr::{dec_digits, digits_value, is_digit, lemma_dec_digits};
use crate::text::{chars_of, has_prefix, push_char, string_from_chars};

verus! {

/// What `str::parse::<u32>` gives: an optional `+` followed by at least one digit and
/// nothing else, whose value fits.
pub open spec fn parse_u32_spec(s: Seq<char>) -> Option<u32> {
    let digits = if s.len() > 0 && s[0] == '+' {
        s.drop_first()
    } else {
        s
    };
    if digits.len() == 0 || !all_digits(digits) || digits_value(digits) > u32::MAX {
        None
    } else {
        Some(digits_value(digits) as u32)
    }
}

/// The number of reference `r` under `prefix`: what follows the prefix, read as a `u32`.
pub open spec fn ref_number(r: Seq<char>, prefix: Seq<char>) -> Option<u32> {
    if prefix.is_prefix_of(r) {
        parse_u32_spec(r.skip(prefix.len() as int))
    } else {
        None
    }
}

/// The largest number among the references under `prefix` (0 when there is none).
pub open spec fn max_ref_number(refs: Seq<Seq<char>>, prefix: Seq<char>) -> nat
    decreases refs.len(),
{
    if refs.len() == 0 {
        0
    } else {
        let m = max_ref_number(refs.drop_last(), prefix);
        match ref_number(refs.last(), prefix) {
            Some(v) => if v > m {
                v as nat
            } else {
                m
            },
            None => m,
        }
    }
}

/// Digits padded with a leading zero to two places.
pub open spec fn pad2(d: Seq<char>) -> Seq<char> {
    if d.len() < 2 {
        seq!['0'] + d
    } else {
        d
    }
}

/// The next free reference under `prefix`: the prefix followed by one more than the
/// largest number in use, with two digits at least for a power prefix (`#...`).
pub open spec fn next_reference_spec(refs: Seq<Seq<char>>, prefix: Seq<char>) -> Seq<char> {
    let digits = dec_digits(max_ref_number(refs, prefix) + 1);
    if prefix.len() > 0 && prefix[0] == '#' {
        prefix + pad2(digits)
    } else {
        prefix + digits
    }
}

/// `s` without the `?` characters at its end.
pub open spec fn trim_question_marks(s: Seq<char>) -> Seq<char>
    decreases s.len(),
{
    if s.len() > 0 && s.last() == '?' {
        trim_question_marks(s.drop_last())
    } else {
        s
    }
}

/// The prefix under which a new reference is numbered: the requested reference
/// without its trailing `?`, or the symbol's default prefix, or `U`. None when the
/// requested reference has no `?` and is taken as it is.
pub open spec fn numbering_prefix(requested: Option<Seq<char>>, symbol_prefix: Option<Seq<char>>) -> Option<
    Seq<char>,
> {
    match requested {
        Some(r) => if r.contains('?') {
            Some(trim_question_marks(r))
        } else {
            None
        },
        None => Some(
            match symbol_prefix {
                Some(p) => p,
                None => "U"@,
            },
        ),
    }
}

/// The reference a new component gets: the requested one when it holds no `?`, else the
/// next free reference under its prefix.
pub open spec fn chosen_reference(
    refs: Seq<Seq<char>>,
    requested: Option<Seq<char>>,
    symbol_prefix: Option<Seq<char>>,
) -> Seq<char> {
    match numbering_prefix(requested, symbol_prefix) {
        Some(p) => next_reference_spec(refs, p),
        None => requested.unwrap(),
    }
}

pub open spec fn opt_str(s: Option<&str>) -> Option<Seq<char>> {
    match s {
        Some(t) => Some(t@),
        None => None,
    }
}

/// The value of `str::parse::<u32>` on `s[lo..]`, written out.
fn parse_u32(s: &Vec<char>, lo: usize) -> (r: Option<u32>)
    requires
        lo <= s@.len(),
    ensures
        r == parse_u32_spec(s@.skip(lo as int)),
{
    let ghost t = s@.skip(lo as int);
    let n = s.len();
    let signed = lo < n && s[lo] == '+';
    let start = if signed {
        lo + 1
    } else {
        lo
    };
    let ghost digits = if t.len() > 0 && t[0] == '+' {
        t.drop_first()
    } else {
        t
    };
    if lo < n {
        assert(t[0] == s@[lo as int]);
    }
    assert(digits == s@.subrange(start as int, n as int));
    if start == n {
        return None;
    }
    let mut v: u64 = 0;
    let mut over = false;
    let mut i = start;
    while i < n
        invariant
            start <= i <= n == s@.len(),
            lo <= start,
            digits == s@.subrange(start as int, n as int),
            t == s@.skip(lo as int),
            digits == (if t.len() > 0 && t[0] == '+' {
                t.drop_first()
            } else {
                t
            }),
            forall|k: int| start <= k < i ==> is_digit(#[trigger] s@[k]),
            !over ==> v == digits_value(s@.subrange(start as int, i as int)),
            !over ==> v <= u32::MAX,
            over ==> digits_value(s@.subrange(start as int, i as int)) > u32::MAX,
        decreases n - i,
    {
        let c = s[i];
        if !('0' <= c && c <= '9') {
            assert(digits[i - start] == c);
            assert(!all_digits(digits));
            return None;
        }
        proof {
            let sub = s@.subrange(start as int, i + 1);
            assert(sub.drop_last() == s@.subrange(start as int, i as int));
            assert(sub.last() == c);
            let prev = s@.subrange(start as int, i as int);
            assert forall|k: int| 0 <= k < prev.len() implies is_digit(#[trigger] prev[k]) by {
                assert(prev[k] == s@[start + k]);
            }
            crate::sexpr::lemma_digits_value_bounds(prev);
        }
        if !over {
            let d = (c as u32 - '0' as u32) as u64;
            let nv = v * 10 + d;
            if nv > 0xffff_ffff {
                over = true;
            } else {
                v = nv;
            }
        }
        i = i + 1;
    }
    assert forall|k: int| 0 <= k < digits.len() implies is_digit(#[trigger] digits[k]) by {
        assert(digits[k] == s@[start + k]);
    }
    if over {
        return None;
    }
    Some(v as u32)
}

/// The number of a reference under a prefix, if it has one.
fn ref_number_exec(r: &String, prefix: &Vec<char>) -> (n: Option<u32>)
    ensures
        n == ref_number(r@, prefix@),
{
    let v = chars_of(r.as_str());
    if !has_prefix(&v, prefix) {
        return None;
    }
    parse_u32(&v, prefix.len())
}

/// The next free reference under `prefix` among the references in use: the prefix and
/// one more than the largest number found after it (two digits at least for a power
/// prefix such as `#PWR`).
pub fn next_reference(references: &Vec<String>, prefix: &str) -> (r: String)
    requires
        max_ref_number(string_views(references@), prefix@) < u32::MAX,
    ensures
        r@ == next_reference_spec(string_views(references@), prefix@),
{
    let ghost refs = string_views(references@);
    let pv = chars_of(prefix);
    let mut max_num: u32 = 0;
    let mut k: usize = 0;
    assert(refs.take(0) == Seq::<Seq<char>>::empty());
    while k < references.len()
        invariant
            k <= references@.len(),
            refs == string_views(references@),
            pv@ == prefix@,
            max_num == max_ref_number(refs.take(k as int), prefix@),
        decreases references@.len() - k,
    {
        assert(refs.take(k + 1).drop_last() == refs.take(k as int));
        assert(refs.take(k + 1).last() == references@[k as int]@);
        match ref_number_exec(&references[k], &pv) {
            Some(num) => {
                if num > max_num {
                    max_num = num;
                }
            },
            None => {},
        }
        k = k + 1;
    }
    assert(refs.take(references@.len() as int) == refs);
    let next = max_num + 1;
    let mut r = String::from_str(prefix);
    let power = pv.len() > 0 && pv[0] == '#';
    if power && next < 10 {
        push_char(&mut r, '0');
        crate::sexpr::push_digits(&mut r, next as u128);
        proof {
            lemma_dec_digits(next as nat);
            assert(dec_digits(next as nat).len() == 1);
        }
        assert(r@ == prefix@ + (seq!['0'] + dec_digits(next as nat)));
    } else {
        crate::sexpr::push_digits(&mut r, next as u128);
        proof {
            if power {
                lemma_two_digits(next as nat);
            }
        }
    }
    r
}

proof fn lemma_two_digits(n: nat)
    requires
        n >= 10,
    ensures
        dec_digits(n).len() >= 2,
    decreases n,
{
    assert(dec_digits(n) == dec_digits(n / 10).push(crate::sexpr::digit_char((n % 10) as int)));
    assert(dec_digits(n / 10).len() >= 1) by {
        if n / 10 >= 10 {
            lemma_two_digits(n / 10);
        }
    }
}

/// `s` without its trailing `?` characters.
fn trim_question_marks_exec(s: &str) -> (r: String)
    ensures
        r@ == trim_question_marks(s@),
{
    let v = chars_of(s);
    let mut n = v.len();
    assert(v@.take(n as int) == v@);
    while n > 0 && v[n - 1] == '?'
        invariant
            n <= v@.len(),
            v@ == s@,
            trim_question_marks(s@) == trim_question_marks(v@.take(n as int)),
        decreases n,
    {
        assert(v@.take(n as int).drop_last() == v@.take(n - 1));
        n = n - 1;
    }
    assert(n > 0 ==> v@.take(n as int).last() == v@[n - 1]);
    string_from_chars(&v, 0, n)
}

/// The reference a new component gets: the requested one when given without `?`;
/// otherwise the next free reference under the requested reference without its
/// trailing `?`, or under the symbol's default prefix (`U` when it has none).
pub fn choose_reference(references: &Vec<String>, requested: Option<&str>, symbol_prefix: Option<&str>) -> (r:
    String)
    requires
        numbering_prefix(opt_str(requested), opt_str(symbol_prefix)) matches Some(p) ==> max_ref_number(
            string_views(references@),
            p,
        ) < u32::MAX,
    ensures
        r@ == chosen_reference(string_views(references@), opt_str(requested), opt_str(symbol_prefix)),
{
    match requested {
        Some(req) => {
            let v = chars_of(req);
            if crate::text::has_char(&v, '?') {
                let prefix = trim_question_marks_exec(req);
                next_reference(references, prefix.as_str())
            } else {
                String::from_str(req)
            }
        },
        None => {
            let prefix = match symbol_prefix {
                Some(p) => p,
                None => "U",
            };
            next_reference(references, prefix)
        },
    }
}

proof fn lemma_leading_zero(d: Seq<char>)
    ensures
        digits_value(seq!['0'] + d) == digits_value(d),
    decreases d.len(),
{
    let z = seq!['0'] + d;
    if d.len() == 0 {
        assert(z.drop_last() == Seq::<char>::empty());
        assert(digits_value(Seq::<char>::empty()) == 0);
        assert(z.last() == '0');
        assert(digits_value(z) == digits_value(z.drop_last()) * 10 + crate::sexpr::digit_value(z.last()));
    } else {
        assert(z.drop_last() == seq!['0'] + d.drop_last());
        assert(z.last() == d.last());
        lemma_leading_zero(d.drop_last());
    }
}

proof fn lemma_max_bounds(refs: Seq<Seq<char>>, prefix: Seq<char>, k: int)
    requires
        0 <= k < refs.len(),
        ref_number(refs[k], prefix) is Some,
    ensures
        ref_number(refs[k], prefix).unwrap() <= max_ref_number(refs, prefix),
    decreases refs.len(),
{
    if k < refs.len() - 1 {
        assert(refs.drop_last()[k] == refs[k]);
        lemma_max_bounds(refs.drop_last(), prefix, k);
    }
}

/// The next reference is free: no reference in use is equal to it.
pub proof fn lemma_next_reference_is_unused(refs: Seq<Seq<char>>, prefix: Seq<char>)
    requires
        max_ref_number(refs, prefix) < u32::MAX,
    ensures
        !refs.contains(next_reference_spec(refs, prefix)),
{
    let n = max_ref_number(refs, prefix) + 1;
    let d = dec_digits(n);
    lemma_dec_digits(n);
    let power = prefix.len() > 0 && prefix[0] == '#';
    let suffix = if power {
        pad2(d)
    } else {
        d
    };
    let next = prefix + suffix;
    assert(next == next_reference_spec(refs, prefix));
    assert(all_digits(suffix) && digits_value(suffix) == n && suffix.len() > 0) by {
        if power && d.len() < 2 {
            lemma_leading_zero(d);
            assert forall|t: int| 0 <= t < suffix.len() implies is_digit(#[trigger] suffix[t]) by {
                if t > 0 {
                    assert(suffix[t] == d[t - 1]);
                }
            }
        }
    }
    if refs.contains(next) {
        let k = choose|k: int| 0 <= k < refs.len() && refs[k] == next;
        assert(prefix.is_prefix_of(next)) by {
            assert(next.subrange(0, prefix.len() as int) == prefix);
        }
        assert(next.skip(prefix.len() as int) == suffix);
        assert(suffix[0] != '+') by {
            assert(is_digit(suffix[0]));
        }
        assert(parse_u32_spec(suffix) == Some(n as u32));
        lemma_max_bounds(refs, prefix, k);
    }
}

} // verus!
