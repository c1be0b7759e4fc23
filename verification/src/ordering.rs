//! Orders used for sorting outline entries: text order, and stable insertion by key.
use vstd::prelude::*;

verus! {

/// Text order: the character codes compared from the first, a proper prefix first.
pub open spec fn seq_lt(a: Seq<char>, b: Seq<char>) -> bool
    decreases a.len(),
{
    if b.len() == 0 {
        false
    } else if a.len() == 0 {
        true
    } else if a[0] != b[0] {
        (a[0] as u32) < (b[0] as u32)
    } else {
        seq_lt(a.drop_first(), b.drop_first())
    }
}

/// `x` inserted into `sorted` after every element that does not come after it
/// (`lt(x, y)`: `x` comes strictly before `y`).
pub open spec fn insert_by<T>(sorted: Seq<T>, x: T, lt: spec_fn(T, T) -> bool) -> Seq<T>
    decreases sorted.len(),
{
    if sorted.len() == 0 {
        seq![x]
    } else if lt(x, sorted[0]) {
        seq![x] + sorted
    } else {
        seq![sorted[0]] + insert_by(sorted.drop_first(), x, lt)
    }
}

/// Stable sort: the elements inserted one by one, in their order.
pub open spec fn sort_by<T>(s: Seq<T>, lt: spec_fn(T, T) -> bool) -> Seq<T>
    decreases s.len(),
{
    if s.len() == 0 {
        Seq::empty()
    } else {
        insert_by(sort_by(s.drop_last(), lt), s.last(), lt)
    }
}

/// Where `x` goes: after the first `p` elements, when none of them comes after `x` and
/// the next one does (or there is none).
pub proof fn lemma_insert_at<T>(sorted: Seq<T>, x: T, lt: spec_fn(T, T) -> bool, p: int)
    requires
        0 <= p <= sorted.len(),
        forall|j: int| 0 <= j < p ==> !lt(x, #[trigger] sorted[j]),
        p == sorted.len() || lt(x, sorted[p]),
    ensures
        insert_by(sorted, x, lt) == sorted.insert(p, x),
    decreases p,
{
    if p == 0 {
        if sorted.len() == 0 {
            assert(sorted.insert(0, x) == seq![x]);
        } else {
            assert(sorted.insert(0, x) == seq![x] + sorted);
        }
    } else {
        let r = sorted.drop_first();
        assert forall|j: int| 0 <= j < p - 1 implies !lt(x, #[trigger] r[j]) by {
            assert(r[j] == sorted[j + 1]);
            assert(!lt(x, sorted[j + 1]));
        }
        if p < sorted.len() {
            assert(r[p - 1] == sorted[p]);
        }
        assert(!lt(x, sorted[0]));
        lemma_insert_at(r, x, lt, p - 1);
        assert(seq![sorted[0]] + r.insert(p - 1, x) == sorted.insert(p, x));
    }
}

/// Whether `a` comes before `b` in text order.
pub fn str_lt(a: &str, b: &str) -> (r: bool)
    ensures
        r == seq_lt(a@, b@),
{
    let va = crate::text::chars_of(a);
    let vb = crate::text::chars_of(b);
    let mut i: usize = 0;
    assert(a@.skip(0) == a@);
    assert(b@.skip(0) == b@);
    while i < va.len() && i < vb.len() && va[i] == vb[i]
        invariant
            i <= va@.len(),
            i <= vb@.len(),
            va@ == a@,
            vb@ == b@,
            seq_lt(a@, b@) == seq_lt(a@.skip(i as int), b@.skip(i as int)),
        decreases va@.len() - i,
    {
        assert(a@.skip(i as int).drop_first() == a@.skip(i + 1));
        assert(b@.skip(i as int).drop_first() == b@.skip(i + 1));
        i = i + 1;
    }
    if i == vb.len() {
        false
    } else if i == va.len() {
        true
    } else {
        (va[i] as u32) < (vb[i] as u32)
    }
}


/// No element comes after a later one.
pub open spec fn sorted_by<T>(s: Seq<T>, lt: spec_fn(T, T) -> bool) -> bool {
    forall|i: int, j: int| 0 <= i < j < s.len() ==> !lt(s[j], s[i])
}

/// `lt` is irreflexive and transitive.
pub open spec fn strict_order<T>(lt: spec_fn(T, T) -> bool) -> bool {
    &&& forall|a: T| !#[trigger] lt(a, a)
    &&& forall|a: T, b: T, c: T| #[trigger] lt(a, b) && #[trigger] lt(b, c) ==> lt(a, c)
}

pub(crate) proof fn lemma_insert_by_is_insert<T>(s: Seq<T>, x: T, lt: spec_fn(T, T) -> bool)
    ensures
        exists|p: int| 0 <= p <= s.len() && insert_by(s, x, lt) == s.insert(p, x),
    decreases s.len(),
{
    if s.len() == 0 {
        assert(insert_by(s, x, lt) == s.insert(0, x));
    } else if lt(x, s[0]) {
        assert(insert_by(s, x, lt) == s.insert(0, x));
    } else {
        let r = s.drop_first();
        lemma_insert_by_is_insert(r, x, lt);
        let p = choose|p: int| 0 <= p <= r.len() && insert_by(r, x, lt) == r.insert(p, x);
        assert(seq![s[0]] + r.insert(p, x) == s.insert(p + 1, x));
    }
}

proof fn lemma_insert_sorted<T>(s: Seq<T>, x: T, lt: spec_fn(T, T) -> bool)
    requires
        sorted_by(s, lt),
        strict_order(lt),
    ensures
        sorted_by(insert_by(s, x, lt), lt),
        insert_by(s, x, lt).len() == s.len() + 1,
        forall|k: int|
            0 <= k < insert_by(s, x, lt).len() ==> #[trigger] insert_by(s, x, lt)[k] == x
                || s.contains(insert_by(s, x, lt)[k]),
    decreases s.len(),
{
    let r = insert_by(s, x, lt);
    if s.len() == 0 {
    } else if lt(x, s[0]) {
        assert forall|i: int, j: int| 0 <= i < j < r.len() implies !lt(r[j], r[i]) by {
            if i == 0 {
                assert(r[j] == s[j - 1]);
                if lt(s[j - 1], x) {
                    assert(lt(s[j - 1], s[0]));
                    if j - 1 > 0 {
                        assert(!lt(s[j - 1], s[0]));
                    }
                }
            } else {
                assert(r[i] == s[i - 1] && r[j] == s[j - 1]);
            }
        }
        assert forall|k: int| 0 <= k < r.len() implies #[trigger] r[k] == x || s.contains(r[k]) by {
            if k > 0 {
                assert(r[k] == s[k - 1]);
            }
        }
    } else {
        let rest = s.drop_first();
        assert(sorted_by(rest, lt)) by {
            assert forall|i: int, j: int| 0 <= i < j < rest.len() implies !lt(rest[j], rest[i]) by {
                assert(rest[i] == s[i + 1] && rest[j] == s[j + 1]);
            }
        }
        lemma_insert_sorted(rest, x, lt);
        let ir = insert_by(rest, x, lt);
        assert(r == seq![s[0]] + ir);
        assert forall|i: int, j: int| 0 <= i < j < r.len() implies !lt(r[j], r[i]) by {
            if i == 0 {
                assert(r[j] == ir[j - 1]);
                if ir[j - 1] != x {
                    assert(rest.contains(ir[j - 1]));
                    let t = choose|t: int| 0 <= t < rest.len() && rest[t] == ir[j - 1];
                    assert(rest[t] == s[t + 1]);
                }
            } else {
                assert(r[i] == ir[i - 1] && r[j] == ir[j - 1]);
            }
        }
        assert forall|k: int| 0 <= k < r.len() implies #[trigger] r[k] == x || s.contains(r[k]) by {
            if k == 0 {
                assert(s[0] == r[0]);
            } else {
                assert(r[k] == ir[k - 1]);
                if ir[k - 1] != x {
                    let t = choose|t: int| 0 <= t < rest.len() && rest[t] == ir[k - 1];
                    assert(s[t + 1] == rest[t]);
                }
            }
        }
    }
}

/// Sorting by a strict order puts the elements in order and keeps each of them, as many
/// times as it occurs.
pub proof fn lemma_sort_by<T>(s: Seq<T>, lt: spec_fn(T, T) -> bool)
    requires
        strict_order(lt),
    ensures
        sorted_by(sort_by(s, lt), lt),
        sort_by(s, lt).to_multiset() == s.to_multiset(),
    decreases s.len(),
{
    broadcast use vstd::seq_lib::group_to_multiset_ensures;

    if s.len() > 0 {
        let d = s.drop_last();
        lemma_sort_by(d, lt);
        lemma_insert_sorted(sort_by(d, lt), s.last(), lt);
        lemma_insert_by_is_insert(sort_by(d, lt), s.last(), lt);
        assert(s == d.push(s.last()));
    } else {
        assert(s.to_multiset() =~= vstd::multiset::Multiset::empty());
        assert(sort_by(s, lt).to_multiset() =~= vstd::multiset::Multiset::empty());
    }
}

proof fn lemma_seq_lt_irreflexive(a: Seq<char>)
    ensures
        !seq_lt(a, a),
    decreases a.len(),
{
    if a.len() > 0 {
        lemma_seq_lt_irreflexive(a.drop_first());
    }
}

proof fn lemma_seq_lt_transitive(a: Seq<char>, b: Seq<char>, c: Seq<char>)
    requires
        seq_lt(a, b),
        seq_lt(b, c),
    ensures
        seq_lt(a, c),
    decreases a.len(),
{
    if a.len() > 0 && b.len() > 0 && c.len() > 0 && a[0] == b[0] && b[0] == c[0] {
        lemma_seq_lt_transitive(a.drop_first(), b.drop_first(), c.drop_first());
    }
}

/// Text order is a strict order.
pub proof fn lemma_text_order_strict()
    ensures
        forall|a: Seq<char>| !#[trigger] seq_lt(a, a),
        forall|a: Seq<char>, b: Seq<char>, c: Seq<char>|
            #[trigger] seq_lt(a, b) && #[trigger] seq_lt(b, c) ==> seq_lt(a, c),
{
    assert forall|a: Seq<char>| !#[trigger] seq_lt(a, a) by {
        lemma_seq_lt_irreflexive(a);
    }
    assert forall|a: Seq<char>, b: Seq<char>, c: Seq<char>|
        #[trigger] seq_lt(a, b) && #[trigger] seq_lt(b, c) implies seq_lt(a, c) by {
        lemma_seq_lt_transitive(a, b, c);
    }
}

} // verus!
