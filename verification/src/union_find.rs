//! Union-find over connection-point indices, with union by rank and path
//! compression. Two indices are connected when they share a root.

use vstd::prelude::*;

verus! {

/// The representative reached from `i` by following parent links.
pub open spec fn root_of(parent: Seq<usize>, rank: Seq<usize>, i: int) -> int
    decreases (usize::MAX as int) - rank[i],
{
    if 0 <= i < parent.len() && parent.len() == rank.len() && parent[i] != i && parent[i]
        < parent.len() && rank[i] < rank[parent[i] as int] {
        root_of(parent, rank, parent[i] as int)
    } else {
        i
    }
}

/// Number of roots (indices that are their own parent) among the first `k`.
pub open spec fn count_roots(parent: Seq<usize>, k: int) -> int
    decreases k,
{
    if k <= 0 {
        0
    } else {
        count_roots(parent, k - 1) + if parent[k - 1] as int == k - 1 {
            1int
        } else {
            0int
        }
    }
}

/// The structural invariant: parents are in range, ranks grow strictly along
/// parent links, no rank exceeds the number of merges done, and every merge
/// removed exactly one root.
pub open spec fn uf_wf(parent: Seq<usize>, rank: Seq<usize>, merges: nat) -> bool {
    &&& uf_shape(parent, rank)
    &&& forall|i: int| 0 <= i < rank.len() ==> #[trigger] rank[i] <= merges
    &&& count_roots(parent, parent.len() as int) + merges == parent.len()
}

/// Parents are in range and ranks grow strictly along parent links.
pub open spec fn uf_shape(parent: Seq<usize>, rank: Seq<usize>) -> bool {
    &&& parent.len() == rank.len()
    &&& forall|i: int| 0 <= i < parent.len() ==> #[trigger] parent[i] < parent.len()
    &&& forall|i: int|
        0 <= i < parent.len() && #[trigger] parent[i] != i ==> rank[i] < rank[parent[i] as int]
}

/// Simple union-find data structure for connectivity
pub struct UnionFind {
    parent: Vec<usize>,
    rank: Vec<usize>,
    merges: Ghost<nat>,
}

impl UnionFind {
    /// Number of elements.
    pub closed spec fn len(&self) -> nat {
        self.parent@.len()
    }

    /// The structure is well formed.
    pub closed spec fn wf(&self) -> bool {
        uf_wf(self.parent@, self.rank@, self.merges@)
    }

    /// The representative of the set holding `i`.
    pub closed spec fn root(&self, i: int) -> int {
        root_of(self.parent@, self.rank@, i)
    }

    /// How far the rank of `i` lies below the largest rank; it drops along parent links.
    pub closed spec fn rank_gap(&self, i: int) -> int {
        (usize::MAX as int) - self.rank@[i]
    }

    /// Both structures have the same ranks, merge count and set of roots.
    pub closed spec fn same_roots_and_ranks(&self, other: Self) -> bool {
        &&& self.rank@ == other.rank@
        &&& self.merges@ == other.merges@
        &&& self.parent@.len() == other.parent@.len()
        &&& forall|i: int|
            0 <= i < self.parent@.len() ==> (#[trigger] self.parent@[i] == i) == (other.parent@[i]
                == i)
    }

    /// `i` and `j` lie in the same set.
    pub open spec fn connected(&self, i: int, j: int) -> bool {
        self.root(i) == self.root(j)
    }

    /// Every element in its own set.
    pub fn new(size: usize) -> (uf: Self)
        ensures
            uf.wf(),
            uf.len() == size,
            forall|i: int| 0 <= i < size ==> #[trigger] uf.root(i) == i,
    {
        let mut parent: Vec<usize> = Vec::new();
        let mut rank: Vec<usize> = Vec::new();
        let mut i: usize = 0;
        while i < size
            invariant
                i <= size,
                parent@.len() == i,
                rank@.len() == i,
                forall|j: int| 0 <= j < i ==> #[trigger] parent@[j] == j,
                forall|j: int| 0 <= j < i ==> #[trigger] rank@[j] == 0,
                count_roots(parent@, i as int) == i,
            decreases size - i,
        {
            let ghost before = parent@;
            parent.push(i);
            rank.push(0);
            assert(count_roots(parent@, i as int) == count_roots(before, i as int)) by {
                lemma_count_roots_prefix(before, parent@, i as int);
            }
            assert(count_roots(parent@, i + 1) == count_roots(parent@, i as int) + 1);
            i = i + 1;
        }
        let uf = UnionFind { parent, rank, merges: Ghost(0) };
        assert forall|j: int| 0 <= j < size implies #[trigger] uf.root(j) == j by {
            assert(uf.parent@[j] == j);
        }
        uf
    }

    /// Find root with path compression
    pub fn find(&mut self, x: usize) -> (r: usize)
        requires
            old(self).wf(),
            x < old(self).len(),
        ensures
            final(self).wf(),
            final(self).len() == old(self).len(),
            r == old(self).root(x as int),
            forall|i: int| 0 <= i < old(self).len() ==> #[trigger] final(self).root(i) == old(self).root(i),
            final(self).same_roots_and_ranks(*old(self)),
        decreases old(self).rank_gap(x as int),
    {
        let p = self.parent[x];
        let ghost u0 = *self;
        let ghost s0 = self.parent@;
        if p != x {
            proof {
                assert(s0[x as int] != x);
                assert(p < s0.len());
                assert(root_of(s0, self.rank@, x as int) == root_of(s0, self.rank@, p as int));
            }
            let r = self.find(p);
            let ghost u1 = *self;
            let ghost s1 = self.parent@;
            proof {
                assert(u1.root(x as int) == u0.root(x as int));
                assert(u1.root(p as int) == u0.root(p as int));
                assert((s1[x as int] == x) == (s0[x as int] == x));
                lemma_root_is_root(s1, self.rank@, self.merges@, x as int);
                lemma_rank_below_root(s1, self.rank@, self.merges@, x as int);
            }
            self.parent.set(x, r);
            proof {
                let s2 = self.parent@;
                assert(s2 == s1.update(x as int, r));
                lemma_compress_preserves_roots(s1, s2, self.rank@, self.merges@, x as int);
                assert forall|i: int| 0 <= i < s1.len() implies (s1[i] == i) == (s2[i] == i) by {
                    if i == x {
                        assert(r != x);
                    }
                }
                lemma_count_roots_same(s1, s2, s1.len() as int);
                assert(uf_wf(s2, self.rank@, self.merges@));
                assert forall|i: int| 0 <= i < u0.len() implies #[trigger] self.root(i) == u0.root(i) by {
                    assert(u1.root(i) == u0.root(i));
                }
                assert forall|i: int| 0 <= i < u0.len() implies (#[trigger] self.parent@[i] == i)
                    == (u0.parent@[i] == i) by {
                    assert((s1[i] == i) == (s0[i] == i));
                }
            }
            r
        } else {
            proof {
                assert(root_of(s0, self.rank@, x as int) == x);
            }
            x
        }
    }

    /// Union by rank
    pub fn union(&mut self, x: usize, y: usize)
        requires
            old(self).wf(),
            x < old(self).len(),
            y < old(self).len(),
        ensures
            final(self).wf(),
            final(self).len() == old(self).len(),
            forall|i: int, j: int|
                0 <= i < old(self).len() && 0 <= j < old(self).len() ==> (
                #[trigger] final(self).connected(i, j) <==> (old(self).connected(i, j)
                    || (old(self).connected(i, x as int) && old(self).connected(j, y as int))
                    || (old(self).connected(i, y as int) && old(self).connected(j, x as int)))),
    {
        let ghost s0 = *self;
        let rx = self.find(x);
        let ghost s1 = *self;
        let ry = self.find(y);
        let ghost s2 = *self;
        proof {
            assert(rx == s2.root(x as int));
            assert(ry == s2.root(y as int));
            lemma_root_is_root(s2.parent@, s2.rank@, s2.merges@, x as int);
            lemma_root_is_root(s2.parent@, s2.rank@, s2.merges@, y as int);
            assert forall|i: int| 0 <= i < s0.len() implies #[trigger] s2.root(i) == s0.root(i) by {
                assert(s1.root(i) == s0.root(i));
            }
        }
        if rx != ry {
            proof {
                lemma_two_roots(s2.parent@, rx as int, ry as int);
            }
            if self.rank[rx] < self.rank[ry] {
                self.parent.set(rx, ry);
                proof {
                    self.merges = Ghost(self.merges@ + 1);
                    lemma_redirect_root(s2.parent@, self.parent@, s2.rank@, s2.merges@, rx as int, ry as int);
                }
            } else if self.rank[rx] > self.rank[ry] {
                self.parent.set(ry, rx);
                proof {
                    self.merges = Ghost(self.merges@ + 1);
                    lemma_redirect_root(s2.parent@, self.parent@, s2.rank@, s2.merges@, ry as int, rx as int);
                }
            } else {
                let n = self.parent.len();
                proof {
                    assert(s2.rank@[rx as int] <= s2.merges@);
                    assert(s2.merges@ + 2 <= n);
                }
                let new_rank = self.rank[rx] + 1;
                self.rank.set(rx, new_rank);
                let ghost r3 = self.rank@;
                proof {
                    lemma_rank_raise_keeps_roots(s2.parent@, s2.rank@, r3, s2.merges@, rx as int);
                    assert forall|i: int| 0 <= i < r3.len() implies #[trigger] r3[i] <= s2.merges@ + 1 by {
                        assert(s2.rank@[i] <= s2.merges@);
                    }
                    assert forall|i: int| 0 <= i < s2.parent@.len() implies #[trigger] root_of(
                        s2.parent@,
                        r3,
                        i,
                    ) == s2.root(i) by {}
                }
                self.parent.set(ry, rx);
                proof {
                    self.merges = Ghost(self.merges@ + 1);
                    lemma_redirect_root(s2.parent@, self.parent@, r3, s2.merges@, ry as int, rx as int);
                }
            }
        }
        proof {
            assert forall|i: int, j: int|
                0 <= i < s0.len() && 0 <= j < s0.len() implies (#[trigger] self.connected(i, j)
                <==> (s0.connected(i, j) || (s0.connected(i, x as int) && s0.connected(
                j,
                y as int,
            )) || (s0.connected(i, y as int) && s0.connected(j, x as int)))) by {
                assert(s2.root(i) == s0.root(i));
                assert(s2.root(j) == s0.root(j));
                assert(s2.root(x as int) == s0.root(x as int));
                assert(s2.root(y as int) == s0.root(y as int));
            }
        }
    }
}

/// The root reached from any index is a root, and lies in range.
proof fn lemma_root_is_root(parent: Seq<usize>, rank: Seq<usize>, merges: nat, i: int)
    requires
        uf_shape(parent, rank),
        0 <= i < parent.len(),
    ensures
        0 <= root_of(parent, rank, i) < parent.len(),
        parent[root_of(parent, rank, i)] == root_of(parent, rank, i),
    decreases (usize::MAX as int) - rank[i],
{
    if parent[i] != i {
        assert(parent[i] < parent.len());
        lemma_root_is_root(parent, rank, merges, parent[i] as int);
    }
}

/// A non-root has a smaller rank than its root.
proof fn lemma_rank_below_root(parent: Seq<usize>, rank: Seq<usize>, merges: nat, i: int)
    requires
        uf_shape(parent, rank),
        0 <= i < parent.len(),
    ensures
        parent[i] != i ==> rank[i] < rank[root_of(parent, rank, i)],
    decreases (usize::MAX as int) - rank[i],
{
    if parent[i] != i {
        let p = parent[i] as int;
        assert(p < parent.len());
        assert(rank[i] < rank[p]);
        assert(root_of(parent, rank, i) == root_of(parent, rank, p));
        lemma_rank_below_root(parent, rank, merges, p);
        if parent[p] == p {
            assert(root_of(parent, rank, p) == p);
        }
    }
}

/// Pointing `x` straight at its root changes no element's root.
proof fn lemma_compress_preserves_roots(
    s1: Seq<usize>,
    s2: Seq<usize>,
    rank: Seq<usize>,
    merges: nat,
    x: int,
)
    requires
        uf_shape(s1, rank),
        0 <= x < s1.len(),
        s1[x] != x,
        s2 == s1.update(x, root_of(s1, rank, x) as usize),
        rank[x] < rank[root_of(s1, rank, x)],
        s1[root_of(s1, rank, x)] == root_of(s1, rank, x),
        0 <= root_of(s1, rank, x) < s1.len(),
    ensures
        forall|i: int| 0 <= i < s1.len() ==> #[trigger] root_of(s2, rank, i) == root_of(s1, rank, i),
{
    assert forall|i: int| 0 <= i < s1.len() implies #[trigger] root_of(s2, rank, i) == root_of(
        s1,
        rank,
        i,
    ) by {
        lemma_compress_one(s1, s2, rank, merges, x, i);
    }
}

proof fn lemma_compress_one(
    s1: Seq<usize>,
    s2: Seq<usize>,
    rank: Seq<usize>,
    merges: nat,
    x: int,
    i: int,
)
    requires
        uf_shape(s1, rank),
        0 <= x < s1.len(),
        s1[x] != x,
        s2 == s1.update(x, root_of(s1, rank, x) as usize),
        rank[x] < rank[root_of(s1, rank, x)],
        s1[root_of(s1, rank, x)] == root_of(s1, rank, x),
        0 <= root_of(s1, rank, x) < s1.len(),
        0 <= i < s1.len(),
    ensures
        root_of(s2, rank, i) == root_of(s1, rank, i),
    decreases (usize::MAX as int) - rank[i],
{
    let r = root_of(s1, rank, x);
    if i == x {
        assert(s2[r] == r);
        assert(root_of(s2, rank, r) == r);
    } else if s1[i] != i {
        assert(s1[i] < s1.len());
        lemma_compress_one(s1, s2, rank, merges, x, s1[i] as int);
    }
}

/// Making root `a` a child of root `b` sends every element of `a`'s set to `b`.
proof fn lemma_redirect_root(
    s2: Seq<usize>,
    s3: Seq<usize>,
    rank: Seq<usize>,
    merges: nat,
    a: int,
    b: int,
)
    requires
        uf_shape(s2, rank),
        forall|i: int| 0 <= i < rank.len() ==> #[trigger] rank[i] <= merges + 1,
        count_roots(s2, s2.len() as int) + merges == s2.len(),
        0 <= a < s2.len(),
        0 <= b < s2.len(),
        a != b,
        s2[a] == a,
        s2[b] == b,
        rank[a] < rank[b],
        s3 == s2.update(a, b as usize),
        count_roots(s2, s2.len() as int) >= 2,
    ensures
        uf_wf(s3, rank, merges + 1),
        forall|i: int|
            0 <= i < s2.len() ==> #[trigger] root_of(s3, rank, i) == if root_of(s2, rank, i) == a {
                b
            } else {
                root_of(s2, rank, i)
            },
{
    assert forall|i: int| 0 <= i < s2.len() implies #[trigger] root_of(s3, rank, i) == if root_of(
        s2,
        rank,
        i,
    ) == a {
        b
    } else {
        root_of(s2, rank, i)
    } by {
        lemma_redirect_one(s2, s3, rank, merges, a, b, i);
    }
    lemma_count_roots_drop(s2, s3, a, s2.len() as int);
    assert forall|i: int| 0 <= i < rank.len() implies #[trigger] rank[i] <= merges + 1 by {}
}

proof fn lemma_redirect_one(
    s2: Seq<usize>,
    s3: Seq<usize>,
    rank: Seq<usize>,
    merges: nat,
    a: int,
    b: int,
    i: int,
)
    requires
        uf_shape(s2, rank),
        0 <= a < s2.len(),
        0 <= b < s2.len(),
        a != b,
        s2[a] == a,
        s2[b] == b,
        rank[a] < rank[b],
        s3 == s2.update(a, b as usize),
        0 <= i < s2.len(),
    ensures
        root_of(s3, rank, i) == if root_of(s2, rank, i) == a {
            b
        } else {
            root_of(s2, rank, i)
        },
    decreases (usize::MAX as int) - rank[i],
{
    if i == a {
        assert(root_of(s3, rank, b) == b);
    } else if s2[i] != i {
        assert(s2[i] < s2.len());
        lemma_redirect_one(s2, s3, rank, merges, a, b, s2[i] as int);
    }
}

/// Raising the rank of a root keeps every element's root.
proof fn lemma_rank_raise_keeps_roots(
    parent: Seq<usize>,
    r2: Seq<usize>,
    r3: Seq<usize>,
    merges: nat,
    a: int,
)
    requires
        uf_shape(parent, r2),
        0 <= a < parent.len(),
        parent[a] == a,
        r3 == r2.update(a, (r2[a] + 1) as usize),
        r2[a] + 1 <= usize::MAX,
    ensures
        forall|i: int| 0 <= i < parent.len() ==> #[trigger] root_of(parent, r3, i) == root_of(parent, r2, i),
        forall|i: int|
            0 <= i < parent.len() && #[trigger] parent[i] != i ==> r3[i] < r3[parent[i] as int],
{
    assert forall|i: int| 0 <= i < parent.len() implies #[trigger] root_of(parent, r3, i) == root_of(
        parent,
        r2,
        i,
    ) by {
        lemma_rank_raise_one(parent, r2, r3, merges, a, i);
    }
}

proof fn lemma_rank_raise_one(
    parent: Seq<usize>,
    r2: Seq<usize>,
    r3: Seq<usize>,
    merges: nat,
    a: int,
    i: int,
)
    requires
        uf_shape(parent, r2),
        0 <= a < parent.len(),
        parent[a] == a,
        r3 == r2.update(a, (r2[a] + 1) as usize),
        r2[a] + 1 <= usize::MAX,
        0 <= i < parent.len(),
    ensures
        root_of(parent, r3, i) == root_of(parent, r2, i),
    decreases (usize::MAX as int) - r2[i],
{
    if parent[i] != i {
        let p = parent[i] as int;
        assert(p < parent.len());
        assert(i != a);
        assert(r3[i] == r2[i]);
        assert(r2[i] < r2[p]);
        assert(r3[p] >= r2[p]);
        assert(root_of(parent, r3, i) == root_of(parent, r3, p));
        assert(root_of(parent, r2, i) == root_of(parent, r2, p));
        lemma_rank_raise_one(parent, r2, r3, merges, a, p);
    }
}

/// Counting roots over a prefix only looks at that prefix.
proof fn lemma_count_roots_prefix(p: Seq<usize>, q: Seq<usize>, k: int)
    requires
        0 <= k <= p.len(),
        k <= q.len(),
        forall|i: int| 0 <= i < k ==> p[i] == q[i],
    ensures
        count_roots(p, k) == count_roots(q, k),
    decreases k,
{
    if k > 0 {
        lemma_count_roots_prefix(p, q, k - 1);
    }
}

/// Two sequences with the same roots have the same root count.
proof fn lemma_count_roots_same(p: Seq<usize>, q: Seq<usize>, k: int)
    requires
        0 <= k <= p.len(),
        k <= q.len(),
        forall|i: int| 0 <= i < k ==> (p[i] == i) == (q[i] == i),
    ensures
        count_roots(p, k) == count_roots(q, k),
    decreases k,
{
    if k > 0 {
        lemma_count_roots_same(p, q, k - 1);
    }
}

/// Counting roots is monotone in the prefix length.
proof fn lemma_count_roots_mono(p: Seq<usize>, j: int, k: int)
    requires
        0 <= j <= k,
    ensures
        count_roots(p, j) <= count_roots(p, k),
    decreases k,
{
    if j < k {
        lemma_count_roots_mono(p, j, k - 1);
    }
}

/// Two distinct roots make at least two roots.
proof fn lemma_two_roots(p: Seq<usize>, a: int, b: int)
    requires
        0 <= a < p.len(),
        0 <= b < p.len(),
        a != b,
        p[a] == a,
        p[b] == b,
    ensures
        count_roots(p, p.len() as int) >= 2,
{
    let (lo, hi) = if a < b {
        (a, b)
    } else {
        (b, a)
    };
    lemma_count_roots_mono(p, 0, lo);
    lemma_count_roots_mono(p, lo + 1, hi);
    lemma_count_roots_mono(p, hi + 1, p.len() as int);
}

/// Turning one root into a non-root lowers the root count by one.
proof fn lemma_count_roots_drop(p: Seq<usize>, q: Seq<usize>, a: int, k: int)
    requires
        0 <= a < p.len(),
        p.len() == q.len(),
        0 <= k <= p.len(),
        p[a] == a,
        q[a] != a,
        forall|i: int| 0 <= i < p.len() && i != a ==> p[i] == q[i],
    ensures
        count_roots(q, k) == count_roots(p, k) - if a < k {
            1int
        } else {
            0int
        },
    decreases k,
{
    if k > 0 {
        lemma_count_roots_drop(p, q, a, k - 1);
    }
}

} // verus!
