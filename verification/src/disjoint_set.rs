//! Fixed-size disjoint-set (union-find) structure used to cluster cropped
//! textures. Unions can never be divided again.
//!
//! Each element stores a parent index; an element whose parent is itself is
//! the root (canonical representative) of its set. `unite` always hangs the
//! larger root below the smaller one, so parent pointers only ever point
//! downwards. That ordering makes every parent chain strictly decreasing,
//! which gives termination of root lookup for free.

use vstd::prelude::*;

verus! {

/// Parent pointers never point upwards: this is what makes every chain of
/// parents terminate.
pub open spec fn parents_wf(p: Seq<usize>) -> bool {
    forall|i: int| 0 <= i < p.len() ==> #[trigger] p[i] <= i
}

/// The canonical representative of `x`: follow parent pointers to the fixed
/// point.
pub open spec fn root_of(p: Seq<usize>, x: int) -> int
    recommends
        parents_wf(p),
        0 <= x < p.len(),
    decreases x,
        when 0 <= x < p.len() && parents_wf(p)
{
    if p[x] == x {
        x
    } else {
        root_of(p, p[x] as int)
    }
}

/// A root's parent is itself, and a representative never exceeds its element.
pub proof fn lemma_root_of_props(p: Seq<usize>, x: int)
    requires
        parents_wf(p),
        0 <= x < p.len(),
    ensures
        0 <= root_of(p, x) <= x,
        p[root_of(p, x)] == root_of(p, x),
    decreases x,
{
    if p[x] != x {
        lemma_root_of_props(p, p[x] as int);
    }
}

/// Re-pointing the root `r` to a smaller root `w` moves exactly the elements
/// of `r`'s set into `w`'s set and leaves every other set untouched.
pub proof fn lemma_root_of_after_link(p: Seq<usize>, r: int, w: int, x: int)
    requires
        parents_wf(p),
        0 <= x < p.len(),
        0 <= w <= r < p.len(),
        p[r] == r,
        p[w] == w,
        parents_wf(p.update(r, w as usize)),
    ensures
        root_of(p.update(r, w as usize), x) == if root_of(p, x) == r {
            w as int
        } else {
            root_of(p, x)
        },
    decreases x,
{
    let q = p.update(r, w as usize);
    if x == r {
        assert(root_of(p, x) == r);
        if w == r {
            assert(root_of(q, x) == r);
        } else {
            assert(root_of(q, x) == root_of(q, w));
            assert(root_of(q, w) == w);
        }
    } else {
        if p[x] == x {
            assert(root_of(p, x) == x);
            assert(root_of(q, x) == x);
        } else {
            lemma_root_of_after_link(p, r, w, p[x] as int);
            assert(root_of(p, x) == root_of(p, p[x] as int));
            assert(q[x] == p[x]);
            assert(root_of(q, x) == root_of(q, p[x] as int));
        }
    }
}

/// Fixed-size disjoint-set over the indices `0 .. n`.
pub struct DisjointSet {
    parent: Vec<usize>,
}

impl View for DisjointSet {
    type V = Seq<usize>;

    closed spec fn view(&self) -> Seq<usize> {
        self.parent@
    }
}

impl DisjointSet {
    pub open spec fn wf(&self) -> bool {
        parents_wf(self@)
    }

    pub open spec fn spec_len(&self) -> nat {
        self@.len()
    }

    /// Representative of `x` in the abstract state.
    pub open spec fn rep(&self, x: int) -> int {
        root_of(self@, x)
    }

    /// `n` singleton sets: every element is its own root.
    pub fn new(num_elements: usize) -> (ds: Self)
        ensures
            ds.wf(),
            ds.spec_len() == num_elements,
            forall|i: int| 0 <= i < num_elements ==> ds.rep(i) == i,
    {
        let mut parent: Vec<usize> = Vec::new();
        let mut i: usize = 0;
        while i < num_elements
            invariant
                i <= num_elements,
                parent@.len() == i,
                forall|j: int| 0 <= j < i ==> parent@[j] == j,
            decreases num_elements - i,
        {
            parent.push(i);
            i = i + 1;
        }
        let ds = DisjointSet { parent };
        assert forall|k: int| 0 <= k < num_elements implies ds.rep(k) == k by {
            assert(ds@[k] == k);
        }
        ds
    }

    /// Canonical representative: follows parent pointers to a fixed point,
    /// iteratively so that long chains cannot grow the stack.
    pub fn root(&self, x: usize) -> (r: usize)
        requires
            self.wf(),
            x < self.spec_len(),
        ensures
            r == self.rep(x as int),
            r <= x,
    {
        proof {
            lemma_root_of_props(self@, x as int);
        }
        let mut cur = x;
        loop
            invariant
                self.wf(),
                cur < self.spec_len(),
                cur <= x,
                root_of(self@, cur as int) == root_of(self@, x as int),
            decreases cur,
        {
            let p = self.parent[cur];
            if p == cur {
                proof {
                    lemma_root_of_props(self@, cur as int);
                }
                return cur;
            }
            cur = p;
        }
    }

    /// Merges the sets of `x` and `y` by hanging the larger root below the
    /// smaller one. Exactly the two old sets collapse into one; every other
    /// set keeps its representative.
    pub fn unite(&mut self, x: usize, y: usize)
        requires
            old(self).wf(),
            x < old(self).spec_len(),
            y < old(self).spec_len(),
        ensures
            final(self).wf(),
            final(self).spec_len() == old(self).spec_len(),
            forall|i: int|
                0 <= i < old(self).spec_len() ==> final(self).rep(i) == (
                if old(self).rep(i) == old(self).rep(x as int) || old(self).rep(i) == old(
                    self,
                ).rep(y as int) {
                    vstd::math::min(old(self).rep(x as int), old(self).rep(y as int))
                } else {
                    old(self).rep(i)
                }),
    {
        let root_x = self.root(x);
        let root_y = self.root(y);
        proof {
            lemma_root_of_props(self@, x as int);
            lemma_root_of_props(self@, y as int);
        }
        let ghost p0 = self@;
        let (hi, lo) = if root_x <= root_y {
            (root_y, root_x)
        } else {
            (root_x, root_y)
        };
        self.parent.set(hi, lo);
        proof {
            assert(self@ == p0.update(hi as int, lo));
            assert forall|i: int| 0 <= i < p0.len() implies #[trigger] self@[i] <= i by {
                if i != hi {
                    assert(self@[i] == p0[i]);
                }
            }
            assert forall|i: int| 0 <= i < p0.len() implies final(self).rep(i) == (
            if root_of(p0, i) == root_of(p0, x as int) || root_of(p0, i) == root_of(
                p0,
                y as int,
            ) {
                vstd::math::min(root_of(p0, x as int), root_of(p0, y as int))
            } else {
                root_of(p0, i)
            }) by {
                lemma_root_of_after_link(p0, hi as int, lo as int, i);
            }
        }
    }

    /// Set-membership equality: do `x` and `y` share a representative?
    pub fn is_same(&self, x: usize, y: usize) -> (r: bool)
        requires
            self.wf(),
            x < self.spec_len(),
            y < self.spec_len(),
        ensures
            r == (self.rep(x as int) == self.rep(y as int)),
    {
        self.root(x) == self.root(y)
    }

    /// Path compression: repoints every element directly at its root, once
    /// all unions are done. Representatives do not change.
    pub fn compress(&mut self)
        requires
            old(self).wf(),
        ensures
            final(self).wf(),
            final(self).spec_len() == old(self).spec_len(),
            forall|i: int|
                0 <= i < old(self).spec_len() ==> final(self).rep(i) == old(self).rep(i),
            forall|i: int|
                0 <= i < final(self).spec_len() ==> final(self)@[i] == final(self).rep(i),
    {
        let ghost p0 = self@;
        let n = self.parent.len();
        let mut i: usize = 0;
        while i < n
            invariant
                self.wf(),
                self.spec_len() == n,
                p0.len() == n,
                parents_wf(p0),
                i <= n,
                forall|j: int| 0 <= j < n ==> self.rep(j) == root_of(p0, j),
                forall|j: int| 0 <= j < i ==> self@[j] == root_of(p0, j),
            decreases n - i,
        {
            let r = self.root(i);
            let ghost pq = self@;
            self.parent.set(i, r);
            proof {
                lemma_root_of_props(pq, i as int);
                assert(self@ == pq.update(i as int, r));
                assert forall|j: int| 0 <= j < n implies #[trigger] self@[j] <= j by {
                    if j != i {
                        assert(self@[j] == pq[j]);
                    }
                }
                assert forall|j: int| 0 <= j < n implies self.rep(j) == root_of(p0, j) by {
                    lemma_root_of_repoint(pq, i as int, j);
                }
                assert(self@[i as int] == root_of(p0, i as int));
            }
            i = i + 1;
        }
        assert forall|j: int| 0 <= j < n implies self@[j] == self.rep(j) by {
            assert(self@[j] == root_of(p0, j));
            assert(self.rep(j) == root_of(p0, j));
        }
    }
}

/// Re-pointing `x` directly at its own root leaves every representative
/// unchanged.
pub proof fn lemma_root_of_repoint(p: Seq<usize>, x: int, j: int)
    requires
        parents_wf(p),
        0 <= x < p.len(),
        0 <= j < p.len(),
        parents_wf(p.update(x, root_of(p, x) as usize)),
    ensures
        root_of(p.update(x, root_of(p, x) as usize), j) == root_of(p, j),
    decreases j,
{
    let r = root_of(p, x);
    lemma_root_of_props(p, x);
    let q = p.update(x, r as usize);
    if j == x {
        if p[x] == x {
            assert(q == p);
        } else {
            assert(q[j] == r);
            if r == x {
                assert(root_of(q, j) == x);
            } else {
                lemma_root_of_repoint_below(p, x, r);
                assert(root_of(q, j) == root_of(q, r));
            }
        }
    } else {
        if p[j] == j {
            assert(root_of(q, j) == j);
        } else {
            lemma_root_of_repoint(p, x, p[j] as int);
            assert(q[j] == p[j]);
        }
    }
}

/// Helper: below the re-pointed element nothing changed, so roots computed
/// entirely below it are untouched.
proof fn lemma_root_of_repoint_below(p: Seq<usize>, x: int, j: int)
    requires
        parents_wf(p),
        0 <= x < p.len(),
        0 <= j < x,
        parents_wf(p.update(x, root_of(p, x) as usize)),
    ensures
        root_of(p.update(x, root_of(p, x) as usize), j) == root_of(p, j),
    decreases j,
{
    let q = p.update(x, root_of(p, x) as usize);
    assert(q[j] == p[j]);
    if p[j] != j {
        lemma_root_of_repoint_below(p, x, p[j] as int);
    }
}

} // verus!
