//! Clustering of overlapping texture fragments.
//!
//! Fragments whose pixel boxes transitively overlap within one source image
//! are grouped into clusters through the disjoint-set structure. Each cluster
//! carries a toplevel region — the minimal box covering every member — and,
//! per member, the member's offset within that region.

use vstd::prelude::*;

use crate::disjoint_set::DisjointSet;
use crate::texture::{ChildTexture, CroppedTexture, ToplevelTexture};

verus! {

/// A maximal group of fragments from one source image whose pixel boxes
/// transitively overlap. `children` records each member as its dense index
/// among the packer's textures together with its offset and size within the
/// toplevel region.
pub struct Cluster {
    /// Stable key of the cluster: the disjoint-set representative of its
    /// members.
    pub cluster_id: usize,
    pub toplevel_texture: ToplevelTexture,
    pub children: Vec<(usize, ChildTexture)>,
}

pub open spec fn all_wf(ts: Seq<CroppedTexture>) -> bool {
    forall|i: int| 0 <= i < ts.len() ==> (#[trigger] ts[i]).wf()
}

/// The offset and size a member texture gets within a toplevel region.
pub open spec fn child_of(top: ToplevelTexture, t: CroppedTexture) -> ChildTexture {
    ChildTexture {
        offset: ((t.origin.0 - top.origin.0) as u32, (t.origin.1 - top.origin.1) as u32),
        width: t.width,
        height: t.height,
    }
}

/// One cluster is sound for the texture list `ts`: members are in range and
/// listed in strictly increasing order, the toplevel region contains every
/// member's box within the member's own source image, each child record is
/// the member's offset, and the toplevel box is minimal — each of its four
/// sides is attained by some member.
pub open spec fn cluster_wf(ts: Seq<CroppedTexture>, c: Cluster) -> bool {
    &&& c.toplevel_texture.wf()
    &&& c.children@.len() >= 1
    &&& forall|k: int| 0 <= k < c.children@.len() ==> (#[trigger] c.children@[k]).0 < ts.len()
    &&& forall|k1: int, k2: int|
        0 <= k1 < k2 < c.children@.len() ==> (#[trigger] c.children@[k1]).0 < (
        #[trigger] c.children@[k2]).0
    &&& forall|k: int|
        0 <= k < c.children@.len() ==> c.toplevel_texture.spec_contains(
            &ts[(#[trigger] c.children@[k]).0 as int],
        )
    &&& forall|k: int|
        0 <= k < c.children@.len() ==> (#[trigger] c.children@[k]).1 == child_of(
            c.toplevel_texture,
            ts[c.children@[k].0 as int],
        )
    &&& exists|k: int|
        0 <= k < c.children@.len() && ts[(#[trigger] c.children@[k]).0 as int].origin.0
            == c.toplevel_texture.origin.0
    &&& exists|k: int|
        0 <= k < c.children@.len() && ts[(#[trigger] c.children@[k]).0 as int].origin.1
            == c.toplevel_texture.origin.1
    &&& exists|k: int|
        0 <= k < c.children@.len() && ts[(#[trigger] c.children@[k]).0 as int].origin.0 + ts[
            c.children@[k].0 as int
        ].width == c.toplevel_texture.origin.0 + c.toplevel_texture.width
    &&& exists|k: int|
        0 <= k < c.children@.len() && ts[(#[trigger] c.children@[k]).0 as int].origin.1 + ts[
            c.children@[k].0 as int
        ].height == c.toplevel_texture.origin.1 + c.toplevel_texture.height
}

/// Texture index `i` belongs to some cluster.
pub open spec fn assigned(cs: Seq<Cluster>, i: int) -> bool {
    exists|c: int, k: int|
        0 <= c < cs.len() && 0 <= k < cs[c].children@.len() && (#[trigger] cs[c].children@[k]).0
            == i
}

/// No texture index is listed twice, within or across clusters.
pub open spec fn members_unique(cs: Seq<Cluster>) -> bool {
    forall|c1: int, k1: int, c2: int, k2: int|
        0 <= c1 < cs.len() && 0 <= k1 < cs[c1].children@.len() && 0 <= c2 < cs.len() && 0 <= k2
            < cs[c2].children@.len() && (#[trigger] cs[c1].children@[k1]).0 == (
        #[trigger] cs[c2].children@[k2]).0 ==> c1 == c2 && k1 == k2
}

/// Two directly overlapping textures always land in the same cluster; with
/// `members_unique` this makes clustering transitive.
pub open spec fn overlap_joined(ts: Seq<CroppedTexture>, cs: Seq<Cluster>) -> bool {
    forall|c1: int, k1: int, c2: int, k2: int|
        0 <= c1 < cs.len() && 0 <= k1 < cs[c1].children@.len() && 0 <= c2 < cs.len() && 0 <= k2
            < cs[c2].children@.len() && ts[(#[trigger] cs[c1].children@[k1]).0 as int].spec_overlaps(
            &ts[(#[trigger] cs[c2].children@[k2]).0 as int],
        ) ==> c1 == c2
}

/// Members of one cluster all share one source image path.
pub open spec fn clusters_share_source(ts: Seq<CroppedTexture>, cs: Seq<Cluster>) -> bool {
    forall|c: int, k1: int, k2: int|
        0 <= c < cs.len() && 0 <= k1 < cs[c].children@.len() && 0 <= k2 < cs[c].children@.len()
            ==> ts[(#[trigger] cs[c].children@[k1]).0 as int].image_path@ == ts[(
        #[trigger] cs[c].children@[k2]).0 as int].image_path@
}

/// A chain of at most `steps` direct overlaps leads from texture `i` to
/// texture `j`.
pub open spec fn overlap_linked(ts: Seq<CroppedTexture>, i: int, j: int, steps: nat) -> bool
    decreases steps,
{
    i == j || (steps > 0 && exists|m: int|
        0 <= m < ts.len() && #[trigger] ts[i].spec_overlaps(&ts[m]) && overlap_linked(
            ts,
            m,
            j,
            (steps - 1) as nat,
        ))
}

/// Textures `i` and `j` are related by the reflexive-transitive closure of
/// the direct-overlap relation.
pub open spec fn overlap_connected(ts: Seq<CroppedTexture>, i: int, j: int) -> bool {
    exists|steps: nat| overlap_linked(ts, i, j, steps)
}

/// A chain stays a chain when allowed more steps.
proof fn lemma_linked_mono(ts: Seq<CroppedTexture>, i: int, j: int, s1: nat, s2: nat)
    requires
        overlap_linked(ts, i, j, s1),
        s1 <= s2,
    ensures
        overlap_linked(ts, i, j, s2),
    decreases s1,
{
    if i != j {
        let m = choose|m: int|
            0 <= m < ts.len() && #[trigger] ts[i].spec_overlaps(&ts[m]) && overlap_linked(
                ts,
                m,
                j,
                (s1 - 1) as nat,
            );
        lemma_linked_mono(ts, m, j, (s1 - 1) as nat, (s2 - 1) as nat);
        assert(ts[i].spec_overlaps(&ts[m]) && overlap_linked(ts, m, j, (s2 - 1) as nat));
    }
}

/// Chains concatenate.
proof fn lemma_linked_trans(ts: Seq<CroppedTexture>, i: int, j: int, k: int, s1: nat, s2: nat)
    requires
        overlap_linked(ts, i, j, s1),
        overlap_linked(ts, j, k, s2),
    ensures
        overlap_linked(ts, i, k, (s1 + s2) as nat),
    decreases s1,
{
    if i == j {
        lemma_linked_mono(ts, j, k, s2, (s1 + s2) as nat);
    } else {
        let m = choose|m: int|
            0 <= m < ts.len() && #[trigger] ts[i].spec_overlaps(&ts[m]) && overlap_linked(
                ts,
                m,
                j,
                (s1 - 1) as nat,
            );
        lemma_linked_trans(ts, m, j, k, (s1 - 1) as nat, s2);
        assert(ts[i].spec_overlaps(&ts[m]) && overlap_linked(ts, m, k, (s1 + s2 - 1) as nat));
    }
}

/// Chains reverse, edge by edge, since direct overlap is symmetric.
proof fn lemma_linked_sym(ts: Seq<CroppedTexture>, i: int, j: int, s: nat)
    requires
        overlap_linked(ts, i, j, s),
        0 <= i < ts.len(),
        0 <= j < ts.len(),
    ensures
        overlap_linked(ts, j, i, s),
    decreases s,
{
    if i != j {
        let m = choose|m: int|
            0 <= m < ts.len() && #[trigger] ts[i].spec_overlaps(&ts[m]) && overlap_linked(
                ts,
                m,
                j,
                (s - 1) as nat,
            );
        lemma_linked_sym(ts, m, j, (s - 1) as nat);
        assert(ts[m].spec_overlaps(&ts[i]));
        assert(overlap_linked(ts, i, i, 0));
        assert(overlap_linked(ts, m, i, 1));
        lemma_linked_trans(ts, j, m, i, (s - 1) as nat, 1);
    }
}

/// Connectivity is transitive.
pub proof fn lemma_connected_trans(ts: Seq<CroppedTexture>, i: int, j: int, k: int)
    requires
        overlap_connected(ts, i, j),
        overlap_connected(ts, j, k),
    ensures
        overlap_connected(ts, i, k),
{
    let s1 = choose|s: nat| overlap_linked(ts, i, j, s);
    let s2 = choose|s: nat| overlap_linked(ts, j, k, s);
    lemma_linked_trans(ts, i, j, k, s1, s2);
}

/// Connectivity is symmetric.
pub proof fn lemma_connected_sym(ts: Seq<CroppedTexture>, i: int, j: int)
    requires
        overlap_connected(ts, i, j),
        0 <= i < ts.len(),
        0 <= j < ts.len(),
    ensures
        overlap_connected(ts, j, i),
{
    let s = choose|s: nat| overlap_linked(ts, i, j, s);
    lemma_linked_sym(ts, i, j, s);
}

/// Members of one cluster are always linked by a chain of direct overlaps:
/// no cluster merges fragments that the overlap relation does not join, so a
/// fragment overlapping no other fragment sits in a singleton cluster.
pub open spec fn clusters_connected(ts: Seq<CroppedTexture>, cs: Seq<Cluster>) -> bool {
    forall|c: int, k1: int, k2: int|
        0 <= c < cs.len() && 0 <= k1 < cs[c].children@.len() && 0 <= k2 < cs[c].children@.len()
            ==> overlap_connected(
            ts,
            (#[trigger] cs[c].children@[k1]).0 as int,
            (#[trigger] cs[c].children@[k2]).0 as int,
        )
}

/// Everything the clusterer guarantees for its result, in one predicate:
/// sound clusters, a partition of the texture indices, directly overlapping
/// textures joined, members of one cluster pairwise chain-connected and from
/// one source image.
pub open spec fn clustering_of(ts: Seq<CroppedTexture>, cs: Seq<Cluster>) -> bool {
    &&& forall|c: int| 0 <= c < cs.len() ==> cluster_wf(ts, #[trigger] cs[c])
    &&& forall|i: int| 0 <= i < ts.len() ==> assigned(cs, i)
    &&& members_unique(cs)
    &&& overlap_joined(ts, cs)
    &&& clusters_share_source(ts, cs)
    &&& clusters_connected(ts, cs)
}


/// Clustering is transitive: when fragment `a` directly overlaps `b` and `b`
/// directly overlaps `c`, all three end in one cluster, whether or not `a`
/// and `c` overlap directly. `(ca, ka)`, `(cb, kb)` and `(cc, kc)` are the
/// cluster and child positions of the three fragments.
pub proof fn lemma_clustering_transitive(
    ts: Seq<CroppedTexture>,
    cs: Seq<Cluster>,
    ca: int,
    ka: int,
    cb: int,
    kb: int,
    cc: int,
    kc: int,
)
    requires
        overlap_joined(ts, cs),
        members_unique(cs),
        0 <= ca < cs.len() && 0 <= ka < cs[ca].children@.len(),
        0 <= cb < cs.len() && 0 <= kb < cs[cb].children@.len(),
        0 <= cc < cs.len() && 0 <= kc < cs[cc].children@.len(),
        ts[cs[ca].children@[ka].0 as int].spec_overlaps(&ts[cs[cb].children@[kb].0 as int]),
        ts[cs[cb].children@[kb].0 as int].spec_overlaps(&ts[cs[cc].children@[kc].0 as int]),
    ensures
        ca == cb && cb == cc,
{
}

/// Builds the disjoint-set over `0 .. textures.len()` by uniting every
/// directly overlapping pair. Afterwards overlapping textures share a
/// representative, and textures sharing a representative share a source
/// image path.
fn build_disjoint_set(textures: &Vec<CroppedTexture>) -> (ds: DisjointSet)
    requires
        all_wf(textures@),
    ensures
        ds.wf(),
        ds.spec_len() == textures@.len(),
        forall|a: int| 0 <= a < textures@.len() ==> 0 <= #[trigger] ds.rep(a) < textures@.len(),
        forall|a: int, b: int|
            0 <= a < textures@.len() && 0 <= b < textures@.len() && textures@[a].spec_overlaps(
                &textures@[b],
            ) ==> ds.rep(a) == ds.rep(b),
        forall|a: int, b: int|
            0 <= a < textures@.len() && 0 <= b < textures@.len() && ds.rep(a) == ds.rep(b)
                ==> textures@[a].image_path@ == textures@[b].image_path@,
        forall|a: int, b: int|
            0 <= a < textures@.len() && 0 <= b < textures@.len() && ds.rep(a) == ds.rep(b)
                ==> overlap_connected(textures@, a, b),
{
    let n = textures.len();
    let mut ds = DisjointSet::new(n);
    assert forall|a: int, b: int|
        0 <= a < n && 0 <= b < n && ds.rep(a) == ds.rep(b) implies overlap_connected(
        textures@,
        a,
        b,
    ) by {
        assert(overlap_linked(textures@, a, b, 0));
    }
    assert forall|a: int| 0 <= a < n implies 0 <= #[trigger] ds.rep(a) < n by {
        crate::disjoint_set::lemma_root_of_props(ds@, a);
    }
    let mut i: usize = 0;
    while i < n
        invariant
            all_wf(textures@),
            n == textures@.len(),
            ds.wf(),
            ds.spec_len() == n,
            i <= n,
            forall|a: int| 0 <= a < n ==> 0 <= #[trigger] ds.rep(a) < n,
            forall|a: int, b: int|
                0 <= a < b < n && a < i && textures@[a].spec_overlaps(&textures@[b]) ==> ds.rep(a)
                    == ds.rep(b),
            forall|a: int, b: int|
                0 <= a < n && 0 <= b < n && ds.rep(a) == ds.rep(b) ==> textures@[a].image_path@
                    == textures@[b].image_path@,
            forall|a: int, b: int|
                0 <= a < n && 0 <= b < n && ds.rep(a) == ds.rep(b) ==> overlap_connected(
                    textures@,
                    a,
                    b,
                ),
        decreases n - i,
    {
        let mut j: usize = i + 1;
        while j < n
            invariant
                all_wf(textures@),
                n == textures@.len(),
                ds.wf(),
                ds.spec_len() == n,
                i < n,
                i < j <= n,
                forall|a: int| 0 <= a < n ==> 0 <= #[trigger] ds.rep(a) < n,
                forall|a: int, b: int|
                    0 <= a < b < n && (a < i || (a == i && b < j)) && textures@[a].spec_overlaps(
                        &textures@[b],
                    ) ==> ds.rep(a) == ds.rep(b),
                forall|a: int, b: int|
                    0 <= a < n && 0 <= b < n && ds.rep(a) == ds.rep(b) ==> textures@[a].image_path@
                        == textures@[b].image_path@,
                forall|a: int, b: int|
                    0 <= a < n && 0 <= b < n && ds.rep(a) == ds.rep(b) ==> overlap_connected(
                        textures@,
                        a,
                        b,
                    ),
            decreases n - j,
        {
            if textures[i].overlaps(&textures[j]) {
                let ghost ds0 = ds;
                ds.unite(i, j);
                proof {
                    assert forall|a: int| 0 <= a < n implies 0 <= #[trigger] ds.rep(a) < n by {
                        assert(0 <= ds0.rep(a) < n);
                        assert(0 <= ds0.rep(i as int) < n);
                        assert(0 <= ds0.rep(j as int) < n);
                    }
                    assert forall|a: int, b: int|
                        0 <= a < n && 0 <= b < n && ds.rep(a) == ds.rep(b)
                            implies textures@[a].image_path@ == textures@[b].image_path@ by {
                        assert(textures@[i as int].image_path@ == textures@[j as int].image_path@);
                        if ds0.rep(a) == ds0.rep(b) {
                        } else {
                            assert(ds0.rep(a) == ds0.rep(i as int) || ds0.rep(a) == ds0.rep(
                                j as int,
                            ) || ds0.rep(b) == ds0.rep(i as int) || ds0.rep(b) == ds0.rep(j as int));
                        }
                    }
                    assert(overlap_linked(textures@, j as int, j as int, 0));
                    assert(overlap_linked(textures@, i as int, j as int, 1));
                    assert(overlap_connected(textures@, i as int, j as int));
                    lemma_connected_sym(textures@, i as int, j as int);
                    assert forall|a: int, b: int|
                        0 <= a < n && 0 <= b < n && ds.rep(a) == ds.rep(b)
                            implies overlap_connected(textures@, a, b) by {
                        if ds0.rep(a) == ds0.rep(b) {
                        } else {
                            let ii = i as int;
                            let jj = j as int;
                            if ds0.rep(a) == ds0.rep(ii) && ds0.rep(b) == ds0.rep(jj) {
                                assert(overlap_connected(textures@, a, ii));
                                assert(overlap_connected(textures@, jj, b));
                                lemma_connected_trans(textures@, a, ii, jj);
                                lemma_connected_trans(textures@, a, jj, b);
                            } else {
                                assert(ds0.rep(a) == ds0.rep(jj) && ds0.rep(b) == ds0.rep(ii));
                                assert(overlap_connected(textures@, a, jj));
                                assert(overlap_connected(textures@, ii, b));
                                lemma_connected_trans(textures@, a, jj, ii);
                                lemma_connected_trans(textures@, a, ii, b);
                            }
                        }
                    }
                }
            }
            j = j + 1;
        }
        i = i + 1;
    }
    assert forall|a: int, b: int|
        0 <= a < n && 0 <= b < n && textures@[a].spec_overlaps(&textures@[b]) implies ds.rep(a)
        == ds.rep(b) by {
        if a < b {
        } else if b < a {
            assert(textures@[b].spec_overlaps(&textures@[a]));
        }
    }
    ds
}

/// Representative of every texture index, as one flat vector.
fn compute_reps(ds: &DisjointSet, n: usize) -> (reps: Vec<usize>)
    requires
        ds.wf(),
        ds.spec_len() == n,
    ensures
        reps@.len() == n,
        forall|i: int| 0 <= i < n ==> #[trigger] reps@[i] == ds.rep(i),
{
    let mut reps: Vec<usize> = Vec::new();
    let mut i: usize = 0;
    while i < n
        invariant
            ds.wf(),
            ds.spec_len() == n,
            i <= n,
            reps@.len() == i,
            forall|j: int| 0 <= j < i ==> #[trigger] reps@[j] == ds.rep(j),
        decreases n - i,
    {
        let r = ds.root(i);
        reps.push(r);
        i = i + 1;
    }
    reps
}

/// Does the vector hold the value? Plain linear scan.
fn contains_usize(v: &Vec<usize>, x: usize) -> (r: bool)
    ensures
        r == v@.contains(x),
{
    let mut i: usize = 0;
    while i < v.len()
        invariant
            i <= v@.len(),
            forall|j: int| 0 <= j < i ==> v@[j] != x,
        decreases v@.len() - i,
    {
        if v[i] == x {
            assert(v@.contains(x));
            return true;
        }
        i = i + 1;
    }
    assert(!v@.contains(x));
    false
}

/// The distinct representatives in order of first appearance, together with
/// a witness index for each: `firsts[g]` is a texture index whose
/// representative is `roots[g]`.
fn distinct_roots(reps: &Vec<usize>) -> (r: (Vec<usize>, Vec<usize>))
    ensures
        forall|g1: int, g2: int|
            0 <= g1 < r.0@.len() && 0 <= g2 < r.0@.len() && #[trigger] r.0@[g1]
                == #[trigger] r.0@[g2] ==> g1 == g2,
        forall|i: int| 0 <= i < reps@.len() ==> r.0@.contains(#[trigger] reps@[i]),
        r.1@.len() == r.0@.len(),
        forall|g: int|
            0 <= g < r.0@.len() ==> #[trigger] r.1@[g] < reps@.len() && reps@[r.1@[g] as int]
                == r.0@[g],
{
    let mut roots: Vec<usize> = Vec::new();
    let mut firsts: Vec<usize> = Vec::new();
    let mut i: usize = 0;
    while i < reps.len()
        invariant
            i <= reps@.len(),
            firsts@.len() == roots@.len(),
            forall|g1: int, g2: int|
                0 <= g1 < roots@.len() && 0 <= g2 < roots@.len() && #[trigger] roots@[g1]
                    == #[trigger] roots@[g2] ==> g1 == g2,
            forall|j: int| 0 <= j < i ==> roots@.contains(#[trigger] reps@[j]),
            forall|g: int|
                0 <= g < roots@.len() ==> #[trigger] firsts@[g] < i && reps@[firsts@[g] as int]
                    == roots@[g],
        decreases reps@.len() - i,
    {
        let r = reps[i];
        let ghost roots0 = roots@;
        if !contains_usize(&roots, r) {
            roots.push(r);
            firsts.push(i);
            proof {
                assert forall|j: int| 0 <= j < i + 1 implies roots@.contains(
                    #[trigger] reps@[j],
                ) by {
                    if j < i {
                        let g = choose|g: int| 0 <= g < roots0.len() && roots0[g] == reps@[j];
                        assert(roots@[g] == reps@[j]);
                    } else {
                        assert(roots@[roots@.len() - 1] == reps@[j]);
                    }
                }
            }
        }
        i = i + 1;
    }
    (roots, firsts)
}

/// The texture indices whose representative is `root`, in increasing order.
fn collect_members(reps: &Vec<usize>, root: usize) -> (members: Vec<usize>)
    ensures
        forall|k: int| 0 <= k < members@.len() ==> #[trigger] members@[k] < reps@.len(),
        forall|k1: int, k2: int|
            0 <= k1 < k2 < members@.len() ==> #[trigger] members@[k1] < #[trigger] members@[k2],
        forall|i: int|
            0 <= i < reps@.len() ==> (#[trigger] reps@[i] == root <==> exists|k: int|
                0 <= k < members@.len() && #[trigger] members@[k] == i),
{
    let mut members: Vec<usize> = Vec::new();
    let mut i: usize = 0;
    while i < reps.len()
        invariant
            i <= reps@.len(),
            forall|k: int| 0 <= k < members@.len() ==> #[trigger] members@[k] < i,
            forall|k1: int, k2: int|
                0 <= k1 < k2 < members@.len() ==> #[trigger] members@[k1] < #[trigger] members@[k2],
            forall|j: int|
                0 <= j < i ==> (#[trigger] reps@[j] == root <==> exists|k: int|
                    0 <= k < members@.len() && #[trigger] members@[k] == j),
        decreases reps@.len() - i,
    {
        let ghost members0 = members@;
        if reps[i] == root {
            members.push(i);
        }
        proof {
            assert forall|j: int|
                0 <= j < i + 1 implies (#[trigger] reps@[j] == root <==> exists|k: int|
                0 <= k < members@.len() && #[trigger] members@[k] == j) by {
                if j == i {
                    if reps@[j] == root {
                        assert(members@[members@.len() - 1] == j);
                    } else {
                        assert forall|k: int|
                            0 <= k < members@.len() implies #[trigger] members@[k] != j by {
                            assert(members@[k] == members0[k]);
                        }
                    }
                } else {
                    if reps@[j] == root {
                        let k = choose|k: int| 0 <= k < members0.len() && members0[k] == j;
                        assert(members@[k] == j);
                    } else {
                        assert forall|k: int|
                            0 <= k < members@.len() implies #[trigger] members@[k] != j by {
                            if k < members0.len() {
                                assert(members@[k] == members0[k]);
                            } else {
                                assert(members@[k] == i as int);
                            }
                        }
                    }
                }
            }
        }
        i = i + 1;
    }
    members
}

/// Folds every member's box into the minimal toplevel region: the union of
/// the member boxes, within the members' shared source image.
fn build_toplevel(textures: &Vec<CroppedTexture>, members: &Vec<usize>) -> (top: ToplevelTexture)
    requires
        all_wf(textures@),
        members@.len() >= 1,
        forall|k: int| 0 <= k < members@.len() ==> #[trigger] members@[k] < textures@.len(),
        forall|k1: int, k2: int|
            0 <= k1 < members@.len() && 0 <= k2 < members@.len() ==> textures@[
                #[trigger] members@[k1] as int
            ].image_path@ == textures@[#[trigger] members@[k2] as int].image_path@,
    ensures
        top.wf(),
        top.image_path@ == textures@[members@[0] as int].image_path@,
        forall|k: int|
            0 <= k < members@.len() ==> top.spec_contains(
                &textures@[#[trigger] members@[k] as int],
            ),
        exists|k: int|
            0 <= k < members@.len() && textures@[#[trigger] members@[k] as int].origin.0
                == top.origin.0,
        exists|k: int|
            0 <= k < members@.len() && textures@[#[trigger] members@[k] as int].origin.1
                == top.origin.1,
        exists|k: int|
            0 <= k < members@.len() && textures@[#[trigger] members@[k] as int].origin.0 + textures@[
                members@[k] as int
            ].width == top.origin.0 + top.width,
        exists|k: int|
            0 <= k < members@.len() && textures@[#[trigger] members@[k] as int].origin.1 + textures@[
                members@[k] as int
            ].height == top.origin.1 + top.height,
{
    let first = members[0];
    let mut top = ToplevelTexture::new(&textures[first]);
    let mut k: usize = 1;
    while k < members.len()
        invariant
            all_wf(textures@),
            members@.len() >= 1,
            forall|h: int| 0 <= h < members@.len() ==> #[trigger] members@[h] < textures@.len(),
            forall|h1: int, h2: int|
                0 <= h1 < members@.len() && 0 <= h2 < members@.len() ==> textures@[
                    #[trigger] members@[h1] as int
                ].image_path@ == textures@[#[trigger] members@[h2] as int].image_path@,
            1 <= k <= members@.len(),
            top.wf(),
            top.image_path@ == textures@[members@[0] as int].image_path@,
            forall|h: int|
                0 <= h < k ==> top.spec_contains(&textures@[#[trigger] members@[h] as int]),
            exists|h: int|
                0 <= h < k && textures@[#[trigger] members@[h] as int].origin.0 == top.origin.0,
            exists|h: int|
                0 <= h < k && textures@[#[trigger] members@[h] as int].origin.1 == top.origin.1,
            exists|h: int|
                0 <= h < k && textures@[#[trigger] members@[h] as int].origin.0 + textures@[
                    members@[h] as int
                ].width == top.origin.0 + top.width,
            exists|h: int|
                0 <= h < k && textures@[#[trigger] members@[h] as int].origin.1 + textures@[
                    members@[h] as int
                ].height == top.origin.1 + top.height,
        decreases members@.len() - k,
    {
        let m = members[k];
        let ghost top0 = top;
        let expanded = top.expand(&textures[m]);
        assert(expanded is Some);
        top = expanded.unwrap();
        proof {
            assert forall|h: int|
                0 <= h < k + 1 implies top.spec_contains(
                &textures@[#[trigger] members@[h] as int],
            ) by {
                if h < k {
                    assert(top0.spec_contains(&textures@[members@[h] as int]));
                }
            }
        }
        k = k + 1;
    }
    top
}

/// The per-member offsets and sizes within a toplevel region that contains
/// every member.
fn build_children(
    textures: &Vec<CroppedTexture>,
    members: &Vec<usize>,
    top: &ToplevelTexture,
) -> (children: Vec<(usize, ChildTexture)>)
    requires
        all_wf(textures@),
        top.wf(),
        forall|k: int| 0 <= k < members@.len() ==> #[trigger] members@[k] < textures@.len(),
        forall|k: int|
            0 <= k < members@.len() ==> top.spec_contains(&textures@[#[trigger] members@[k] as int]),
    ensures
        children@.len() == members@.len(),
        forall|k: int|
            0 <= k < members@.len() ==> #[trigger] children@[k] == (
            members@[k],
            child_of(*top, textures@[members@[k] as int]),
            ),
{
    let mut children: Vec<(usize, ChildTexture)> = Vec::new();
    let mut k: usize = 0;
    while k < members.len()
        invariant
            all_wf(textures@),
            top.wf(),
            forall|h: int| 0 <= h < members@.len() ==> #[trigger] members@[h] < textures@.len(),
            forall|h: int|
                0 <= h < members@.len() ==> top.spec_contains(
                    &textures@[#[trigger] members@[h] as int],
                ),
            k <= members@.len(),
            children@.len() == k,
            forall|h: int|
                0 <= h < k ==> #[trigger] children@[h] == (
                members@[h],
                child_of(*top, textures@[members@[h] as int]),
                ),
        decreases members@.len() - k,
    {
        let m = members[k];
        let child = top.get_child(&textures[m]);
        assert(child is Some);
        children.push((m, child.unwrap()));
        k = k + 1;
    }
    children
}

/// Groups the textures into clusters of transitively box-overlapping
/// fragments per source image. Every texture index lands in exactly one
/// cluster; directly overlapping textures always share a cluster; each
/// cluster's toplevel region is the minimal box over its members, and its
/// members all come from one source image.
#[verifier::rlimit(100)]
pub fn create_cluster(textures: &Vec<CroppedTexture>) -> (cs: Vec<Cluster>)
    requires
        all_wf(textures@),
    ensures
        forall|c: int| 0 <= c < cs@.len() ==> cluster_wf(textures@, #[trigger] cs@[c]),
        forall|i: int| 0 <= i < textures@.len() ==> assigned(cs@, i),
        members_unique(cs@),
        overlap_joined(textures@, cs@),
        clusters_share_source(textures@, cs@),
        forall|c1: int, c2: int|
            0 <= c1 < cs@.len() && 0 <= c2 < cs@.len() && #[trigger] cs@[c1].cluster_id
                == #[trigger] cs@[c2].cluster_id ==> c1 == c2,
        clusters_connected(textures@, cs@),
        clustering_of(textures@, cs@),
{
    let n = textures.len();
    let mut ds = build_disjoint_set(textures);
    // Optional amortization pass; representatives do not change.
    ds.compress();
    let reps = compute_reps(&ds, n);
    let (roots, firsts) = distinct_roots(&reps);

    let mut cs: Vec<Cluster> = Vec::new();
    let mut g: usize = 0;
    while g < roots.len()
        invariant
            all_wf(textures@),
            n == textures@.len(),
            reps@.len() == n,
            forall|a: int, b: int|
                0 <= a < n && 0 <= b < n && textures@[a].spec_overlaps(&textures@[b])
                    ==> #[trigger] reps@[a] == #[trigger] reps@[b],
            forall|a: int, b: int|
                0 <= a < n && 0 <= b < n && #[trigger] reps@[a] == #[trigger] reps@[b]
                    ==> textures@[a].image_path@ == textures@[b].image_path@,
            forall|a: int, b: int|
                0 <= a < n && 0 <= b < n && #[trigger] reps@[a] == #[trigger] reps@[b]
                    ==> overlap_connected(textures@, a, b),
            forall|g1: int, g2: int|
                0 <= g1 < roots@.len() && 0 <= g2 < roots@.len() && #[trigger] roots@[g1]
                    == #[trigger] roots@[g2] ==> g1 == g2,
            forall|i: int| 0 <= i < n ==> roots@.contains(#[trigger] reps@[i]),
            firsts@.len() == roots@.len(),
            forall|h: int|
                0 <= h < roots@.len() ==> #[trigger] firsts@[h] < n && reps@[firsts@[h] as int]
                    == roots@[h],
            g <= roots@.len(),
            cs@.len() == g,
            forall|h: int| 0 <= h < g ==> cluster_wf(textures@, #[trigger] cs@[h]),
            forall|h: int| 0 <= h < g ==> (#[trigger] cs@[h]).cluster_id == roots@[h],
            forall|h: int, i: int|
                #![trigger roots@[h], reps@[i]]
                0 <= h < g && 0 <= i < n ==> (reps@[i] == roots@[h] <==> exists|k: int|
                    0 <= k < cs@[h].children@.len() && (#[trigger] cs@[h].children@[k]).0 == i),
        decreases roots@.len() - g,
    {
        let root = roots[g];
        let members = collect_members(&reps, root);
        proof {
            let i0 = firsts@[g as int] as int;
            assert(reps@[i0] == roots@[g as int]);
            assert(exists|k: int| 0 <= k < members@.len() && #[trigger] members@[k] == i0);
            assert(members@.len() >= 1);
            assert forall|k: int|
                0 <= k < members@.len() implies reps@[#[trigger] members@[k] as int] == root by {
                assert(exists|h: int| 0 <= h < members@.len() && #[trigger] members@[h]
                    == members@[k]);
            }
            assert forall|k1: int, k2: int|
                0 <= k1 < members@.len() && 0 <= k2 < members@.len() implies textures@[
                #[trigger] members@[k1] as int
            ].image_path@ == textures@[#[trigger] members@[k2] as int].image_path@ by {
                assert(reps@[members@[k1] as int] == reps@[members@[k2] as int]);
            }
        }
        let top = build_toplevel(textures, &members);
        let children = build_children(textures, &members, &top);
        let cluster = Cluster { cluster_id: root, toplevel_texture: top, children };
        let ghost cs0 = cs@;
        cs.push(cluster);
        proof {
            let csg = cs@[g as int];
            assert(csg == cluster);
            let a = choose|h: int|
                0 <= h < members@.len() && textures@[#[trigger] members@[h] as int].origin.0
                    == top.origin.0;
            assert((csg.children@[a]).0 == members@[a]);
            let b = choose|h: int|
                0 <= h < members@.len() && textures@[#[trigger] members@[h] as int].origin.1
                    == top.origin.1;
            assert((csg.children@[b]).0 == members@[b]);
            let c = choose|h: int|
                0 <= h < members@.len() && textures@[#[trigger] members@[h] as int].origin.0
                    + textures@[members@[h] as int].width == top.origin.0 + top.width;
            assert((csg.children@[c]).0 == members@[c]);
            let d = choose|h: int|
                0 <= h < members@.len() && textures@[#[trigger] members@[h] as int].origin.1
                    + textures@[members@[h] as int].height == top.origin.1 + top.height;
            assert((csg.children@[d]).0 == members@[d]);
            assert forall|k1: int, k2: int|
                0 <= k1 < k2 < csg.children@.len() implies (#[trigger] csg.children@[k1]).0 < (
            #[trigger] csg.children@[k2]).0 by {
                assert(csg.children@[k1].0 == members@[k1]);
                assert(csg.children@[k2].0 == members@[k2]);
            }
            assert(cluster_wf(textures@, csg));
            assert forall|h: int| 0 <= h < g + 1 implies cluster_wf(
                textures@,
                #[trigger] cs@[h],
            ) by {
                if h < g {
                    assert(cs@[h] == cs0[h]);
                }
            }
            assert forall|h: int, i: int|
                #![trigger roots@[h], reps@[i]]
                0 <= h < g + 1 && 0 <= i < n implies (reps@[i] == roots@[h] <==> exists|k: int|
                0 <= k < cs@[h].children@.len() && (#[trigger] cs@[h].children@[k]).0 == i) by {
                if h < g {
                    assert(cs@[h] == cs0[h]);
                    if reps@[i] == roots@[h] {
                        let k = choose|k: int|
                            0 <= k < cs0[h].children@.len() && (#[trigger] cs0[h].children@[k]).0
                                == i;
                        assert((cs@[h].children@[k]).0 == i);
                    } else {
                        assert forall|k: int|
                            0 <= k < cs@[h].children@.len() implies (
                        #[trigger] cs@[h].children@[k]).0 != i by {
                            assert(cs@[h].children@[k] == cs0[h].children@[k]);
                        }
                    }
                } else {
                    if reps@[i] == roots@[h] {
                        let k = choose|k: int|
                            0 <= k < members@.len() && #[trigger] members@[k] == i;
                        assert((csg.children@[k]).0 == i);
                    } else {
                        assert forall|k: int|
                            0 <= k < csg.children@.len() implies (
                        #[trigger] csg.children@[k]).0 != i by {
                            assert(csg.children@[k].0 == members@[k]);
                            assert(reps@[members@[k] as int] == roots@[g as int]);
                        }
                    }
                }
            }
        }
        g = g + 1;
    }

    proof {
        assert forall|i: int| 0 <= i < n implies assigned(cs@, i) by {
            let h = choose|h: int| 0 <= h < roots@.len() && roots@[h] == reps@[i];
            assert(reps@[i] == roots@[h]);
            let k = choose|k: int|
                0 <= k < cs@[h].children@.len() && (#[trigger] cs@[h].children@[k]).0 == i;
            assert(0 <= h < cs@.len() && 0 <= k < cs@[h].children@.len() && cs@[h].children@[k].0
                == i);
        }
        assert forall|c1: int, k1: int, c2: int, k2: int|
            0 <= c1 < cs@.len() && 0 <= k1 < cs@[c1].children@.len() && 0 <= c2 < cs@.len() && 0
                <= k2 < cs@[c2].children@.len() && (#[trigger] cs@[c1].children@[k1]).0 == (
        #[trigger] cs@[c2].children@[k2]).0 implies c1 == c2 && k1 == k2 by {
            let i = cs@[c1].children@[k1].0 as int;
            assert(reps@[i] == roots@[c1]);
            assert(reps@[i] == roots@[c2]);
            assert(c1 == c2);
            if k1 < k2 {
                assert(cs@[c1].children@[k1].0 < cs@[c1].children@[k2].0);
            } else if k2 < k1 {
                assert(cs@[c1].children@[k2].0 < cs@[c1].children@[k1].0);
            }
        }
        assert forall|c1: int, k1: int, c2: int, k2: int|
            0 <= c1 < cs@.len() && 0 <= k1 < cs@[c1].children@.len() && 0 <= c2 < cs@.len() && 0
                <= k2 < cs@[c2].children@.len() && textures@[(
        #[trigger] cs@[c1].children@[k1]).0 as int].spec_overlaps(
            &textures@[(#[trigger] cs@[c2].children@[k2]).0 as int],
        ) implies c1 == c2 by {
            let i = cs@[c1].children@[k1].0 as int;
            let j = cs@[c2].children@[k2].0 as int;
            assert(reps@[i] == reps@[j]);
            assert(reps@[i] == roots@[c1]);
            assert(reps@[j] == roots@[c2]);
        }
        assert forall|c: int, k1: int, k2: int|
            0 <= c < cs@.len() && 0 <= k1 < cs@[c].children@.len() && 0 <= k2
                < cs@[c].children@.len() implies textures@[(
        #[trigger] cs@[c].children@[k1]).0 as int].image_path@ == textures@[(
        #[trigger] cs@[c].children@[k2]).0 as int].image_path@ by {
            let i = cs@[c].children@[k1].0 as int;
            let j = cs@[c].children@[k2].0 as int;
            assert(reps@[i] == roots@[c]);
            assert(reps@[j] == roots@[c]);
        }
        assert forall|c: int, k1: int, k2: int|
            0 <= c < cs@.len() && 0 <= k1 < cs@[c].children@.len() && 0 <= k2
                < cs@[c].children@.len() implies overlap_connected(
            textures@,
            (#[trigger] cs@[c].children@[k1]).0 as int,
            (#[trigger] cs@[c].children@[k2]).0 as int,
        ) by {
            let i = cs@[c].children@[k1].0 as int;
            let j = cs@[c].children@[k2].0 as int;
            assert(reps@[i] == roots@[c]);
            assert(reps@[j] == roots@[c]);
        }
        assert(clusters_connected(textures@, cs@));
        assert(clustering_of(textures@, cs@));
    }
    cs
}

} // verus!
