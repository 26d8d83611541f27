//! The atlas packer: accumulates texture fragments, clusters them, and
//! drives a placement strategy across one or more atlas pages.
//!
//! The packer moves through three stages: accumulating (`add_texture`),
//! packing (`pack`, which consumes the packer), and the finalized, read-only
//! `PackedAtlasProvider`. Page ids are assigned sequentially in finalization
//! order; a region that does not fit even an empty page is a fatal capacity
//! error.

use vstd::prelude::*;

use crate::cluster::{
    all_wf, assigned, cluster_wf, clustering_of, create_cluster, Cluster,
};
use crate::place::child_record;
use crate::place::{
    child_in_bounds, rects_disjoint, within_page, PlacedTextureGeometry, PlacedTextureInfo,
    TexturePlacer,
};
use crate::texture::CroppedTexture;

verus! {

/// One finalized atlas page: the toplevel rectangles committed to it.
pub type Atlas = Vec<PlacedTextureGeometry>;

/// Some id in the list reads as `id`.
pub open spec fn has_id(ids: Seq<String>, id: Seq<char>) -> bool {
    exists|k: int| 0 <= k < ids.len() && (#[trigger] ids[k])@ == id
}

/// A region too large for even an empty atlas page: a caller configuration
/// problem, not a retry condition.
#[derive(Clone, Copy, Debug)]
pub struct CapacityError {
    pub width: u32,
    pub height: u32,
}

/// Bookkeeping for one cluster's committed rectangle while packing:
/// `geoms[cc]` sits either at slot `pos[cc]` of the already finalized page
/// `geoms[cc].atlas_id`, or — when its page is still the working one — at
/// slot `pos[cc]` of `current`. The owner tables point back from the slot to
/// the cluster.
pub open spec fn geom_settled(
    clusters: Seq<Cluster>,
    atlases: Seq<Atlas>,
    current: Seq<PlacedTextureGeometry>,
    owner: Seq<Seq<int>>,
    owner_cur: Seq<int>,
    geoms: Seq<PlacedTextureGeometry>,
    pos: Seq<int>,
    cc: int,
) -> bool {
    let g = geoms[cc];
    &&& g.cluster_id == clusters[cc].cluster_id
    &&& g.width == clusters[cc].toplevel_texture.width
    &&& g.height == clusters[cc].toplevel_texture.height
    &&& g.atlas_id <= atlases.len()
    &&& g.atlas_id < atlases.len() ==> 0 <= pos[cc] < atlases[g.atlas_id as int]@.len()
        && atlases[g.atlas_id as int]@[pos[cc]] == g && owner[g.atlas_id as int][pos[cc]] == cc
    &&& g.atlas_id == atlases.len() ==> 0 <= pos[cc] < current.len() && current[pos[cc]] == g
        && owner_cur[pos[cc]] == cc
}

/// The pages hold exactly one committed rectangle per cluster, and the
/// placement records are those rectangles shifted by each member's offset:
/// `geoms[c]` is cluster `c`'s rectangle, found at slot `pos[c]` of page
/// `geoms[c].atlas_id`; the `owner` table points every slot of every page
/// back to the one cluster whose rectangle fills it (so pages hold the
/// clusters' rectangles and nothing else, each exactly once); and the record
/// of member `k` of cluster `c` is `child_record(geoms[c], ..)`.
pub open spec fn pages_hold_clusters(
    clusters: Seq<Cluster>,
    atlases: Seq<Atlas>,
    placements: Seq<PlacedTextureInfo>,
    geoms: Seq<PlacedTextureGeometry>,
    pos: Seq<int>,
    owner: Seq<Seq<int>>,
) -> bool {
    &&& geoms.len() == clusters.len()
    &&& pos.len() == clusters.len()
    &&& owner.len() == atlases.len()
    &&& forall|a: int| 0 <= a < atlases.len() ==> (#[trigger] owner[a]).len() == atlases[a]@.len()
    &&& forall|c: int|
        0 <= c < clusters.len() ==> {
            let g = #[trigger] geoms[c];
            &&& g.cluster_id == clusters[c].cluster_id
            &&& g.width == clusters[c].toplevel_texture.width
            &&& g.height == clusters[c].toplevel_texture.height
            &&& 0 <= g.atlas_id < atlases.len()
            &&& 0 <= pos[c] < atlases[g.atlas_id as int]@.len()
            &&& atlases[g.atlas_id as int]@[pos[c]] == g
            &&& owner[g.atlas_id as int][pos[c]] == c
        }
    &&& forall|c1: int, c2: int|
        0 <= c1 < clusters.len() && 0 <= c2 < clusters.len() && (#[trigger] geoms[c1]).atlas_id
            == (#[trigger] geoms[c2]).atlas_id && pos[c1] == pos[c2] ==> c1 == c2
    &&& forall|a: int, x: int|
        #![trigger owner[a][x]]
        0 <= a < atlases.len() && 0 <= x < atlases[a]@.len() ==> 0 <= owner[a][x] < clusters.len()
            && geoms[owner[a][x]].atlas_id == a && pos[owner[a][x]] == x && atlases[a]@[x]
            == geoms[owner[a][x]]
    &&& forall|c: int, k: int|
        0 <= c < clusters.len() && 0 <= k < clusters[c].children@.len() ==> placements[(
        #[trigger] clusters[c].children@[k]).0 as int] == child_record(
            geoms[c],
            clusters[c].children@[k].1,
        )
}

/// Accumulates texture fragments under caller-chosen string ids until `pack`
/// consumes them.
pub struct AtlasPacker {
    /// Fragment ids, in insertion order; no id occurs twice.
    pub texture_ids: Vec<String>,
    /// The fragment under the id at the same position.
    pub textures: Vec<CroppedTexture>,
}

impl AtlasPacker {
    pub open spec fn wf(&self) -> bool {
        &&& self.texture_ids@.len() == self.textures@.len()
        &&& all_wf(self.textures@)
        &&& forall|k1: int, k2: int|
            0 <= k1 < k2 < self.texture_ids@.len() ==> (#[trigger] self.texture_ids@[k1])@ != (
            #[trigger] self.texture_ids@[k2])@
    }
}

impl Default for AtlasPacker {
    /// An empty packer.
    fn default() -> (r: Self)
        ensures
            r.wf(),
            r.texture_ids@.len() == 0,
            r.textures@.len() == 0,
    {
        AtlasPacker { texture_ids: Vec::new(), textures: Vec::new() }
    }
}

impl AtlasPacker {
    /// Registers `texture` under `texture_id`. A repeated id replaces the
    /// texture held under it; a fresh id is appended.
    pub fn add_texture(&mut self, texture_id: String, texture: CroppedTexture)
        requires
            old(self).wf(),
            texture.wf(),
        ensures
            final(self).wf(),
            final(self).texture_ids@.len() == final(self).textures@.len(),
            has_id(old(self).texture_ids@, texture_id@) ==> final(self).texture_ids@ == old(
                self,
            ).texture_ids@ && exists|k: int|
                0 <= k < old(self).texture_ids@.len() && (#[trigger] old(self).texture_ids@[k])@
                    == texture_id@ && final(self).textures@ == old(self).textures@.update(
                    k,
                    texture,
                ),
            !has_id(old(self).texture_ids@, texture_id@) ==> final(self).texture_ids@ == old(
                self,
            ).texture_ids@.push(texture_id) && final(self).textures@ == old(self).textures@.push(
                texture,
            ),
    {
        let mut k: usize = 0;
        while k < self.texture_ids.len()
            invariant
                self == old(self),
                old(self).wf(),
                texture.wf(),
                k <= self.texture_ids@.len(),
                forall|j: int| 0 <= j < k ==> (#[trigger] self.texture_ids@[j])@ != texture_id@,
            decreases self.texture_ids@.len() - k,
        {
            if self.texture_ids[k] == texture_id {
                self.textures.set(k, texture);
                proof {
                    assert(has_id(old(self).texture_ids@, texture_id@));
                    assert forall|i: int|
                        0 <= i < self.textures@.len() implies (#[trigger] self.textures@[i]).wf() by {
                        if i != k {
                            assert(self.textures@[i] == old(self).textures@[i]);
                        }
                    }
                }
                return;
            }
            k = k + 1;
        }
        assert(!has_id(old(self).texture_ids@, texture_id@));
        self.texture_ids.push(texture_id);
        self.textures.push(texture);
        proof {
            assert forall|i: int|
                0 <= i < self.textures@.len() implies (#[trigger] self.textures@[i]).wf() by {
                if i < self.textures@.len() - 1 {
                    assert(self.textures@[i] == old(self).textures@[i]);
                }
            }
            assert forall|k1: int, k2: int|
                0 <= k1 < k2 < self.texture_ids@.len() implies (
            #[trigger] self.texture_ids@[k1])@ != (#[trigger] self.texture_ids@[k2])@ by {
                if k2 < self.texture_ids@.len() - 1 {
                    assert(self.texture_ids@[k1] == old(self).texture_ids@[k1]);
                    assert(self.texture_ids@[k2] == old(self).texture_ids@[k2]);
                } else {
                    assert(self.texture_ids@[k1] == old(self).texture_ids@[k1]);
                }
            }
        }
    }

    /// Clusters the accumulated fragments and places every cluster through
    /// the strategy, opening a fresh page whenever the current one is full.
    ///
    /// On success, every fragment id holds exactly one placement record — its
    /// cluster's committed rectangle shifted by the member's offset — the
    /// pages hold exactly one rectangle per cluster, pairwise disjoint,
    /// inside the page and non-empty, page ids run `0, 1, 2, ...` in
    /// finalization order, and the returned clusters are a full clustering of
    /// the fragments. The error case is a cluster whose merged region
    /// exceeds an empty page.
    pub fn pack<P: TexturePlacer>(self, placer: P) -> (r: Result<
        PackedAtlasProvider,
        CapacityError,
    >)
        requires
            self.wf(),
            placer.inv(),
            placer.placed() == Seq::<PlacedTextureGeometry>::empty(),
        ensures
            self.textures@.len() == 0 ==> r is Ok,
            r is Err ==> (r->Err_0).width > placer.page_width() || (r->Err_0).height
                > placer.page_height(),
            r is Err ==> exists|cs: Seq<Cluster>|
                #[trigger] clustering_of(self.textures@, cs) && exists|c: int|
                    0 <= c < cs.len() && (#[trigger] cs[c]).toplevel_texture.width == (
                    r->Err_0).width && cs[c].toplevel_texture.height == (r->Err_0).height,
            r is Ok ==> (r->Ok_0).wf(),
            r is Ok ==> (r->Ok_0).texture_ids@ == self.texture_ids@,
            r is Ok ==> (r->Ok_0).placements@.len() == self.texture_ids@.len(),
            r is Ok ==> forall|a: int, i: int|
                0 <= a < (r->Ok_0).atlases@.len() && 0 <= i < (r->Ok_0).atlases@[a]@.len()
                    ==> within_page(
                    #[trigger] (r->Ok_0).atlases@[a]@[i],
                    placer.page_width(),
                    placer.page_height(),
                ),
            r is Ok ==> forall|a: int, i: int|
                0 <= a < (r->Ok_0).atlases@.len() && 0 <= i < (r->Ok_0).atlases@[a]@.len() ==> (
                #[trigger] (r->Ok_0).atlases@[a]@[i]).atlas_id == a,
            r is Ok ==> forall|a: int|
                0 <= a < (r->Ok_0).atlases@.len() ==> (#[trigger] (r->Ok_0).atlases@[a])@.len()
                    >= 1,
            r is Ok ==> clustering_of(self.textures@, (r->Ok_0).clusters@),
            r is Ok ==> exists|geoms: Seq<PlacedTextureGeometry>, pos: Seq<int>, owner: Seq<
                Seq<int>,
            >|
                pages_hold_clusters(
                    (r->Ok_0).clusters@,
                    (r->Ok_0).atlases@,
                    (r->Ok_0).placements@,
                    geoms,
                    pos,
                    owner,
                ),
    {
        let AtlasPacker { texture_ids, textures } = self;
        let n = textures.len();
        let clusters = create_cluster(&textures);

        let ghost pw0 = placer.page_width();
        let ghost ph0 = placer.page_height();
        let mut pl = placer;

        let mut atlases: Vec<Atlas> = Vec::new();
        let mut current_atlas: Atlas = Vec::new();
        let mut placements_opt: Vec<Option<PlacedTextureInfo>> = Vec::new();
        let ghost mut geoms: Seq<PlacedTextureGeometry> = Seq::empty();
        let ghost mut pos: Seq<int> = Seq::empty();
        let ghost mut owner: Seq<Seq<int>> = Seq::empty();
        let ghost mut owner_cur: Seq<int> = Seq::empty();
        let mut i: usize = 0;
        while i < n
            invariant
                i <= n,
                placements_opt@.len() == i,
            decreases n - i,
        {
            placements_opt.push(None);
            i = i + 1;
        }

        let mut c: usize = 0;
        while c < clusters.len()
            invariant
                n == textures@.len(),
                textures@ == self.textures@,
                all_wf(textures@),
                clustering_of(textures@, clusters@),
                forall|cc: int|
                    0 <= cc < clusters@.len() ==> cluster_wf(textures@, #[trigger] clusters@[cc]),
                c <= clusters@.len(),
                pl.inv(),
                pw0 == placer.page_width(),
                ph0 == placer.page_height(),
                pl.page_width() == pw0,
                pl.page_height() == ph0,
                pl.placed() == current_atlas@,
                forall|x: int, y: int|
                    0 <= x < y < current_atlas@.len() ==> rects_disjoint(
                        #[trigger] current_atlas@[x],
                        #[trigger] current_atlas@[y],
                    ),
                forall|x: int|
                    0 <= x < current_atlas@.len() ==> within_page(
                        #[trigger] current_atlas@[x],
                        pw0,
                        ph0,
                    ),
                forall|x: int|
                    0 <= x < current_atlas@.len() ==> (#[trigger] current_atlas@[x]).atlas_id
                        == atlases@.len(),
                forall|a: int, x: int, y: int|
                    0 <= a < atlases@.len() && 0 <= x < y < atlases@[a]@.len() ==> rects_disjoint(
                        #[trigger] atlases@[a]@[x],
                        #[trigger] atlases@[a]@[y],
                    ),
                forall|a: int, x: int|
                    0 <= a < atlases@.len() && 0 <= x < atlases@[a]@.len() ==> within_page(
                        #[trigger] atlases@[a]@[x],
                        pw0,
                        ph0,
                    ),
                forall|a: int, x: int|
                    0 <= a < atlases@.len() && 0 <= x < atlases@[a]@.len() ==> (
                    #[trigger] atlases@[a]@[x]).atlas_id == a,
                forall|a: int| 0 <= a < atlases@.len() ==> (#[trigger] atlases@[a])@.len() >= 1,
                geoms.len() == c,
                pos.len() == c,
                owner.len() == atlases@.len(),
                forall|a: int| 0 <= a < owner.len() ==> (#[trigger] owner[a]).len()
                    == atlases@[a]@.len(),
                owner_cur.len() == current_atlas@.len(),
                forall|cc: int|
                    0 <= cc < c ==> geom_settled(
                        clusters@,
                        atlases@,
                        current_atlas@,
                        owner,
                        owner_cur,
                        geoms,
                        pos,
                        cc,
                    ),
                forall|a: int, x: int|
                    #![trigger owner[a][x]]
                    0 <= a < owner.len() && 0 <= x < owner[a].len() ==> 0 <= owner[a][x] < c
                        && geoms[owner[a][x]].atlas_id == a && pos[owner[a][x]] == x,
                forall|x: int|
                    0 <= x < owner_cur.len() ==> 0 <= #[trigger] owner_cur[x] < c
                        && geoms[owner_cur[x]].atlas_id == atlases@.len() && pos[owner_cur[x]]
                        == x,
                placements_opt@.len() == n,
                forall|cc: int, k: int|
                    0 <= cc < c && 0 <= k < clusters@[cc].children@.len() ==> placements_opt@[(
                    #[trigger] clusters@[cc].children@[k]).0 as int] == Some(
                        child_record(geoms[cc], clusters@[cc].children@[k].1),
                    ),
            decreases clusters@.len() - c,
        {
            let cluster = &clusters[c];
            if !pl.can_place(&cluster.toplevel_texture) {
                if current_atlas.len() > 0 {
                    let ghost atlases0 = atlases@;
                    let ghost owner0 = owner;
                    let ghost current0 = current_atlas@;
                    let ghost owner_cur0 = owner_cur;
                    atlases.push(current_atlas);
                    current_atlas = Vec::new();
                    proof {
                        owner = owner.push(owner_cur0);
                        owner_cur = Seq::empty();
                        assert forall|a: int, x: int, y: int|
                            0 <= a < atlases@.len() && 0 <= x < y < atlases@[a]@.len() implies
                            rects_disjoint(
                            #[trigger] atlases@[a]@[x],
                            #[trigger] atlases@[a]@[y],
                        ) by {
                            if a < atlases@.len() - 1 {
                                assert(atlases@[a] == atlases0[a]);
                            }
                        }
                        assert forall|a: int, x: int|
                            0 <= a < atlases@.len() && 0 <= x < atlases@[a]@.len() implies
                            within_page(#[trigger] atlases@[a]@[x], pw0, ph0) && (
                        atlases@[a]@[x]).atlas_id == a by {
                            if a < atlases@.len() - 1 {
                                assert(atlases@[a] == atlases0[a]);
                            }
                        }
                        assert forall|a: int|
                            0 <= a < atlases@.len() implies (#[trigger] atlases@[a])@.len()
                            >= 1 by {
                            if a < atlases@.len() - 1 {
                                assert(atlases@[a] == atlases0[a]);
                            }
                        }
                        assert forall|a: int|
                            0 <= a < owner.len() implies (#[trigger] owner[a]).len()
                            == atlases@[a]@.len() by {
                            if a < owner.len() - 1 {
                                assert(owner[a] == owner0[a]);
                                assert(atlases@[a] == atlases0[a]);
                            }
                        }
                        assert forall|cc: int|
                            0 <= cc < c implies geom_settled(
                            clusters@,
                            atlases@,
                            current_atlas@,
                            owner,
                            owner_cur,
                            geoms,
                            pos,
                            cc,
                        ) by {
                            assert(geom_settled(
                                clusters@,
                                atlases0,
                                current0,
                                owner0,
                                owner_cur0,
                                geoms,
                                pos,
                                cc,
                            ));
                            let g = geoms[cc];
                            if g.atlas_id < atlases0.len() {
                                assert(atlases@[g.atlas_id as int] == atlases0[g.atlas_id as int]);
                                assert(owner[g.atlas_id as int] == owner0[g.atlas_id as int]);
                            } else {
                                assert(g.atlas_id == atlases0.len());
                                assert(atlases@[g.atlas_id as int]@ == current0);
                                assert(owner[g.atlas_id as int] == owner_cur0);
                            }
                        }
                        assert forall|a: int, x: int|
                            #![trigger owner[a][x]]
                            0 <= a < owner.len() && 0 <= x < owner[a].len() implies 0 <= owner[a][x]
                            < c && geoms[owner[a][x]].atlas_id == a && pos[owner[a][x]] == x by {
                            if a < owner.len() - 1 {
                                assert(owner[a] == owner0[a]);
                            }
                        }
                    }
                }
                pl.reset_param();
                if !pl.can_place(&cluster.toplevel_texture) {
                    proof {
                        pl.empty_page_accepts(
                            cluster.toplevel_texture.width,
                            cluster.toplevel_texture.height,
                        );
                        assert(clusters@[c as int].children@.len() >= 1);
                        assert((clusters@[c as int].children@[0]).0 < n);
                        assert(self.textures@.len() > 0);
                        assert(clustering_of(self.textures@, clusters@));
                        assert(0 <= c < clusters@.len() && clusters@[
                            c as int
                        ].toplevel_texture.width == cluster.toplevel_texture.width && clusters@[
                            c as int
                        ].toplevel_texture.height == cluster.toplevel_texture.height);
                    }
                    return Err(
                        CapacityError {
                            width: cluster.toplevel_texture.width,
                            height: cluster.toplevel_texture.height,
                        },
                    );
                }
            }
            let atlas_id = atlases.len();
            proof {
                assert forall|k: int|
                    0 <= k < cluster.children@.len() implies child_in_bounds(
                    (#[trigger] cluster.children@[k]).1,
                    cluster.toplevel_texture.width,
                    cluster.toplevel_texture.height,
                ) by {
                    assert(cluster.toplevel_texture.spec_contains(
                        &textures@[cluster.children@[k].0 as int],
                    ));
                }
            }
            let (geom, infos) = pl.place_texture(
                &cluster.toplevel_texture,
                &cluster.children,
                cluster.cluster_id,
                atlas_id,
            );
            let ghost current0 = current_atlas@;
            let ghost geoms0 = geoms;
            let ghost pos0 = pos;
            let ghost owner_cur0 = owner_cur;
            current_atlas.push(geom);
            proof {
                geoms = geoms.push(geom);
                pos = pos.push(current_atlas@.len() - 1);
                owner_cur = owner_cur.push(c as int);
                assert forall|x: int, y: int|
                    0 <= x < y < current_atlas@.len() implies rects_disjoint(
                    #[trigger] current_atlas@[x],
                    #[trigger] current_atlas@[y],
                ) by {
                    if y < current_atlas@.len() - 1 {
                        assert(current_atlas@[x] == current0[x]);
                        assert(current_atlas@[y] == current0[y]);
                    } else {
                        assert(current_atlas@[x] == current0[x]);
                        assert(rects_disjoint(current0[x], geom));
                    }
                }
                assert forall|cc: int|
                    0 <= cc < c + 1 implies geom_settled(
                    clusters@,
                    atlases@,
                    current_atlas@,
                    owner,
                    owner_cur,
                    geoms,
                    pos,
                    cc,
                ) by {
                    if cc < c {
                        assert(geom_settled(
                            clusters@,
                            atlases@,
                            current0,
                            owner,
                            owner_cur0,
                            geoms0,
                            pos0,
                            cc,
                        ));
                        assert(geoms[cc] == geoms0[cc]);
                        assert(pos[cc] == pos0[cc]);
                        let g = geoms0[cc];
                        if g.atlas_id == atlases@.len() {
                            assert(0 <= pos0[cc] < current0.len());
                            assert(current_atlas@[pos[cc]] == current0[pos0[cc]]);
                            assert(owner_cur[pos[cc]] == owner_cur0[pos0[cc]]);
                        }
                    } else {
                        assert(geoms[cc] == geom);
                        assert(pos[cc] == current_atlas@.len() - 1);
                        assert(current_atlas@[pos[cc]] == geom);
                        assert(owner_cur[pos[cc]] == c as int);
                    }
                }
                assert forall|a: int, x: int|
                    #![trigger owner[a][x]]
                    0 <= a < owner.len() && 0 <= x < owner[a].len() implies 0 <= owner[a][x] < c + 1
                    && geoms[owner[a][x]].atlas_id == a && pos[owner[a][x]] == x by {
                    assert(geoms[owner[a][x]] == geoms0[owner[a][x]]);
                    assert(pos[owner[a][x]] == pos0[owner[a][x]]);
                }
                assert forall|x: int|
                    0 <= x < owner_cur.len() implies 0 <= #[trigger] owner_cur[x] < c + 1
                    && geoms[owner_cur[x]].atlas_id == atlases@.len() && pos[owner_cur[x]]
                    == x by {
                    if x < owner_cur.len() - 1 {
                        assert(owner_cur[x] == owner_cur0[x]);
                        assert(geoms[owner_cur[x]] == geoms0[owner_cur[x]]);
                        assert(pos[owner_cur[x]] == pos0[owner_cur[x]]);
                    } else {
                        assert(owner_cur[x] == c as int);
                    }
                }
            }
            let mut k: usize = 0;
            while k < cluster.children.len()
                invariant
                    n == textures@.len(),
                    clustering_of(textures@, clusters@),
                    forall|cc: int|
                        0 <= cc < clusters@.len() ==> cluster_wf(
                            textures@,
                            #[trigger] clusters@[cc],
                        ),
                    0 <= c < clusters@.len(),
                    cluster == &clusters@[c as int],
                    geoms.len() == c + 1,
                    geoms[c as int] == geom,
                    infos@.len() == cluster.children@.len(),
                    forall|h: int|
                        0 <= h < infos@.len() ==> #[trigger] infos@[h] == child_record(
                            geom,
                            cluster.children@[h].1,
                        ),
                    k <= cluster.children@.len(),
                    placements_opt@.len() == n,
                    forall|cc: int, h: int|
                        0 <= cc < c && 0 <= h < clusters@[cc].children@.len() ==> placements_opt@[(
                        #[trigger] clusters@[cc].children@[h]).0 as int] == Some(
                            child_record(geoms[cc], clusters@[cc].children@[h].1),
                        ),
                    forall|h: int|
                        0 <= h < k ==> placements_opt@[(#[trigger] cluster.children@[h]).0 as int]
                            == Some(child_record(geom, cluster.children@[h].1)),
                decreases cluster.children@.len() - k,
            {
                let idx = cluster.children[k].0;
                let info = infos[k];
                let ghost popt0 = placements_opt@;
                placements_opt.set(idx, Some(info));
                proof {
                    assert forall|cc: int, h: int|
                        0 <= cc < c && 0 <= h < clusters@[cc].children@.len() implies
                        placements_opt@[(#[trigger] clusters@[cc].children@[h]).0 as int] == Some(
                        child_record(geoms[cc], clusters@[cc].children@[h].1),
                    ) by {
                        let t = clusters@[cc].children@[h].0 as int;
                        assert(cluster.children@[k as int] == clusters@[c as int].children@[
                            k as int
                        ]);
                        if t != idx {
                            assert(placements_opt@[t] == popt0[t]);
                        }
                    }
                    assert forall|h: int|
                        0 <= h < k + 1 implies placements_opt@[(
                    #[trigger] cluster.children@[h]).0 as int] == Some(
                        child_record(geom, cluster.children@[h].1),
                    ) by {
                        let t = cluster.children@[h].0 as int;
                        if t != idx {
                            assert(placements_opt@[t] == popt0[t]);
                        }
                    }
                }
                k = k + 1;
            }
            proof {
                assert forall|cc: int, h: int|
                    0 <= cc < c + 1 && 0 <= h < clusters@[cc].children@.len() implies
                    placements_opt@[(#[trigger] clusters@[cc].children@[h]).0 as int] == Some(
                    child_record(geoms[cc], clusters@[cc].children@[h].1),
                ) by {
                    if cc == c {
                        assert(placements_opt@[(cluster.children@[h]).0 as int] == Some(
                            child_record(geom, cluster.children@[h].1),
                        ));
                    }
                }
            }
            c = c + 1;
        }

        let ghost atlases1 = atlases@;
        let ghost owner1 = owner;
        let ghost current1 = current_atlas@;
        let ghost owner_cur1 = owner_cur;
        if current_atlas.len() > 0 {
            atlases.push(current_atlas);
            proof {
                owner = owner.push(owner_cur1);
                owner_cur = Seq::empty();
                assert forall|a: int, x: int, y: int|
                    0 <= a < atlases@.len() && 0 <= x < y < atlases@[a]@.len() implies
                    rects_disjoint(#[trigger] atlases@[a]@[x], #[trigger] atlases@[a]@[y]) by {
                    if a < atlases@.len() - 1 {
                        assert(atlases@[a] == atlases1[a]);
                    }
                }
                assert forall|a: int, x: int|
                    0 <= a < atlases@.len() && 0 <= x < atlases@[a]@.len() implies within_page(
                    #[trigger] atlases@[a]@[x],
                    pw0,
                    ph0,
                ) && (atlases@[a]@[x]).atlas_id == a by {
                    if a < atlases@.len() - 1 {
                        assert(atlases@[a] == atlases1[a]);
                    }
                }
                assert forall|a: int|
                    0 <= a < atlases@.len() implies (#[trigger] atlases@[a])@.len() >= 1 by {
                    if a < atlases@.len() - 1 {
                        assert(atlases@[a] == atlases1[a]);
                    }
                }
                assert forall|a: int, x: int|
                    #![trigger owner[a][x]]
                    0 <= a < owner.len() && 0 <= x < owner[a].len() implies 0 <= owner[a][x]
                    < clusters@.len() && geoms[owner[a][x]].atlas_id == a && pos[owner[a][x]]
                    == x by {
                    if a < owner.len() - 1 {
                        assert(owner[a] == owner1[a]);
                    }
                }
                assert forall|a: int|
                    0 <= a < owner.len() implies (#[trigger] owner[a]).len()
                    == atlases@[a]@.len() by {
                    if a < owner.len() - 1 {
                        assert(owner[a] == owner1[a]);
                        assert(atlases@[a] == atlases1[a]);
                    } else {
                        assert(owner[a] == owner_cur1);
                        assert(atlases@[a]@ == current1);
                    }
                }
            }
        }
        proof {
            assert forall|cc: int|
                0 <= cc < clusters@.len() implies {
                let g = #[trigger] geoms[cc];
                &&& g.cluster_id == clusters@[cc].cluster_id
                &&& g.width == clusters@[cc].toplevel_texture.width
                &&& g.height == clusters@[cc].toplevel_texture.height
                &&& 0 <= g.atlas_id < atlases@.len()
                &&& 0 <= pos[cc] < atlases@[g.atlas_id as int]@.len()
                &&& atlases@[g.atlas_id as int]@[pos[cc]] == g
                &&& owner[g.atlas_id as int][pos[cc]] == cc
            } by {
                assert(geom_settled(
                    clusters@,
                    atlases1,
                    current1,
                    owner1,
                    owner_cur1,
                    geoms,
                    pos,
                    cc,
                ));
                let g = geoms[cc];
                if g.atlas_id < atlases1.len() {
                    assert(atlases@[g.atlas_id as int] == atlases1[g.atlas_id as int]);
                    assert(owner[g.atlas_id as int] == owner1[g.atlas_id as int]);
                } else {
                    assert(0 <= pos[cc] < current1.len());
                    assert(current1.len() > 0);
                    assert(atlases@[g.atlas_id as int]@ == current1);
                    assert(owner[g.atlas_id as int] == owner_cur1);
                }
            }
            assert forall|i2: int| 0 <= i2 < n implies placements_opt@[i2] is Some by {
                assert(assigned(clusters@, i2));
                let (cc, k) = choose|cc: int, k: int|
                    0 <= cc < clusters@.len() && 0 <= k < clusters@[cc].children@.len() && (
                    #[trigger] clusters@[cc].children@[k]).0 == i2;
                assert(placements_opt@[(clusters@[cc].children@[k]).0 as int] == Some(
                    child_record(geoms[cc], clusters@[cc].children@[k].1),
                ));
            }
        }

        let mut placements: Vec<PlacedTextureInfo> = Vec::new();
        let mut i: usize = 0;
        while i < n
            invariant
                placements_opt@.len() == n,
                forall|i2: int| 0 <= i2 < n ==> #[trigger] placements_opt@[i2] is Some,
                i <= n,
                placements@.len() == i,
                forall|i2: int| 0 <= i2 < i ==> #[trigger] placements@[i2] == placements_opt@[
                    i2
                ]->0,
            decreases n - i,
        {
            let info = placements_opt[i].unwrap();
            placements.push(info);
            i = i + 1;
        }

        proof {
            assert forall|cc: int, k: int|
                0 <= cc < clusters@.len() && 0 <= k < clusters@[cc].children@.len() implies
                placements@[(#[trigger] clusters@[cc].children@[k]).0 as int] == child_record(
                geoms[cc],
                clusters@[cc].children@[k].1,
            ) by {
                let t = clusters@[cc].children@[k].0 as int;
                assert(placements_opt@[t] == Some(
                    child_record(geoms[cc], clusters@[cc].children@[k].1),
                ));
                assert(placements@[t] == placements_opt@[t]->0);
            }
            assert forall|a: int, x: int|
                #![trigger atlases@[a]@[x]]
                0 <= a < atlases@.len() && 0 <= x < atlases@[a]@.len() implies exists|cc: int|
                0 <= cc < clusters@.len() && (#[trigger] geoms[cc]).atlas_id == a && pos[cc]
                    == x by {
                let cc = owner[a][x];
                assert(0 <= cc < clusters@.len() && geoms[cc].atlas_id == a && pos[cc] == x);
            }
            assert forall|c1: int, c2: int|
                0 <= c1 < clusters@.len() && 0 <= c2 < clusters@.len() && (
                #[trigger] geoms[c1]).atlas_id == (#[trigger] geoms[c2]).atlas_id && pos[c1]
                    == pos[c2] implies c1 == c2 by {
                let a = geoms[c1].atlas_id as int;
                assert(owner[a][pos[c1]] == c1);
                assert(owner[a][pos[c2]] == c2);
            }
            assert forall|a: int, x: int|
                #![trigger owner[a][x]]
                0 <= a < atlases@.len() && 0 <= x < atlases@[a]@.len() implies 0 <= owner[a][x]
                < clusters@.len() && geoms[owner[a][x]].atlas_id == a && pos[owner[a][x]] == x
                && atlases@[a]@[x] == geoms[owner[a][x]] by {
                assert(owner.len() == atlases@.len());
                assert(owner[a].len() == atlases@[a]@.len());
                let cc = owner[a][x];
                assert(0 <= cc < clusters@.len() && geoms[cc].atlas_id == a && pos[cc] == x);
                assert(atlases@[(geoms[cc].atlas_id) as int]@[pos[cc]] == geoms[cc]);
            }
            assert(pages_hold_clusters(clusters@, atlases@, placements@, geoms, pos, owner));
        }

        let provider = PackedAtlasProvider { atlases, clusters, texture_ids, placements };
        proof {
            assert(pages_hold_clusters(
                provider.clusters@,
                provider.atlases@,
                provider.placements@,
                geoms,
                pos,
                owner,
            ));
            assert(exists|g2: Seq<PlacedTextureGeometry>, p2: Seq<int>, o2: Seq<Seq<int>>|
                pages_hold_clusters(
                    provider.clusters@,
                    provider.atlases@,
                    provider.placements@,
                    g2,
                    p2,
                    o2,
                ));
        }
        Ok(provider)
    }
}

/// The finalized mapping from fragment ids to placement records, plus the
/// pages and clusters behind it. Read-only after construction.
pub struct PackedAtlasProvider {
    /// Finalized pages; the page id is the index.
    pub atlases: Vec<Atlas>,
    /// The clusters that were packed, with members as dense texture indices.
    pub clusters: Vec<Cluster>,
    /// Fragment ids, positionally matching `placements`.
    pub texture_ids: Vec<String>,
    /// Exactly one placement record per fragment id.
    pub placements: Vec<PlacedTextureInfo>,
}

impl PackedAtlasProvider {
    pub open spec fn wf(&self) -> bool {
        &&& self.texture_ids@.len() == self.placements@.len()
        &&& forall|a: int, x: int, y: int|
            0 <= a < self.atlases@.len() && 0 <= x < y < self.atlases@[a]@.len() ==> rects_disjoint(
                #[trigger] self.atlases@[a]@[x],
                #[trigger] self.atlases@[a]@[y],
            )
    }

    /// The placement record packed under `id`, or `None` for an id that was
    /// never packed.
    pub fn get_texture_info(&self, id: &String) -> (r: Option<&PlacedTextureInfo>)
        requires
            self.wf(),
        ensures
            r is Some <==> has_id(self.texture_ids@, id@),
            r is Some ==> exists|k: int|
                0 <= k < self.texture_ids@.len() && (#[trigger] self.texture_ids@[k])@ == id@ && *(
                r->0) == self.placements@[k],
    {
        let mut k: usize = 0;
        while k < self.texture_ids.len()
            invariant
                self.wf(),
                k <= self.texture_ids@.len(),
                forall|j: int| 0 <= j < k ==> (#[trigger] self.texture_ids@[j])@ != id@,
            decreases self.texture_ids@.len() - k,
        {
            if self.texture_ids[k] == *id {
                return Some(&self.placements[k]);
            }
            k = k + 1;
        }
        None
    }
}

} // verus!
