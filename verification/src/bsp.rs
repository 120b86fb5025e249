use vstd::prelude::*;
use vstd::seq_lib::group_to_multiset_ensures;
use vstd::seq_lib::lemma_multiset_commutative;
use vstd::seq_lib::{to_multiset_build, to_multiset_contains, to_multiset_len, to_multiset_remove};

use crate::bbox::{
    contains_spec, corners_ok, empty_bbox, encloses_spec, expand_bbox_spec, from_bboxes_spec,
    from_vectors_spec, lemma_empty_corners_ok, lemma_encloses_contains, lemma_encloses_trans,
    lemma_expand_bbox_grows, lemma_from_vectors_props, pad_spec, Axis, BoundingBox,
};
use crate::ids::{NormalId, TextureId, VertexId};
use crate::scalar::{add_bits, is_nan_bits, Scalar, ZERO_BITS};
use crate::vec3d::{
    average_spec, cross_spec, normalize_spec, vsub_spec, Vec3d,
};

verus! {

/// One corner of a render polygon: a vertex, its shading normal, and its
/// texture coordinates.
#[derive(Clone, Copy, Debug)]
pub struct PolyVertex {
    pub vertex_id: VertexId,
    pub normal_id: NormalId,
    pub uv: (Scalar, Scalar),
}

/// A textured render polygon: a face normal, a texture, and an ordered ring
/// of three or more corners (winding order defines the normal's sign).
#[derive(Debug)]
#[verifier::ext_equal]
pub struct Polygon {
    pub normal: Vec3d,
    pub texture: TextureId,
    pub verts: Vec<PolyVertex>,
}

fn clone_poly_verts(v: &Vec<PolyVertex>) -> (r: Vec<PolyVertex>)
    ensures
        r@ == v@,
{
    let mut out: Vec<PolyVertex> = Vec::new();
    let mut i: usize = 0;
    while i < v.len()
        invariant
            0 <= i <= v.len(),
            out@ =~= v@.take(i as int),
        decreases v.len() - i,
    {
        out.push(v[i]);
        i += 1;
    }
    proof {
        assert(v@.take(v@.len() as int) =~= v@);
    }
    out
}

impl Clone for Polygon {
    /// A deep copy equal to the original.
    fn clone(&self) -> (r: Self)
        ensures
            r.normal == self.normal,
            r.texture == self.texture,
            r.verts@ == self.verts@,
    {
        Polygon {
            normal: self.normal,
            texture: self.texture,
            verts: clone_poly_verts(&self.verts),
        }
    }
}

/// A binary space partition tree over polygons: interior `Split` nodes carry
/// a bounding box over everything beneath them, `Leaf` nodes carry one
/// polygon, and `Empty` is the tree with no geometry.
#[derive(Debug)]
pub enum BspNode {
    Split { bbox: BoundingBox, front: Box<BspNode>, back: Box<BspNode> },
    Leaf { bbox: BoundingBox, poly: Polygon },
    Empty,
}

impl Default for BspNode {
    fn default() -> (r: Self)
        ensures
            r is Empty,
    {
        BspNode::Empty
    }
}

/// The box a node advertises; the empty tree advertises the empty sentinel.
pub open spec fn bbox_of(n: BspNode) -> BoundingBox {
    match n {
        BspNode::Split { bbox, .. } => bbox,
        BspNode::Leaf { bbox, .. } => bbox,
        BspNode::Empty => empty_bbox(),
    }
}

/// The leaves of a tree in front-to-back order, each with its box.
pub open spec fn leaves_spec(n: BspNode) -> Seq<(BoundingBox, Polygon)>
    decreases n,
{
    match n {
        BspNode::Split { front, back, .. } => leaves_spec(*front) + leaves_spec(*back),
        BspNode::Leaf { bbox, poly } => seq![(bbox, poly)],
        BspNode::Empty => Seq::empty(),
    }
}

/// The position a polygon corner refers to.
pub open spec fn vert_pos(verts: Seq<Vec3d>, pv: PolyVertex) -> Vec3d {
    verts[pv.vertex_id.0 as int]
}

/// The positions of a polygon's corners, in ring order.
pub open spec fn positions_spec(p: Polygon, verts: Seq<Vec3d>) -> Seq<Vec3d> {
    p.verts@.map_values(|pv: PolyVertex| vert_pos(verts, pv))
}

/// Every corner of the polygon is inside the box.
pub open spec fn poly_in(b: BoundingBox, p: Polygon, verts: Seq<Vec3d>) -> bool {
    forall|k: int|
        0 <= k < p.verts@.len() ==> contains_spec(b, vert_pos(verts, p.verts@[k]))
}

/// Every corner of every polygon refers inside the vertex pool.
pub open spec fn poly_ids_ok(p: Polygon, n: nat) -> bool {
    forall|k: int| 0 <= k < p.verts@.len() ==> p.verts@[k].vertex_id.0 < n
}

/// Every leaf polygon of the tree refers inside the vertex pool.
pub open spec fn node_ids_ok(n: BspNode, len: nat) -> bool {
    forall|i: int| 0 <= i < leaves_spec(n).len() ==> poly_ids_ok(leaves_spec(n)[i].1, len)
}

/// Every polygon at a leaf beneath the node fits inside the box.
pub open spec fn all_leaves_in(b: BoundingBox, n: BspNode, verts: Seq<Vec3d>) -> bool {
    forall|i: int| 0 <= i < leaves_spec(n).len() ==> poly_in(b, leaves_spec(n)[i].1, verts)
}

/// Tree tightness, vertex form: every node's box contains every vertex
/// referenced at a leaf beneath it.
pub open spec fn tight(n: BspNode, verts: Seq<Vec3d>) -> bool
    decreases n,
{
    match n {
        BspNode::Split { bbox, front, back } => tight(*front, verts) && tight(*back, verts)
            && all_leaves_in(bbox, *front, verts) && all_leaves_in(bbox, *back, verts),
        BspNode::Leaf { bbox, poly } => poly_in(bbox, poly, verts),
        BspNode::Empty => true,
    }
}

/// Tree tightness, box form: every split's box encloses its children's
/// boxes, and every leaf's box contains its polygon.
pub open spec fn tight_boxes(n: BspNode, verts: Seq<Vec3d>) -> bool
    decreases n,
{
    match n {
        BspNode::Split { bbox, front, back } => tight_boxes(*front, verts) && tight_boxes(
            *back,
            verts,
        ) && encloses_spec(bbox, bbox_of(*front)) && encloses_spec(bbox, bbox_of(*back)),
        BspNode::Leaf { bbox, poly } => poly_in(bbox, poly, verts),
        BspNode::Empty => true,
    }
}

/// The bounding-box-only recomputation: a post-order pass that makes each
/// leaf's box the tight unpadded bound of its own vertices and each split's
/// box the union of its children's recomputed boxes. Topology and polygons
/// are untouched.
pub open spec fn recalc_spec(n: BspNode, verts: Seq<Vec3d>) -> BspNode
    decreases n,
{
    match n {
        BspNode::Split { bbox, front, back } => {
            let f = recalc_spec(*front, verts);
            let b = recalc_spec(*back, verts);
            BspNode::Split {
                bbox: expand_bbox_spec(bbox_of(f), bbox_of(b)),
                front: Box::new(f),
                back: Box::new(b),
            }
        },
        BspNode::Leaf { bbox, poly } => BspNode::Leaf {
            bbox: from_vectors_spec(positions_spec(poly, verts)),
            poly,
        },
        BspNode::Empty => BspNode::Empty,
    }
}

impl BspNode {
    /// The box this node advertises.
    pub fn bbox(&self) -> (r: BoundingBox)
        ensures
            r == bbox_of(*self),
    {
        match self {
            BspNode::Split { bbox, .. } => *bbox,
            BspNode::Leaf { bbox, .. } => *bbox,
            BspNode::Empty => BoundingBox::empty(),
        }
    }

    /// The number of leaves beneath this node.
    pub fn leaf_count(&self) -> (r: usize)
        requires
            leaves_spec(*self).len() <= usize::MAX,
        ensures
            r == leaves_spec(*self).len(),
        decreases *self,
    {
        match self {
            BspNode::Split { front, back, .. } => {
                let f = front.leaf_count();
                let b = back.leaf_count();
                f + b
            },
            BspNode::Leaf { .. } => 1,
            BspNode::Empty => 0,
        }
    }

    /// The leaves in front-to-back order, consuming the tree.
    pub fn into_leaves(self) -> (r: Vec<(BoundingBox, Polygon)>)
        ensures
            r@ == leaves_spec(self),
    {
        let mut out: Vec<(BoundingBox, Polygon)> = Vec::new();
        self.into_leaves_rec(&mut out);
        proof {
            assert(out@ =~= leaves_spec(self));
        }
        out
    }

    fn into_leaves_rec(self, out: &mut Vec<(BoundingBox, Polygon)>)
        ensures
            final(out)@ == old(out)@ + leaves_spec(self),
        decreases self,
    {
        match self {
            BspNode::Split { front, back, .. } => {
                (*front).into_leaves_rec(out);
                (*back).into_leaves_rec(out);
                proof {
                    assert(final(out)@ =~= old(out)@ + leaves_spec(self));
                }
            },
            BspNode::Leaf { bbox, poly } => {
                out.push((bbox, poly));
                proof {
                    assert(final(out)@ =~= old(out)@ + leaves_spec(self));
                }
            },
            BspNode::Empty => {
                proof {
                    assert(final(out)@ =~= old(out)@ + leaves_spec(self));
                }
            },
        }
    }

    /// The IEEE sum of every node's box volume, front to back.
    pub fn sum_of_bboxes(&self) -> (r: Scalar)
        ensures
            r.0 == sum_of_bboxes_spec(*self),
        decreases *self,
    {
        match self {
            BspNode::Split { bbox, front, back } => bbox.volume().fadd(
                front.sum_of_bboxes(),
            ).fadd(back.sum_of_bboxes()),
            BspNode::Leaf { bbox, .. } => bbox.volume(),
            BspNode::Empty => Scalar(ZERO_BITS),
        }
    }

    /// The summed depth of all leaves and the leaf count, as one pass.
    pub fn sum_depth_and_size(&self) -> (r: (u32, u32))
        requires
            sum_depth_and_size_spec(*self).0 <= u32::MAX,
            sum_depth_and_size_spec(*self).1 <= u32::MAX,
        ensures
            r.0 == sum_depth_and_size_spec(*self).0,
            r.1 == sum_depth_and_size_spec(*self).1,
        decreases *self,
    {
        match self {
            BspNode::Split { front, back, .. } => {
                proof {
                    lemma_sum_depth_nonneg(**front);
                    lemma_sum_depth_nonneg(**back);
                }
                let (depth1, sz1) = front.sum_depth_and_size();
                let (depth2, sz2) = back.sum_depth_and_size();
                (depth1 + depth2 + sz1 + sz2, sz1 + sz2)
            },
            BspNode::Leaf { .. } => (0, 1),
            BspNode::Empty => (0, 0),
        }
    }

    /// Recomputes every box from the vertex pool: leaves become the tight
    /// unpadded bound of their own vertices, splits the union of their
    /// children. Cheaper than a full rebuild; sound only while the topology
    /// is unchanged.
    pub fn recalculate_bboxes(&mut self, verts: &Vec<Vec3d>)
        requires
            node_ids_ok(*old(self), verts@.len()),
        ensures
            *final(self) == recalc_spec(*old(self), verts@),
    {
        let mut tmp = BspNode::Empty;
        core::mem::swap(self, &mut tmp);
        let mut done = recalc_node(tmp, verts);
        core::mem::swap(self, &mut done);
    }
}

/// The summed leaf depth and the leaf count of a node.
pub open spec fn sum_depth_and_size_spec(n: BspNode) -> (int, int)
    decreases n,
{
    match n {
        BspNode::Split { front, back, .. } => {
            let (d1, s1) = sum_depth_and_size_spec(*front);
            let (d2, s2) = sum_depth_and_size_spec(*back);
            (d1 + d2 + s1 + s2, s1 + s2)
        },
        BspNode::Leaf { .. } => (0int, 1int),
        BspNode::Empty => (0int, 0int),
    }
}

proof fn lemma_sum_depth_nonneg(n: BspNode)
    ensures
        sum_depth_and_size_spec(n).0 >= 0,
        sum_depth_and_size_spec(n).1 >= 0,
    decreases n,
{
    match n {
        BspNode::Split { front, back, .. } => {
            lemma_sum_depth_nonneg(*front);
            lemma_sum_depth_nonneg(*back);
        },
        _ => {},
    }
}

/// The IEEE sum of box volumes over the whole tree.
pub open spec fn sum_of_bboxes_spec(n: BspNode) -> u32
    decreases n,
{
    match n {
        BspNode::Split { bbox, front, back } => add_bits(
            add_bits(crate::bbox::volume_spec(bbox), sum_of_bboxes_spec(*front)),
            sum_of_bboxes_spec(*back),
        ),
        BspNode::Leaf { bbox, .. } => crate::bbox::volume_spec(bbox),
        BspNode::Empty => ZERO_BITS,
    }
}

fn recalc_node(n: BspNode, verts: &Vec<Vec3d>) -> (r: BspNode)
    requires
        node_ids_ok(n, verts@.len()),
    ensures
        r == recalc_spec(n, verts@),
    decreases n,
{
    match n {
        BspNode::Split { bbox, front, back } => {
            proof {
                assert(leaves_spec(n) =~= leaves_spec(*front) + leaves_spec(*back));
                assert forall|i: int| 0 <= i < leaves_spec(*front).len() implies poly_ids_ok(
                    leaves_spec(*front)[i].1,
                    verts@.len(),
                ) by {
                    assert(leaves_spec(n)[i] == leaves_spec(*front)[i]);
                }
                assert forall|i: int| 0 <= i < leaves_spec(*back).len() implies poly_ids_ok(
                    leaves_spec(*back)[i].1,
                    verts@.len(),
                ) by {
                    assert(leaves_spec(n)[leaves_spec(*front).len() + i] == leaves_spec(
                        *back,
                    )[i]);
                }
            }
            let f = recalc_node(*front, verts);
            let b = recalc_node(*back, verts);
            let mut nb = f.bbox();
            let bb = b.bbox();
            nb.expand_bbox(&bb);
            BspNode::Split { bbox: nb, front: Box::new(f), back: Box::new(b) }
        },
        BspNode::Leaf { bbox, poly } => {
            proof {
                assert(leaves_spec(n)[0] == (bbox, poly));
            }
            let mut pos: Vec<Vec3d> = Vec::new();
            let mut k: usize = 0;
            while k < poly.verts.len()
                invariant
                    0 <= k <= poly.verts@.len(),
                    poly_ids_ok(poly, verts@.len()),
                    pos@ =~= positions_spec(poly, verts@).take(k as int),
                decreases poly.verts@.len() - k,
            {
                pos.push(verts[poly.verts[k].vertex_id.0 as usize]);
                proof {
                    assert(pos@ =~= positions_spec(poly, verts@).take(k + 1 as int));
                }
                k += 1;
            }
            proof {
                assert(pos@ =~= positions_spec(poly, verts@));
            }
            let nb = BoundingBox::from_vectors(&pos);
            BspNode::Leaf { bbox: nb, poly }
        },
        BspNode::Empty => BspNode::Empty,
    }
}

/// The cross product of one cyclic edge window: for corner `i`, the cross of
/// the edge into `i+1` with the edge out of `i+1` (indices wrap around).
pub open spec fn window_cross(pos: Seq<Vec3d>, i: int) -> Vec3d {
    let n = pos.len() as int;
    cross_spec(
        vsub_spec(pos[i], pos[(i + 1) % n]),
        vsub_spec(pos[(i + 1) % n], pos[(i + 2) % n]),
    )
}

/// The derived face normal: for a triangle, the cross product of its first
/// two edges; for a larger ring, the average of all cyclic edge-window cross
/// products (robust to non-planar input); normalized either way. A degenerate
/// ring yields whatever normalizing a null vector yields.
pub open spec fn derive_normal_spec(pos: Seq<Vec3d>) -> Vec3d {
    if pos.len() == 3 {
        normalize_spec(cross_spec(vsub_spec(pos[0], pos[1]), vsub_spec(pos[1], pos[2])))
    } else {
        normalize_spec(average_spec(Seq::new(pos.len(), |i: int| window_cross(pos, i))))
    }
}

/// The polygon with its face normal re-derived from the vertex pool.
pub open spec fn renormaled(p: Polygon, verts: Seq<Vec3d>) -> Polygon {
    Polygon {
        normal: derive_normal_spec(positions_spec(p, verts)),
        texture: p.texture,
        verts: p.verts,
    }
}

/// What construction records for one input polygon: its padded bounding box
/// and the polygon with its normal re-derived.
pub open spec fn info_of(p: Polygon, verts: Seq<Vec3d>) -> (BoundingBox, Polygon) {
    (pad_spec(from_vectors_spec(positions_spec(p, verts))), renormaled(p, verts))
}

/// Working data for one polygon during construction: its centroid, its
/// padded box, and the polygon itself.
struct PolyInfo {
    center: Vec3d,
    bbox: BoundingBox,
    poly: Polygon,
}

spec fn info_pair(i: PolyInfo) -> (BoundingBox, Polygon) {
    (i.bbox, i.poly)
}

spec fn pairs_of(s: Seq<PolyInfo>) -> Seq<(BoundingBox, Polygon)> {
    s.map_values(|x: PolyInfo| info_pair(x))
}

spec fn infos_wf(s: Seq<PolyInfo>, verts: Seq<Vec3d>) -> bool {
    forall|i: int|
        0 <= i < s.len() ==> corners_ok(#[trigger] s[i].bbox) && poly_in(s[i].bbox, s[i].poly, verts)
            && poly_ids_ok(s[i].poly, verts.len())
}

/// The positions of a polygon's corners, gathered from the pool.
fn gather_positions(poly: &Polygon, verts: &Vec<Vec3d>) -> (pos: Vec<Vec3d>)
    requires
        poly_ids_ok(*poly, verts@.len()),
    ensures
        pos@ == positions_spec(*poly, verts@),
{
    let mut pos: Vec<Vec3d> = Vec::new();
    let mut k: usize = 0;
    while k < poly.verts.len()
        invariant
            0 <= k <= poly.verts@.len(),
            poly_ids_ok(*poly, verts@.len()),
            pos@ =~= positions_spec(*poly, verts@).take(k as int),
        decreases poly.verts@.len() - k,
    {
        pos.push(verts[poly.verts[k].vertex_id.0 as usize]);
        proof {
            assert(pos@ =~= positions_spec(*poly, verts@).take(k + 1 as int));
        }
        k += 1;
    }
    proof {
        assert(pos@ =~= positions_spec(*poly, verts@));
    }
    pos
}

/// The face normal derived from the corner positions.
fn derive_normal(pos: &Vec<Vec3d>) -> (r: Vec3d)
    ensures
        r == derive_normal_spec(pos@),
{
    let n = pos.len();
    if n == 3 {
        pos[0].vsub(pos[1]).cross(&pos[1].vsub(pos[2])).normalize()
    } else {
        let mut crosses: Vec<Vec3d> = Vec::new();
        let mut i: usize = 0;
        while i < n
            invariant
                0 <= i <= n,
                n == pos@.len(),
                crosses@.len() == i,
                forall|j: int| 0 <= j < i ==> crosses@[j] == window_cross(pos@, j),
            decreases n - i,
        {
            let i1 = if i + 1 == n {
                0
            } else {
                i + 1
            };
            let i2 = if i1 + 1 == n {
                0
            } else {
                i1 + 1
            };
            proof {
                assert(i1 == (i + 1) % (n as int) && i2 == (i + 2) % (n as int))
                    by (nonlinear_arith)
                    requires
                        0 <= i < n,
                        i1 == (if i + 1 == n { 0int } else { i + 1 }),
                        i2 == (if i1 + 1 == n { 0int } else { i1 + 1 }),
                ;
            }
            let a = pos[i];
            let b = pos[i1];
            let c = pos[i2];
            crosses.push(a.vsub(b).cross(&b.vsub(c)));
            i += 1;
        }
        proof {
            assert(crosses@ =~= Seq::new(pos@.len(), |j: int| window_cross(pos@, j)));
        }
        Vec3d::average(&crosses).normalize()
    }
}

/// Sorts working records by their centroid's component on one axis, taking
/// the earliest minimum first (a stable order); NaN centroids compare below
/// nothing and keep their relative order. Both the record multiset and the
/// (box, polygon) multiset are preserved.
fn sort_infos_by_axis(infos: Vec<PolyInfo>, axis: Axis) -> (r: Vec<PolyInfo>)
    ensures
        r@.to_multiset() == infos@.to_multiset(),
        pairs_of(r@).to_multiset() == pairs_of(infos@).to_multiset(),
        r@.len() == infos@.len(),
{
    broadcast use group_to_multiset_ensures;

    let mut work = infos;
    let ghost whole = work@;
    let mut out: Vec<PolyInfo> = Vec::new();
    while work.len() > 0
        invariant
            out@.to_multiset().add(work@.to_multiset()) == whole.to_multiset(),
            pairs_of(out@).to_multiset().add(pairs_of(work@).to_multiset())
                == pairs_of(whole).to_multiset(),
            out@.len() + work@.len() == whole.len(),
        decreases work@.len(),
    {
        let mut min_j: usize = 0;
        let mut j: usize = 1;
        while j < work.len()
            invariant
                0 <= min_j < work@.len(),
                1 <= j <= work@.len(),
            decreases work@.len() - j,
        {
            if work[j].center.component(axis).lt(work[min_j].center.component(axis)) {
                min_j = j;
            }
            j += 1;
        }
        let ghost old_out = out@;
        let ghost old_work = work@;
        let item = work.remove(min_j);
        out.push(item);
        proof {
            assert(old_work.contains(item));
            to_multiset_contains(old_work, item);
            assert(out@ == old_out.push(item));
            to_multiset_build(old_out, item);
            assert(work@ == old_work.remove(min_j as int));
            to_multiset_remove(old_work, min_j as int);
            assert(out@.to_multiset().add(work@.to_multiset()) =~= whole.to_multiset());
            assert(pairs_of(old_work)[min_j as int] == info_pair(item));
            assert(pairs_of(old_work).contains(info_pair(item)));
            to_multiset_contains(pairs_of(old_work), info_pair(item));
            assert(pairs_of(work@) =~= pairs_of(old_work).remove(min_j as int));
            to_multiset_remove(pairs_of(old_work), min_j as int);
            assert(pairs_of(out@) =~= pairs_of(old_out).push(info_pair(item)));
            to_multiset_build(pairs_of(old_out), info_pair(item));
            assert(pairs_of(out@).to_multiset().add(
                pairs_of(work@).to_multiset(),
            ) =~= pairs_of(whole).to_multiset());
        }
    }
    out
}

proof fn lemma_pairs_member(infos: Seq<PolyInfo>, pairs: Seq<(BoundingBox, Polygon)>, i: int)
    requires
        pairs.to_multiset() == pairs_of(infos).to_multiset(),
        0 <= i < pairs.len(),
    ensures
        exists|j: int| 0 <= j < infos.len() && info_pair(#[trigger] infos[j]) == pairs[i],
{
    broadcast use group_to_multiset_ensures;

    let p = pairs[i];
    assert(pairs.contains(p));
    assert(pairs_of(infos).to_multiset().count(p) > 0);
    assert(pairs_of(infos).contains(p));
    let j = choose|j: int|
        0 <= j < pairs_of(infos).len() && #[trigger] pairs_of(infos)[j] == p;
    assert(info_pair(infos[j]) == p);
}

/// The recursive median split: one record becomes a leaf; more records are
/// bounded, sorted on the axis of greatest extent, and halved into front and
/// back subtrees.
fn recalc_recurse(infos: Vec<PolyInfo>, Ghost(verts): Ghost<Seq<Vec3d>>) -> (r: BspNode)
    requires
        infos@.len() >= 1,
        infos_wf(infos@, verts),
    ensures
        tight(r, verts),
        node_ids_ok(r, verts.len()),
        !(r is Empty),
        leaves_spec(r).to_multiset() == pairs_of(infos@).to_multiset(),
        leaves_spec(r).len() == infos@.len(),
    decreases infos@.len(),
{
    broadcast use group_to_multiset_ensures;

    if infos.len() == 1 {
        let mut infos = infos;
        let ghost whole1 = infos@;
        let info = infos.pop().unwrap();
        let r = BspNode::Leaf { bbox: info.bbox, poly: info.poly };
        proof {
            assert(leaves_spec(r) =~= Seq::empty().push((info.bbox, info.poly)));
            assert(infos@ =~= Seq::<PolyInfo>::empty());
            assert(leaves_spec(r).to_multiset() =~= Seq::empty().push(info_pair(info)).to_multiset());
            assert(pairs_of(whole1) =~= Seq::empty().push(
                info_pair(info),
            ));
        }
        r
    } else {
        let ghost whole = infos@;
        let mut boxes: Vec<BoundingBox> = Vec::new();
        let mut i: usize = 0;
        while i < infos.len()
            invariant
                0 <= i <= infos@.len(),
                infos_wf(infos@, verts),
                boxes@.len() == i,
                forall|j: int| 0 <= j < i ==> boxes@[j] == infos@[j].bbox,
            decreases infos@.len() - i,
        {
            boxes.push(infos[i].bbox);
            i += 1;
        }
        let ubox = BoundingBox::from_bboxes(&boxes);
        let bbox = ubox.pad();
        let axis = bbox.greatest_dimension();
        let ghost sorted_pairs_m = pairs_of(infos@).to_multiset();
        let mut front_part = sort_infos_by_axis(infos, axis);
        let ghost sorted = front_part@;
        let halfpoint = front_part.len() / 2;
        let back_part = front_part.split_off(halfpoint);
        proof {
            assert(sorted =~= front_part@ + back_part@);
            assert(pairs_of(sorted) =~= pairs_of(front_part@)
                + pairs_of(back_part@));
            lemma_multiset_commutative(front_part@, back_part@);
            lemma_multiset_commutative(
                pairs_of(front_part@),
                pairs_of(back_part@),
            );
            assert forall|j: int| 0 <= j < sorted.len() implies corners_ok(
                #[trigger] sorted[j].bbox,
            ) && poly_in(sorted[j].bbox, sorted[j].poly, verts) && poly_ids_ok(
                sorted[j].poly,
                verts.len(),
            ) by {
                let x = sorted[j];
                assert(sorted.contains(x));
                assert(sorted.to_multiset().count(x) > 0);
                assert(whole.to_multiset().count(x) > 0);
                assert(whole.contains(x));
                let k = choose|k: int| 0 <= k < whole.len() && whole[k] == x;
                assert(infos_wf(whole, verts));
                assert(corners_ok(whole[k].bbox));
            }
            assert forall|j: int| 0 <= j < front_part@.len() implies corners_ok(
                #[trigger] front_part@[j].bbox,
            ) && poly_in(front_part@[j].bbox, front_part@[j].poly, verts) && poly_ids_ok(
                front_part@[j].poly,
                verts.len(),
            ) by {
                assert(sorted[j] == front_part@[j]);
            }
            assert forall|j: int| 0 <= j < back_part@.len() implies corners_ok(
                #[trigger] back_part@[j].bbox,
            ) && poly_in(back_part@[j].bbox, back_part@[j].poly, verts) && poly_ids_ok(
                back_part@[j].poly,
                verts.len(),
            ) by {
                assert(sorted[front_part@.len() + j] == back_part@[j]);
            }
        }
        let front = recalc_recurse(front_part, Ghost(verts));
        let back = recalc_recurse(back_part, Ghost(verts));
        let r = BspNode::Split { bbox, front: Box::new(front), back: Box::new(back) };
        proof {
            let fl = leaves_spec(r);
            assert(fl =~= leaves_spec(front) + leaves_spec(back));
            lemma_multiset_commutative(leaves_spec(front), leaves_spec(back));
            assert(fl.to_multiset() =~= pairs_of(whole).to_multiset());
            lemma_split_node_facts(
                r, front, back, bbox, ubox, whole, sorted, boxes@, verts,
            );
        }
        r
    }
}

/// Containment and index facts for a freshly assembled split node.
proof fn lemma_split_node_facts(
    r: BspNode,
    front: BspNode,
    back: BspNode,
    bbox: BoundingBox,
    ubox: BoundingBox,
    whole: Seq<PolyInfo>,
    sorted: Seq<PolyInfo>,
    boxes: Seq<BoundingBox>,
    verts: Seq<Vec3d>,
)
    requires
        r == (BspNode::Split { bbox, front: Box::new(front), back: Box::new(back) }),
        tight(front, verts),
        tight(back, verts),
        node_ids_ok(front, verts.len()),
        node_ids_ok(back, verts.len()),
        infos_wf(whole, verts),
        boxes.len() == whole.len(),
        forall|j: int| 0 <= j < whole.len() ==> boxes[j] == whole[j].bbox,
        corners_ok(ubox),
        forall|i: int| 0 <= i < boxes.len() && corners_ok(boxes[i]) ==> encloses_spec(ubox, boxes[i]),
        corners_ok(ubox) ==> corners_ok(bbox) && encloses_spec(bbox, ubox),
        leaves_spec(front).to_multiset().add(leaves_spec(back).to_multiset())
            == pairs_of(whole).to_multiset(),
    ensures
        tight(r, verts),
        node_ids_ok(r, verts.len()),
{
    broadcast use group_to_multiset_ensures;

    let all = leaves_spec(front) + leaves_spec(back);
    assert(leaves_spec(r) =~= all);
    lemma_multiset_commutative(leaves_spec(front), leaves_spec(back));
    assert forall|i: int| 0 <= i < all.len() implies poly_in(bbox, #[trigger] all[i].1, verts)
        && poly_ids_ok(all[i].1, verts.len()) by {
        lemma_pairs_member(whole, all, i);
        let j = choose|j: int| 0 <= j < whole.len() && info_pair(#[trigger] whole[j]) == all[i];
        assert(corners_ok(whole[j].bbox));
        assert(boxes[j] == whole[j].bbox);
        assert(encloses_spec(ubox, whole[j].bbox));
        lemma_encloses_trans(bbox, ubox, whole[j].bbox);
        assert forall|k: int| 0 <= k < all[i].1.verts@.len() implies contains_spec(
            bbox,
            vert_pos(verts, all[i].1.verts@[k]),
        ) by {
            assert(poly_in(whole[j].bbox, whole[j].poly, verts));
            lemma_encloses_contains(bbox, whole[j].bbox, vert_pos(verts, all[i].1.verts@[k]));
        }
    }
    assert forall|i: int| 0 <= i < leaves_spec(front).len() implies poly_in(
        bbox,
        #[trigger] leaves_spec(front)[i].1,
        verts,
    ) by {
        assert(all[i] == leaves_spec(front)[i]);
    }
    assert forall|i: int| 0 <= i < leaves_spec(back).len() implies poly_in(
        bbox,
        #[trigger] leaves_spec(back)[i].1,
        verts,
    ) by {
        assert(all[leaves_spec(front).len() + i] == leaves_spec(back)[i]);
    }
}

/// The render geometry of one subobject: its vertex pool, its normal pool,
/// and the partition tree over its polygons.
#[derive(Debug)]
pub struct BspData {
    pub verts: Vec<Vec3d>,
    pub norms: Vec<Vec3d>,
    pub collision_tree: BspNode,
}

impl Default for BspData {
    fn default() -> (r: Self)
        ensures
            r.verts@.len() == 0,
            r.norms@.len() == 0,
            r.collision_tree is Empty,
    {
        BspData { verts: Vec::new(), norms: Vec::new(), collision_tree: BspNode::Empty }
    }
}

impl BspData {
    /// Builds a partition tree from scratch over the given polygons: each
    /// polygon's normal is re-derived from the pool, its box is padded by the
    /// fixed epsilon, and the records are median-split on the axis of
    /// greatest extent. The tree's leaves are exactly the input polygons
    /// (leaf-count conservation), every node's box contains every vertex
    /// referenced beneath it, and an empty input yields the empty tree.
    pub fn recalculate(verts: &Vec<Vec3d>, polygons: Vec<Polygon>) -> (r: BspNode)
        requires
            forall|i: int| 0 <= i < polygons@.len() ==> poly_ids_ok(#[trigger] polygons@[i], verts@.len()),
        ensures
            leaves_spec(r).to_multiset() == polygons@.map_values(
                |p: Polygon| info_of(p, verts@),
            ).to_multiset(),
            leaves_spec(r).len() == polygons@.len(),
            tight(r, verts@),
            node_ids_ok(r, verts@.len()),
            (polygons@.len() == 0) <==> (r is Empty),
    {
        broadcast use group_to_multiset_ensures;

        let ghost orig = polygons@;
        let mut polygons = polygons;
        let mut infos: Vec<PolyInfo> = Vec::new();
        while polygons.len() > 0
            invariant
                infos@.len() + polygons@.len() == orig.len(),
                polygons@ =~= orig.skip(infos@.len() as int),
                forall|i: int| 0 <= i < orig.len() ==> poly_ids_ok(#[trigger] orig[i], verts@.len()),
                infos_wf(infos@, verts@),
                pairs_of(infos@) =~= orig.take(infos@.len() as int).map_values(
                    |p: Polygon| info_of(p, verts@),
                ),
            decreases polygons@.len(),
        {
            let ghost idx = infos@.len() as int;
            proof {
                assert(polygons@[0] == orig[idx]);
            }
            let p = polygons.remove(0);
            let pos = gather_positions(&p, verts);
            let normal = derive_normal(&pos);
            let poly2 = Polygon { normal, texture: p.texture, verts: p.verts };
            let ubox = BoundingBox::from_vectors(&pos);
            let bbox = ubox.pad();
            let center = Vec3d::average(&pos);
            proof {
                assert(positions_spec(poly2, verts@) =~= pos@);
                assert forall|k: int| 0 <= k < poly2.verts@.len() implies contains_spec(
                    bbox,
                    vert_pos(verts@, poly2.verts@[k]),
                ) by {
                    assert(contains_spec(ubox, pos@[k]));
                    lemma_encloses_contains(bbox, ubox, pos@[k]);
                }
            }
            let ghost old_infos = infos@;
            infos.push(PolyInfo { center, bbox, poly: poly2 });
            proof {
                assert(info_pair(infos@.last()) == info_of(orig[idx], verts@));
                assert(pairs_of(infos@) =~= pairs_of(old_infos).push(info_pair(infos@.last())));
                assert(orig.take(idx + 1).map_values(|p: Polygon| info_of(p, verts@)) =~= orig.take(
                    idx,
                ).map_values(|p: Polygon| info_of(p, verts@)).push(info_of(orig[idx], verts@)));
                assert(pairs_of(infos@) =~= orig.take(idx + 1).map_values(
                    |p: Polygon| info_of(p, verts@),
                ));
                assert(polygons@ =~= orig.skip(idx + 1));
            }
        }
        proof {
            assert(orig.take(orig.len() as int) =~= orig);
        }
        if infos.len() == 0 {
            BspNode::Empty
        } else {
            recalc_recurse(infos, Ghost(verts@))
        }
    }
}

/// Law: recomputing bounding boxes twice yields the same tree as once; the
/// second pass finds every box already at its recomputed value.
pub proof fn lemma_recalc_bboxes_idempotent(n: BspNode, verts: Seq<Vec3d>)
    ensures
        recalc_spec(recalc_spec(n, verts), verts) == recalc_spec(n, verts),
    decreases n,
{
    match n {
        BspNode::Split { bbox, front, back } => {
            lemma_recalc_bboxes_idempotent(*front, verts);
            lemma_recalc_bboxes_idempotent(*back, verts);
        },
        _ => {},
    }
}

/// Every box a recomputation produces has non-NaN corners.
pub proof fn lemma_recalc_corners_ok(n: BspNode, verts: Seq<Vec3d>)
    ensures
        corners_ok(bbox_of(recalc_spec(n, verts))),
    decreases n,
{
    match n {
        BspNode::Split { bbox, front, back } => {
            lemma_recalc_corners_ok(*front, verts);
            lemma_recalc_corners_ok(*back, verts);
            lemma_expand_bbox_grows(
                bbox_of(recalc_spec(*front, verts)),
                bbox_of(recalc_spec(*back, verts)),
            );
        },
        BspNode::Leaf { bbox, poly } => {
            lemma_from_vectors_props(positions_spec(poly, verts));
        },
        BspNode::Empty => {
            lemma_empty_corners_ok();
        },
    }
}

/// Law: after a bounding-box recomputation the tree is tight in the box
/// sense — every split's box encloses both children's boxes, and every
/// leaf's box contains all of its polygon's vertices.
pub proof fn lemma_recalc_bboxes_tight(n: BspNode, verts: Seq<Vec3d>)
    ensures
        tight_boxes(recalc_spec(n, verts), verts),
    decreases n,
{
    match n {
        BspNode::Split { bbox, front, back } => {
            lemma_recalc_bboxes_tight(*front, verts);
            lemma_recalc_bboxes_tight(*back, verts);
            lemma_recalc_corners_ok(*front, verts);
            lemma_recalc_corners_ok(*back, verts);
            let f = recalc_spec(*front, verts);
            let b = recalc_spec(*back, verts);
            lemma_expand_bbox_grows(bbox_of(f), bbox_of(b));
        },
        BspNode::Leaf { bbox, poly } => {
            lemma_from_vectors_props(positions_spec(poly, verts));
            let nb = from_vectors_spec(positions_spec(poly, verts));
            assert forall|k: int| 0 <= k < poly.verts@.len() implies contains_spec(
                nb,
                vert_pos(verts, poly.verts@[k]),
            ) by {
                assert(positions_spec(poly, verts)[k] == vert_pos(verts, poly.verts@[k]));
            }
        },
        BspNode::Empty => {},
    }
}

} // verus!
