use vstd::prelude::*;
use vstd::seq_lib::lemma_multiset_commutative;
use vstd::seq_lib::{to_multiset_build, to_multiset_contains, to_multiset_remove};

use crate::bbox::{
    contains_spec, corners_ok, empty_bbox, encloses_spec, expand_bbox_spec, from_vectors_spec,
    lemma_empty_corners_ok, lemma_encloses_contains, lemma_encloses_trans, lemma_expand_bbox_grows,
    lemma_expand_bbox_keeps, lemma_from_bboxes_props, lemma_from_vectors_props, pad_spec,
    zero_bbox, BoundingBox,
};
use crate::ids::{PolygonId, VertexId};
use crate::vec3d::{rot_only_linear, transform_point_spec, Mat4, Vec3d};

verus! {

/// One collision triangle of the shield mesh: a face normal, three vertex
/// ids, and the ids of the three edge-adjacent triangles.
#[derive(Clone, Copy, Debug)]
pub struct ShieldPolygon {
    pub normal: Vec3d,
    pub verts: (VertexId, VertexId, VertexId),
    pub neighbors: (PolygonId, PolygonId, PolygonId),
}

/// The collision partition tree over the whole-model shield mesh: splits
/// carry a box over everything beneath; a leaf carries a list of triangle
/// ids (possibly several, unlike the render tree's one-polygon leaves).
#[derive(Debug)]
pub enum ShieldNode {
    Split { bbox: BoundingBox, front: Box<ShieldNode>, back: Box<ShieldNode> },
    Leaf { bbox: BoundingBox, poly_list: Vec<PolygonId> },
}

/// The box a shield node advertises.
pub open spec fn sh_bbox_of(n: ShieldNode) -> BoundingBox {
    match n {
        ShieldNode::Split { bbox, .. } => bbox,
        ShieldNode::Leaf { bbox, .. } => bbox,
    }
}

/// The triangle ids at the leaves beneath a node, front to back.
pub open spec fn ids_under(n: ShieldNode) -> Seq<PolygonId>
    decreases n,
{
    match n {
        ShieldNode::Split { front, back, .. } => ids_under(*front) + ids_under(*back),
        ShieldNode::Leaf { poly_list, .. } => poly_list@,
    }
}

/// The three corner positions of one triangle.
pub open spec fn tri_positions(p: ShieldPolygon, verts: Seq<Vec3d>) -> Seq<Vec3d> {
    seq![
        verts[p.verts.0.0 as int],
        verts[p.verts.1.0 as int],
        verts[p.verts.2.0 as int],
    ]
}

/// The corner positions of a list of triangles, flattened in visit order.
pub open spec fn tri_flat(list: Seq<PolygonId>, polys: Seq<ShieldPolygon>, verts: Seq<Vec3d>) -> Seq<
    Vec3d,
>
    decreases list.len(),
{
    if list.len() == 0 {
        Seq::empty()
    } else {
        tri_flat(list.drop_last(), polys, verts) + tri_positions(
            polys[list.last().0 as int],
            verts,
        )
    }
}

/// The corner positions of every triangle at a leaf beneath the node.
pub open spec fn flat_under(n: ShieldNode, polys: Seq<ShieldPolygon>, verts: Seq<Vec3d>) -> Seq<
    Vec3d,
>
    decreases n,
{
    match n {
        ShieldNode::Split { front, back, .. } => flat_under(*front, polys, verts) + flat_under(
            *back,
            polys,
            verts,
        ),
        ShieldNode::Leaf { poly_list, .. } => tri_flat(poly_list@, polys, verts),
    }
}

/// Shield tree tightness: every node's box contains every triangle corner
/// referenced beneath it.
pub open spec fn shield_tight(n: ShieldNode, polys: Seq<ShieldPolygon>, verts: Seq<Vec3d>) -> bool
    decreases n,
{
    match n {
        ShieldNode::Split { bbox, front, back } => shield_tight(*front, polys, verts)
            && shield_tight(*back, polys, verts) && (forall|k: int|
            0 <= k < flat_under(n, polys, verts).len() ==> contains_spec(
                bbox,
                flat_under(n, polys, verts)[k],
            )),
        ShieldNode::Leaf { bbox, poly_list } => forall|k: int|
            0 <= k < tri_flat(poly_list@, polys, verts).len() ==> contains_spec(
                bbox,
                tri_flat(poly_list@, polys, verts)[k],
            ),
    }
}

/// Every leaf of the tree holds exactly one triangle id (the shape the
/// builder produces from a non-empty input).
pub open spec fn leaves_single_id(n: ShieldNode) -> bool
    decreases n,
{
    match n {
        ShieldNode::Split { front, back, .. } => leaves_single_id(*front) && leaves_single_id(
            *back,
        ),
        ShieldNode::Leaf { poly_list, .. } => poly_list@.len() == 1,
    }
}

/// Everything the shield tree builder guarantees of its result: tight boxes,
/// in-range ids, the id multiset exactly the input triangle ids (so the leaf
/// count equals the triangle count), one id per leaf when the input is
/// non-empty, and the single empty leaf with the all-zero box when it is
/// empty.
pub open spec fn built_shield_tree(
    n: ShieldNode,
    polys: Seq<ShieldPolygon>,
    verts: Seq<Vec3d>,
) -> bool {
    &&& shield_tight(n, polys, verts)
    &&& sh_node_ids_ok(n, polys.len())
    &&& ids_under(n).to_multiset() == Seq::new(
        polys.len(),
        |i: int| PolygonId(i as u32),
    ).to_multiset()
    &&& ids_under(n).len() == polys.len()
    &&& (polys.len() > 0 ==> leaves_single_id(n))
    &&& (polys.len() == 0 ==> (n matches ShieldNode::Leaf { bbox, poly_list }
        && bbox == crate::bbox::zero_bbox() && poly_list@.len() == 0))
}

/// A triangle's vertex ids all refer inside the vertex pool.
pub open spec fn sp_ids_ok(p: ShieldPolygon, nverts: nat) -> bool {
    p.verts.0.0 < nverts && p.verts.1.0 < nverts && p.verts.2.0 < nverts
}

/// A leaf list's triangle ids all refer inside the polygon array.
pub open spec fn list_ids_ok(list: Seq<PolygonId>, npolys: nat) -> bool {
    forall|i: int| 0 <= i < list.len() ==> list[i].0 < npolys
}

/// Every leaf list of the tree refers inside the polygon array.
pub open spec fn sh_node_ids_ok(n: ShieldNode, npolys: nat) -> bool {
    list_ids_ok(ids_under(n), npolys)
}

/// The bounding-box-only recomputation for the shield tree: each leaf's box
/// is refolded from the empty box over its triangles' corners (no padding),
/// each split's box from the empty box over its children's recomputed boxes.
pub open spec fn shield_recalc_spec(
    n: ShieldNode,
    polys: Seq<ShieldPolygon>,
    verts: Seq<Vec3d>,
) -> ShieldNode
    decreases n,
{
    match n {
        ShieldNode::Split { bbox, front, back } => {
            let f = shield_recalc_spec(*front, polys, verts);
            let b = shield_recalc_spec(*back, polys, verts);
            ShieldNode::Split {
                bbox: expand_bbox_spec(
                    expand_bbox_spec(empty_bbox(), sh_bbox_of(f)),
                    sh_bbox_of(b),
                ),
                front: Box::new(f),
                back: Box::new(b),
            }
        },
        ShieldNode::Leaf { bbox, poly_list } => ShieldNode::Leaf {
            bbox: from_vectors_spec(tri_flat(poly_list@, polys, verts)),
            poly_list,
        },
    }
}

/// Law: the shield box recomputation is idempotent — a second pass finds
/// every box already at its recomputed value.
pub proof fn lemma_shield_recalc_idempotent(
    n: ShieldNode,
    polys: Seq<ShieldPolygon>,
    verts: Seq<Vec3d>,
)
    ensures
        shield_recalc_spec(shield_recalc_spec(n, polys, verts), polys, verts)
            == shield_recalc_spec(n, polys, verts),
    decreases n,
{
    match n {
        ShieldNode::Split { bbox, front, back } => {
            lemma_shield_recalc_idempotent(*front, polys, verts);
            lemma_shield_recalc_idempotent(*back, polys, verts);
        },
        ShieldNode::Leaf { .. } => {},
    }
}

/// Every box the shield recomputation produces has non-NaN corners.
pub proof fn lemma_shield_recalc_corners_ok(
    n: ShieldNode,
    polys: Seq<ShieldPolygon>,
    verts: Seq<Vec3d>,
)
    ensures
        corners_ok(sh_bbox_of(shield_recalc_spec(n, polys, verts))),
    decreases n,
{
    match n {
        ShieldNode::Split { bbox, front, back } => {
            lemma_shield_recalc_corners_ok(*front, polys, verts);
            lemma_shield_recalc_corners_ok(*back, polys, verts);
            lemma_empty_corners_ok();
            let f = shield_recalc_spec(*front, polys, verts);
            let b = shield_recalc_spec(*back, polys, verts);
            lemma_expand_bbox_grows(empty_bbox(), sh_bbox_of(f));
            lemma_expand_bbox_grows(expand_bbox_spec(empty_bbox(), sh_bbox_of(f)), sh_bbox_of(b));
        },
        ShieldNode::Leaf { bbox, poly_list } => {
            lemma_from_vectors_props(tri_flat(poly_list@, polys, verts));
        },
    }
}

/// Law: after a shield box recomputation the tree is tight — every node's
/// box contains every triangle corner beneath it.
pub proof fn lemma_shield_recalc_tight(
    n: ShieldNode,
    polys: Seq<ShieldPolygon>,
    verts: Seq<Vec3d>,
)
    ensures
        shield_tight(shield_recalc_spec(n, polys, verts), polys, verts),
    decreases n,
{
    match n {
        ShieldNode::Split { bbox, front, back } => {
            lemma_shield_recalc_tight(*front, polys, verts);
            lemma_shield_recalc_tight(*back, polys, verts);
            lemma_shield_recalc_corners_ok(*front, polys, verts);
            lemma_shield_recalc_corners_ok(*back, polys, verts);
            lemma_empty_corners_ok();
            let f = shield_recalc_spec(*front, polys, verts);
            let b = shield_recalc_spec(*back, polys, verts);
            let e1 = expand_bbox_spec(empty_bbox(), sh_bbox_of(f));
            let nb = expand_bbox_spec(e1, sh_bbox_of(b));
            let r = shield_recalc_spec(n, polys, verts);
            lemma_expand_bbox_grows(empty_bbox(), sh_bbox_of(f));
            lemma_expand_bbox_grows(e1, sh_bbox_of(b));
            lemma_expand_bbox_keeps(e1, sh_bbox_of(b), sh_bbox_of(f));
            assert(encloses_spec(nb, sh_bbox_of(f)));
            assert(encloses_spec(nb, sh_bbox_of(b)));
            assert(flat_under(r, polys, verts) =~= flat_under(f, polys, verts) + flat_under(
                b,
                polys,
                verts,
            ));
            assert forall|k: int| 0 <= k < flat_under(r, polys, verts).len() implies contains_spec(
                nb,
                flat_under(r, polys, verts)[k],
            ) by {
                let fl = flat_under(f, polys, verts);
                let bl = flat_under(b, polys, verts);
                if k < fl.len() {
                    lemma_flat_under_contained(f, polys, verts, k);
                    lemma_encloses_contains(nb, sh_bbox_of(f), fl[k]);
                } else {
                    lemma_flat_under_contained(b, polys, verts, k - fl.len());
                    lemma_encloses_contains(nb, sh_bbox_of(b), bl[k - fl.len()]);
                }
            }
        },
        ShieldNode::Leaf { bbox, poly_list } => {
            lemma_from_vectors_props(tri_flat(poly_list@, polys, verts));
        },
    }
}

/// In a tight tree, a node's own box contains everything beneath it.
proof fn lemma_flat_under_contained(
    n: ShieldNode,
    polys: Seq<ShieldPolygon>,
    verts: Seq<Vec3d>,
    k: int,
)
    requires
        shield_tight(n, polys, verts),
        0 <= k < flat_under(n, polys, verts).len(),
    ensures
        contains_spec(sh_bbox_of(n), flat_under(n, polys, verts)[k]),
    decreases n,
{
    match n {
        ShieldNode::Split { .. } => {},
        ShieldNode::Leaf { .. } => {},
    }
}

impl ShieldNode {
    /// The box this node advertises.
    pub fn bbox(&self) -> (r: BoundingBox)
        ensures
            r == sh_bbox_of(*self),
    {
        match self {
            ShieldNode::Split { bbox, .. } => *bbox,
            ShieldNode::Leaf { bbox, .. } => *bbox,
        }
    }

    /// The number of triangle ids stored at the leaves beneath this node.
    pub fn id_count(&self) -> (r: usize)
        requires
            ids_under(*self).len() <= usize::MAX,
        ensures
            r == ids_under(*self).len(),
        decreases *self,
    {
        match self {
            ShieldNode::Split { front, back, .. } => front.id_count() + back.id_count(),
            ShieldNode::Leaf { poly_list, .. } => poly_list.len(),
        }
    }
}

/// Working data for one triangle during shield tree construction.
#[derive(Clone, Copy)]
struct ShieldPolyInfo {
    id: PolygonId,
    bbox: BoundingBox,
    center: Vec3d,
}

spec fn sh_ids_of(s: Seq<ShieldPolyInfo>) -> Seq<PolygonId> {
    s.map_values(|x: ShieldPolyInfo| x.id)
}

spec fn sh_info_wf(x: ShieldPolyInfo, polys: Seq<ShieldPolygon>, verts: Seq<Vec3d>) -> bool {
    corners_ok(x.bbox) && x.id.0 < polys.len() && (forall|k: int|
        0 <= k < 3 ==> contains_spec(x.bbox, tri_positions(polys[x.id.0 as int], verts)[k]))
}

spec fn sh_infos_wf(
    s: Seq<ShieldPolyInfo>,
    polys: Seq<ShieldPolygon>,
    verts: Seq<Vec3d>,
) -> bool {
    forall|i: int| 0 <= i < s.len() ==> sh_info_wf(#[trigger] s[i], polys, verts)
}

/// Sorts working records by their centroid's component on one axis, earliest
/// minimum first; the record and id multisets are preserved.
fn sort_shield_infos(infos: Vec<ShieldPolyInfo>, axis: crate::bbox::Axis) -> (r: Vec<
    ShieldPolyInfo,
>)
    ensures
        r@.to_multiset() == infos@.to_multiset(),
        sh_ids_of(r@).to_multiset() == sh_ids_of(infos@).to_multiset(),
        r@.len() == infos@.len(),
{
    broadcast use vstd::seq_lib::group_to_multiset_ensures;

    let mut work = infos;
    let ghost whole = work@;
    let mut out: Vec<ShieldPolyInfo> = Vec::new();
    while work.len() > 0
        invariant
            out@.to_multiset().add(work@.to_multiset()) == whole.to_multiset(),
            sh_ids_of(out@).to_multiset().add(sh_ids_of(work@).to_multiset()) == sh_ids_of(
                whole,
            ).to_multiset(),
            out@.len() + work@.len() == whole.len(),
        decreases work@.len(),
    {
        let mut min_j: usize = 0;
        let mut j: usize = 1;
        while j < work.len()
            invariant
                0 <= min_j < work@.len(),
                1 <= j <= work@.len(),
            decreases work@.len() - j,
        {
            if work[j].center.component(axis).lt(work[min_j].center.component(axis)) {
                min_j = j;
            }
            j += 1;
        }
        let ghost old_out = out@;
        let ghost old_work = work@;
        let item = work.remove(min_j);
        out.push(item);
        proof {
            assert(old_work.contains(item));
            to_multiset_contains(old_work, item);
            to_multiset_build(old_out, item);
            to_multiset_remove(old_work, min_j as int);
            assert(out@.to_multiset().add(work@.to_multiset()) =~= whole.to_multiset());
            assert(sh_ids_of(old_work)[min_j as int] == item.id);
            assert(sh_ids_of(old_work).contains(item.id));
            to_multiset_contains(sh_ids_of(old_work), item.id);
            assert(sh_ids_of(work@) =~= sh_ids_of(old_work).remove(min_j as int));
            to_multiset_remove(sh_ids_of(old_work), min_j as int);
            assert(sh_ids_of(out@) =~= sh_ids_of(old_out).push(item.id));
            to_multiset_build(sh_ids_of(old_out), item.id);
            assert(sh_ids_of(out@).to_multiset().add(sh_ids_of(work@).to_multiset())
                =~= sh_ids_of(whole).to_multiset());
        }
    }
    out
}

proof fn lemma_sh_ids_member(infos: Seq<ShieldPolyInfo>, ids: Seq<PolygonId>, i: int)
    requires
        ids.to_multiset() == sh_ids_of(infos).to_multiset(),
        0 <= i < ids.len(),
    ensures
        exists|j: int| 0 <= j < infos.len() && (#[trigger] infos[j]).id == ids[i],
{
    let p = ids[i];
    assert(ids.contains(p));
    to_multiset_contains(ids, p);
    to_multiset_contains(sh_ids_of(infos), p);
    assert(sh_ids_of(infos).contains(p));
    let j = choose|j: int| 0 <= j < sh_ids_of(infos).len() && #[trigger] sh_ids_of(infos)[j] == p;
    assert(infos[j].id == p);
}

/// The recursive median split for the shield: one record becomes a
/// single-id leaf; more records are bounded, sorted on the axis of greatest
/// extent, and halved.
fn shield_recurse(infos: Vec<ShieldPolyInfo>, Ghost(polys): Ghost<Seq<ShieldPolygon>>, Ghost(
    verts,
): Ghost<Seq<Vec3d>>) -> (r: ShieldNode)
    requires
        infos@.len() >= 1,
        sh_infos_wf(infos@, polys, verts),
    ensures
        shield_tight(r, polys, verts),
        sh_node_ids_ok(r, polys.len()),
        ids_under(r).to_multiset() == sh_ids_of(infos@).to_multiset(),
        ids_under(r).len() == infos@.len(),
        leaves_single_id(r),
    decreases infos@.len(),
{
    if infos.len() == 1 {
        let mut infos = infos;
        let ghost whole1 = infos@;
        let info = infos.pop().unwrap();
        let mut poly_list: Vec<PolygonId> = Vec::new();
        poly_list.push(info.id);
        let r = ShieldNode::Leaf { bbox: info.bbox, poly_list };
        proof {
            assert(sh_info_wf(info, polys, verts));
            assert(ids_under(r) =~= Seq::empty().push(info.id));
            assert(sh_ids_of(whole1) =~= Seq::empty().push(info.id));
            let list = ids_under(r);
            assert(tri_flat(list, polys, verts) =~= tri_flat(list.drop_last(), polys, verts)
                + tri_positions(polys[info.id.0 as int], verts));
            assert(tri_flat(list.drop_last(), polys, verts) =~= Seq::empty());
            assert forall|k: int|
                0 <= k < tri_flat(list, polys, verts).len() implies contains_spec(
                info.bbox,
                tri_flat(list, polys, verts)[k],
            ) by {
                assert(tri_flat(list, polys, verts)[k] == tri_positions(
                    polys[info.id.0 as int],
                    verts,
                )[k]);
            }
        }
        r
    } else {
        let ghost whole = infos@;
        let mut boxes: Vec<BoundingBox> = Vec::new();
        let mut i: usize = 0;
        while i < infos.len()
            invariant
                0 <= i <= infos@.len(),
                sh_infos_wf(infos@, polys, verts),
                boxes@.len() == i,
                forall|j: int| 0 <= j < i ==> boxes@[j] == infos@[j].bbox,
            decreases infos@.len() - i,
        {
            boxes.push(infos[i].bbox);
            i += 1;
        }
        let ubox = BoundingBox::from_bboxes(&boxes);
        let bbox = ubox.pad();
        let axis = bbox.greatest_dimension();
        let mut front_part = sort_shield_infos(infos, axis);
        let ghost sorted = front_part@;
        let halfpoint = front_part.len() / 2;
        let back_part = front_part.split_off(halfpoint);
        proof {
            assert(sorted =~= front_part@ + back_part@);
            assert(sh_ids_of(sorted) =~= sh_ids_of(front_part@) + sh_ids_of(back_part@));
            lemma_multiset_commutative(front_part@, back_part@);
            lemma_multiset_commutative(sh_ids_of(front_part@), sh_ids_of(back_part@));
            assert forall|j: int| 0 <= j < sorted.len() implies sh_info_wf(
                #[trigger] sorted[j],
                polys,
                verts,
            ) by {
                let x = sorted[j];
                assert(sorted.contains(x));
                to_multiset_contains(sorted, x);
                to_multiset_contains(whole, x);
                assert(whole.contains(x));
                let k2 = choose|k2: int| 0 <= k2 < whole.len() && #[trigger] whole[k2] == x;
                assert(sh_info_wf(whole[k2], polys, verts));
            }
            assert forall|j: int| 0 <= j < front_part@.len() implies sh_info_wf(
                #[trigger] front_part@[j],
                polys,
                verts,
            ) by {
                assert(sorted[j] == front_part@[j]);
            }
            assert forall|j: int| 0 <= j < back_part@.len() implies sh_info_wf(
                #[trigger] back_part@[j],
                polys,
                verts,
            ) by {
                assert(sorted[front_part@.len() + j] == back_part@[j]);
            }
        }
        let front = shield_recurse(front_part, Ghost(polys), Ghost(verts));
        let back = shield_recurse(back_part, Ghost(polys), Ghost(verts));
        let r = ShieldNode::Split { bbox, front: Box::new(front), back: Box::new(back) };
        proof {
            assert(ids_under(r) =~= ids_under(front) + ids_under(back));
            lemma_multiset_commutative(ids_under(front), ids_under(back));
            assert(ids_under(r).to_multiset() =~= sh_ids_of(whole).to_multiset());
            lemma_shield_split_facts(r, front, back, bbox, ubox, whole, boxes@, polys, verts);
        }
        r
    }
}

/// Containment facts for a freshly assembled shield split node.
proof fn lemma_shield_split_facts(
    r: ShieldNode,
    front: ShieldNode,
    back: ShieldNode,
    bbox: BoundingBox,
    ubox: BoundingBox,
    whole: Seq<ShieldPolyInfo>,
    boxes: Seq<BoundingBox>,
    polys: Seq<ShieldPolygon>,
    verts: Seq<Vec3d>,
)
    requires
        r == (ShieldNode::Split { bbox, front: Box::new(front), back: Box::new(back) }),
        shield_tight(front, polys, verts),
        shield_tight(back, polys, verts),
        sh_node_ids_ok(front, polys.len()),
        sh_node_ids_ok(back, polys.len()),
        sh_infos_wf(whole, polys, verts),
        boxes.len() == whole.len(),
        forall|j: int| 0 <= j < whole.len() ==> boxes[j] == whole[j].bbox,
        corners_ok(ubox),
        forall|i: int| 0 <= i < boxes.len() && corners_ok(boxes[i]) ==> encloses_spec(ubox, boxes[i]),
        corners_ok(ubox) ==> corners_ok(bbox) && encloses_spec(bbox, ubox),
        ids_under(front).to_multiset().add(ids_under(back).to_multiset()) == sh_ids_of(
            whole,
        ).to_multiset(),
    ensures
        shield_tight(r, polys, verts),
        sh_node_ids_ok(r, polys.len()),
{
    let all = ids_under(front) + ids_under(back);
    assert(ids_under(r) =~= all);
    lemma_multiset_commutative(ids_under(front), ids_under(back));
    assert forall|i: int| 0 <= i < all.len() implies (#[trigger] all[i]).0 < polys.len() by {
        lemma_sh_ids_member(whole, all, i);
    }
    assert forall|k: int| 0 <= k < flat_under(r, polys, verts).len() implies contains_spec(
        bbox,
        flat_under(r, polys, verts)[k],
    ) by {
        lemma_flat_in_split(r, front, back, bbox, ubox, whole, boxes, polys, verts, k);
    }
}

proof fn lemma_flat_in_split(
    r: ShieldNode,
    front: ShieldNode,
    back: ShieldNode,
    bbox: BoundingBox,
    ubox: BoundingBox,
    whole: Seq<ShieldPolyInfo>,
    boxes: Seq<BoundingBox>,
    polys: Seq<ShieldPolygon>,
    verts: Seq<Vec3d>,
    k: int,
)
    requires
        r == (ShieldNode::Split { bbox, front: Box::new(front), back: Box::new(back) }),
        shield_tight(front, polys, verts),
        shield_tight(back, polys, verts),
        sh_infos_wf(whole, polys, verts),
        boxes.len() == whole.len(),
        forall|j: int| 0 <= j < whole.len() ==> boxes[j] == whole[j].bbox,
        corners_ok(ubox),
        forall|i: int| 0 <= i < boxes.len() && corners_ok(boxes[i]) ==> encloses_spec(ubox, boxes[i]),
        corners_ok(bbox) && encloses_spec(bbox, ubox),
        ids_under(front).to_multiset().add(ids_under(back).to_multiset()) == sh_ids_of(
            whole,
        ).to_multiset(),
        0 <= k < flat_under(r, polys, verts).len(),
    ensures
        contains_spec(bbox, flat_under(r, polys, verts)[k]),
{
    let all = ids_under(front) + ids_under(back);
    lemma_multiset_commutative(ids_under(front), ids_under(back));
    let fl = flat_under(front, polys, verts);
    let bl = flat_under(back, polys, verts);
    assert(flat_under(r, polys, verts) =~= fl + bl);
    let v = flat_under(r, polys, verts)[k];
    // locate the triangle the position belongs to, then bound it by its
    // working box, the union box, and finally the padded split box
    let (idx, id, j) = if k < fl.len() {
        let w = lemma_flat_decompose(front, polys, verts, k);
        assert(all[w.0] == ids_under(front)[w.0]);
        (w.0, ids_under(front)[w.0], w.1)
    } else {
        let w = lemma_flat_decompose(back, polys, verts, k - fl.len());
        let i2 = ids_under(front).len() + w.0;
        assert(all[i2] == ids_under(back)[w.0]);
        (i2, ids_under(back)[w.0], w.1)
    };
    lemma_sh_ids_member(whole, all, idx);
    let w2 = choose|w2: int| 0 <= w2 < whole.len() && (#[trigger] whole[w2]).id == id;
    assert(sh_info_wf(whole[w2], polys, verts));
    assert(corners_ok(whole[w2].bbox));
    assert(boxes[w2] == whole[w2].bbox);
    assert(encloses_spec(ubox, whole[w2].bbox));
    lemma_encloses_trans(bbox, ubox, whole[w2].bbox);
    assert(contains_spec(whole[w2].bbox, tri_positions(polys[id.0 as int], verts)[j]));
    lemma_encloses_contains(bbox, whole[w2].bbox, v);
}

/// Every flattened position beneath a node is a corner of some triangle id
/// stored beneath it; the returned pair names the id's index and the corner.
proof fn lemma_flat_decompose(n: ShieldNode, polys: Seq<ShieldPolygon>, verts: Seq<Vec3d>, k: int) -> (w: (
    int,
    int,
))
    requires
        0 <= k < flat_under(n, polys, verts).len(),
    ensures
        0 <= w.0 < ids_under(n).len(),
        0 <= w.1 < 3,
        flat_under(n, polys, verts)[k] == tri_positions(
            polys[ids_under(n)[w.0].0 as int],
            verts,
        )[w.1],
    decreases n,
{
    match n {
        ShieldNode::Split { front, back, .. } => {
            let fl = flat_under(*front, polys, verts);
            let bl = flat_under(*back, polys, verts);
            assert(flat_under(n, polys, verts) =~= fl + bl);
            assert(ids_under(n) =~= ids_under(*front) + ids_under(*back));
            if k < fl.len() {
                let w = lemma_flat_decompose(*front, polys, verts, k);
                assert(ids_under(n)[w.0] == ids_under(*front)[w.0]);
                w
            } else {
                let w = lemma_flat_decompose(*back, polys, verts, k - fl.len());
                let i2 = ids_under(*front).len() + w.0;
                assert(ids_under(n)[i2] == ids_under(*back)[w.0]);
                (i2, w.1)
            }
        },
        ShieldNode::Leaf { poly_list, .. } => {
            lemma_tri_flat_decompose(poly_list@, polys, verts, k)
        },
    }
}

proof fn lemma_tri_flat_decompose(
    list: Seq<PolygonId>,
    polys: Seq<ShieldPolygon>,
    verts: Seq<Vec3d>,
    k: int,
) -> (w: (int, int))
    requires
        0 <= k < tri_flat(list, polys, verts).len(),
    ensures
        0 <= w.0 < list.len(),
        0 <= w.1 < 3,
        tri_flat(list, polys, verts)[k] == tri_positions(polys[list[w.0].0 as int], verts)[w.1],
    decreases list.len(),
{
    let fl = tri_flat(list, polys, verts);
    let prev = tri_flat(list.drop_last(), polys, verts);
    if k < prev.len() {
        let w = lemma_tri_flat_decompose(list.drop_last(), polys, verts, k);
        assert(list[w.0] == list.drop_last()[w.0]);
        assert(fl[k] == prev[k]);
        w
    } else {
        let i = list.len() - 1;
        let j = k - prev.len();
        assert(fl[k] == tri_positions(polys[list[i].0 as int], verts)[j]);
        (i, j)
    }
}

/// The whole-model collision shield: its vertex pool, flat triangle array,
/// and (optionally) the partition tree built over it.
#[derive(Debug)]
pub struct ShieldData {
    pub verts: Vec<Vec3d>,
    pub polygons: Vec<ShieldPolygon>,
    pub collision_tree: Option<ShieldNode>,
}

impl ShieldData {
    /// Builds the shield partition tree from scratch: each triangle is
    /// bounded (padded by the fixed epsilon) and centered, and the records
    /// are median-split on the axis of greatest extent. The ids stored at
    /// the leaves are exactly the input triangle ids, one leaf per triangle;
    /// an empty input yields one leaf with no ids and the all-zero box.
    pub fn recalculate_tree(verts: &Vec<Vec3d>, polygons: &Vec<ShieldPolygon>) -> (r: ShieldNode)
        requires
            forall|i: int| 0 <= i < polygons@.len() ==> sp_ids_ok(#[trigger] polygons@[i], verts@.len()),
            polygons@.len() <= u32::MAX,
        ensures
            built_shield_tree(r, polygons@, verts@),
    {
        let ghost idseq = Seq::new(polygons@.len(), |i: int| PolygonId(i as u32));
        let mut infos: Vec<ShieldPolyInfo> = Vec::new();
        let mut i: usize = 0;
        while i < polygons.len()
            invariant
                0 <= i <= polygons@.len(),
                polygons@.len() <= u32::MAX,
                forall|j: int|
                    0 <= j < polygons@.len() ==> sp_ids_ok(#[trigger] polygons@[j], verts@.len()),
                infos@.len() == i,
                sh_infos_wf(infos@, polygons@, verts@),
                forall|j: int| 0 <= j < i ==> (#[trigger] infos@[j]).id == PolygonId(j as u32),
            decreases polygons@.len() - i,
        {
            let p = &polygons[i];
            let mut pos: Vec<Vec3d> = Vec::new();
            pos.push(verts[p.verts.0.0 as usize]);
            pos.push(verts[p.verts.1.0 as usize]);
            pos.push(verts[p.verts.2.0 as usize]);
            proof {
                assert(pos@ =~= tri_positions(polygons@[i as int], verts@));
            }
            let ubox = BoundingBox::from_vectors(&pos);
            let bbox = ubox.pad();
            let center = Vec3d::average(&pos);
            proof {
                assert forall|k: int| 0 <= k < 3 implies contains_spec(
                    bbox,
                    tri_positions(polygons@[i as int], verts@)[k],
                ) by {
                    assert(contains_spec(ubox, pos@[k]));
                    lemma_encloses_contains(bbox, ubox, pos@[k]);
                }
            }
            let info = ShieldPolyInfo { id: PolygonId(i as u32), bbox, center };
            proof {
                assert(sh_info_wf(info, polygons@, verts@));
            }
            infos.push(info);
            i += 1;
        }
        if infos.len() == 0 {
            let r = ShieldNode::Leaf { bbox: BoundingBox::zero(), poly_list: Vec::new() };
            proof {
                assert(ids_under(r) =~= idseq);
                assert(tri_flat(ids_under(r), polygons@, verts@) =~= Seq::empty());
            }
            r
        } else {
            proof {
                assert(sh_ids_of(infos@) =~= idseq);
            }
            shield_recurse(infos, Ghost(polygons@), Ghost(verts@))
        }
    }

    /// Recomputes every box of the collision tree (when one exists) from the
    /// vertex pool, without padding; topology and id lists are untouched.
    pub fn recalculate_bboxes(&mut self)
        requires
            old(self).collision_tree matches Some(t) ==> sh_node_ids_ok(
                t,
                old(self).polygons@.len(),
            ),
            forall|i: int|
                0 <= i < old(self).polygons@.len() ==> sp_ids_ok(
                    #[trigger] old(self).polygons@[i],
                    old(self).verts@.len(),
                ),
        ensures
            final(self).verts == old(self).verts,
            final(self).polygons == old(self).polygons,
            (match old(self).collision_tree {
                Some(t) => final(self).collision_tree matches Some(t2) && t2 == shield_recalc_spec(
                    t,
                    old(self).polygons@,
                    old(self).verts@,
                ),
                None => final(self).collision_tree is None,
            }),
    {
        let mut tree = None;
        core::mem::swap(&mut self.collision_tree, &mut tree);
        match tree {
            Some(t) => {
                let t2 = shield_recalc_node(t, &self.polygons, &self.verts);
                let mut nt = Some(t2);
                core::mem::swap(&mut self.collision_tree, &mut nt);
            },
            None => {},
        }
    }
}

/// What a whole-model transform does to the shield: every vertex through the
/// full matrix, every face normal through the rotation-only derivative (no
/// renormalization), ids untouched, and every box refolded over the new
/// positions.
pub open spec fn shield_xformed(a: ShieldData, b: ShieldData, m: Mat4) -> bool {
    let rot = Mat4 { linear: rot_only_linear(m), translation: crate::vec3d::zero_vec() };
    &&& b.verts@.len() == a.verts@.len()
    &&& (forall|i: int|
        0 <= i < a.verts@.len() ==> #[trigger] b.verts@[i] == transform_point_spec(
            m,
            a.verts@[i],
        ))
    &&& b.polygons@.len() == a.polygons@.len()
    &&& (forall|i: int|
        0 <= i < a.polygons@.len() ==> #[trigger] b.polygons@[i] == (ShieldPolygon {
            normal: transform_point_spec(rot, a.polygons@[i].normal),
            ..a.polygons@[i]
        }))
    &&& (match a.collision_tree {
        Some(t) => b.collision_tree matches Some(t2) && t2 == shield_recalc_spec(
            t,
            b.polygons@,
            b.verts@,
        ),
        None => b.collision_tree is None,
    })
}

impl ShieldData {
    /// Applies a whole-model transform to the shield mesh: vertices through
    /// the full matrix, face normals through the rotation-only derivative,
    /// then a box-only recomputation of the collision tree over the moved
    /// vertices.
    pub fn apply_transform(&mut self, matrix: &Mat4)
        requires
            old(self).collision_tree matches Some(t) ==> sh_node_ids_ok(
                t,
                old(self).polygons@.len(),
            ),
            forall|i: int|
                0 <= i < old(self).polygons@.len() ==> sp_ids_ok(
                    #[trigger] old(self).polygons@[i],
                    old(self).verts@.len(),
                ),
        ensures
            shield_xformed(*old(self), *final(self), *matrix),
    {
        let mut new_verts: Vec<Vec3d> = Vec::new();
        let n = self.verts.len();
        let mut i: usize = 0;
        while i < n
            invariant
                0 <= i <= n,
                n == old(self).verts@.len(),
                *self == *old(self),
                new_verts@.len() == i,
                forall|j: int|
                    0 <= j < i ==> #[trigger] new_verts@[j] == transform_point_spec(
                        *matrix,
                        old(self).verts@[j],
                    ),
            decreases n - i,
        {
            new_verts.push(matrix.transform_point(self.verts[i]));
            i += 1;
        }
        let rot = matrix.rotation_only();
        let mut new_polys: Vec<ShieldPolygon> = Vec::new();
        let np = self.polygons.len();
        let mut k: usize = 0;
        while k < np
            invariant
                0 <= k <= np,
                np == old(self).polygons@.len(),
                *self == *old(self),
                rot.linear == rot_only_linear(*matrix),
                rot.translation == crate::vec3d::zero_vec(),
                new_polys@.len() == k,
                forall|j: int|
                    0 <= j < k ==> #[trigger] new_polys@[j] == (ShieldPolygon {
                        normal: transform_point_spec(
                            Mat4 {
                                linear: rot_only_linear(*matrix),
                                translation: crate::vec3d::zero_vec(),
                            },
                            old(self).polygons@[j].normal,
                        ),
                        ..old(self).polygons@[j]
                    }),
            decreases np - k,
        {
            let p = &self.polygons[k];
            new_polys.push(
                ShieldPolygon {
                    normal: rot.transform_point(p.normal),
                    verts: p.verts,
                    neighbors: p.neighbors,
                },
            );
            k += 1;
        }
        self.verts = new_verts;
        self.polygons = new_polys;
        self.recalculate_bboxes();
    }
}

fn shield_recalc_node(n: ShieldNode, polys: &Vec<ShieldPolygon>, verts: &Vec<Vec3d>) -> (r:
    ShieldNode)
    requires
        sh_node_ids_ok(n, polys@.len()),
        forall|i: int| 0 <= i < polys@.len() ==> sp_ids_ok(#[trigger] polys@[i], verts@.len()),
    ensures
        r == shield_recalc_spec(n, polys@, verts@),
    decreases n,
{
    match n {
        ShieldNode::Split { bbox, front, back } => {
            proof {
                assert(ids_under(n) =~= ids_under(*front) + ids_under(*back));
                assert forall|i: int| 0 <= i < ids_under(*front).len() implies (#[trigger] ids_under(
                    *front,
                )[i]).0 < polys@.len() by {
                    assert(ids_under(n)[i] == ids_under(*front)[i]);
                }
                assert forall|i: int| 0 <= i < ids_under(*back).len() implies (#[trigger] ids_under(
                    *back,
                )[i]).0 < polys@.len() by {
                    assert(ids_under(n)[ids_under(*front).len() + i] == ids_under(*back)[i]);
                }
            }
            let f = shield_recalc_node(*front, polys, verts);
            let b = shield_recalc_node(*back, polys, verts);
            let mut nb = BoundingBox::empty();
            let fb = f.bbox();
            let bb = b.bbox();
            nb.expand_bbox(&fb);
            nb.expand_bbox(&bb);
            ShieldNode::Split { bbox: nb, front: Box::new(f), back: Box::new(b) }
        },
        ShieldNode::Leaf { bbox, poly_list } => {
            let mut nb = BoundingBox::empty();
            let mut i: usize = 0;
            while i < poly_list.len()
                invariant
                    0 <= i <= poly_list@.len(),
                    list_ids_ok(poly_list@, polys@.len()),
                    forall|j: int|
                        0 <= j < polys@.len() ==> sp_ids_ok(#[trigger] polys@[j], verts@.len()),
                    nb == from_vectors_spec(
                        tri_flat(poly_list@.take(i as int), polys@, verts@),
                    ),
                decreases poly_list@.len() - i,
            {
                let pid = poly_list[i];
                let p = &polys[pid.0 as usize];
                let ghost base = tri_flat(poly_list@.take(i as int), polys@, verts@);
                let ghost tp = tri_positions(polys@[pid.0 as int], verts@);
                let ghost nb0 = nb;
                nb.expand_vec(verts[p.verts.0.0 as usize]);
                nb.expand_vec(verts[p.verts.1.0 as usize]);
                nb.expand_vec(verts[p.verts.2.0 as usize]);
                proof {
                    let whole = tri_flat(poly_list@.take(i + 1 as int), polys@, verts@);
                    assert(poly_list@.take(i + 1 as int).drop_last() =~= poly_list@.take(
                        i as int,
                    ));
                    assert(poly_list@.take(i + 1 as int).last() == poly_list@[i as int]);
                    assert(whole =~= base + tp);
                    assert((base + tp).drop_last() =~= base + seq![tp[0], tp[1]]);
                    assert((base + seq![tp[0], tp[1]]).drop_last() =~= base + seq![tp[0]]);
                    assert((base + seq![tp[0]]).drop_last() =~= base);
                    assert((base + seq![tp[0]]).last() == tp[0]);
                    assert((base + seq![tp[0], tp[1]]).last() == tp[1]);
                    assert((base + tp).last() == tp[2]);
                    assert(from_vectors_spec(base + seq![tp[0]]) == crate::bbox::expand_vec_spec(
                        from_vectors_spec(base),
                        tp[0],
                    ));
                    assert(from_vectors_spec(base + seq![tp[0], tp[1]])
                        == crate::bbox::expand_vec_spec(
                        from_vectors_spec(base + seq![tp[0]]),
                        tp[1],
                    ));
                    assert(from_vectors_spec(base + tp) == crate::bbox::expand_vec_spec(
                        from_vectors_spec(base + seq![tp[0], tp[1]]),
                        tp[2],
                    ));
                    assert(nb == crate::bbox::expand_vec_spec(
                        crate::bbox::expand_vec_spec(
                            crate::bbox::expand_vec_spec(nb0, tp[0]),
                            tp[1],
                        ),
                        tp[2],
                    ));
                }
                i += 1;
            }
            proof {
                assert(poly_list@.take(poly_list@.len() as int) =~= poly_list@);
            }
            ShieldNode::Leaf { bbox: nb, poly_list }
        },
    }
}

} // verus!
