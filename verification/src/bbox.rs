use vstd::prelude::*;

use crate::scalar::{
    add_bits, fmax_bits, fmin_bits, is_nan_bits, le_bits, lt_bits, mul_bits, order_key, sub_bits,
    Scalar, NEG_INF_BITS, PAD_BITS, POS_INF_BITS, ZERO_BITS,
};
use crate::vec3d::{inf_vec, neg_inf_vec, zero_vec, Vec3d};

verus! {

/// One of the three coordinate axes.
#[derive(Clone, Copy, Debug, PartialEq, Eq, Structural)]
pub enum Axis {
    X,
    Y,
    Z,
}

/// The component of a vector on an axis.
pub open spec fn component_spec(v: Vec3d, a: Axis) -> Scalar {
    match a {
        Axis::X => v.x,
        Axis::Y => v.y,
        Axis::Z => v.z,
    }
}

impl Vec3d {
    /// The component of the vector on an axis.
    pub fn component(&self, a: Axis) -> (r: Scalar)
        ensures
            r == component_spec(*self, a),
    {
        match a {
            Axis::X => self.x,
            Axis::Y => self.y,
            Axis::Z => self.z,
        }
    }
}

/// An axis-aligned box between a `min` and a `max` corner. The canonical
/// "empty" box has +infinity mins and -infinity maxes, distinct from the
/// all-zero box; a box with any max below its min is "inverted" and treated
/// as zero-volume.
#[derive(Clone, Copy, Debug, Default, PartialEq, Eq, Structural)]
pub struct BoundingBox {
    pub min: Vec3d,
    pub max: Vec3d,
}

/// The canonical empty box.
pub open spec fn empty_bbox() -> BoundingBox {
    BoundingBox { min: inf_vec(), max: neg_inf_vec() }
}

/// The all-zero box.
pub open spec fn zero_bbox() -> BoundingBox {
    BoundingBox { min: zero_vec(), max: zero_vec() }
}

/// Any max strictly below its min on some axis.
pub open spec fn is_inverted_spec(b: BoundingBox) -> bool {
    lt_bits(b.max.x.0, b.min.x.0) || lt_bits(b.max.y.0, b.min.y.0) || lt_bits(
        b.max.z.0,
        b.min.z.0,
    )
}

/// The corner grown toward the vector: componentwise NaN-ignoring minimum.
pub open spec fn expand_vec_spec(b: BoundingBox, v: Vec3d) -> BoundingBox {
    BoundingBox {
        min: Vec3d {
            x: Scalar(fmin_bits(b.min.x.0, v.x.0)),
            y: Scalar(fmin_bits(b.min.y.0, v.y.0)),
            z: Scalar(fmin_bits(b.min.z.0, v.z.0)),
        },
        max: Vec3d {
            x: Scalar(fmax_bits(b.max.x.0, v.x.0)),
            y: Scalar(fmax_bits(b.max.y.0, v.y.0)),
            z: Scalar(fmax_bits(b.max.z.0, v.z.0)),
        },
    }
}

/// The union step: the box grown to cover another box's corners.
pub open spec fn expand_bbox_spec(b: BoundingBox, o: BoundingBox) -> BoundingBox {
    BoundingBox {
        min: Vec3d {
            x: Scalar(fmin_bits(b.min.x.0, o.min.x.0)),
            y: Scalar(fmin_bits(b.min.y.0, o.min.y.0)),
            z: Scalar(fmin_bits(b.min.z.0, o.min.z.0)),
        },
        max: Vec3d {
            x: Scalar(fmax_bits(b.max.x.0, o.max.x.0)),
            y: Scalar(fmax_bits(b.max.y.0, o.max.y.0)),
            z: Scalar(fmax_bits(b.max.z.0, o.max.z.0)),
        },
    }
}

/// The tight bound of a sequence of vectors, folded front to back from the
/// empty box.
pub open spec fn from_vectors_spec(s: Seq<Vec3d>) -> BoundingBox
    decreases s.len(),
{
    if s.len() == 0 {
        empty_bbox()
    } else {
        expand_vec_spec(from_vectors_spec(s.drop_last()), s.last())
    }
}

/// The union of a sequence of boxes, folded front to back from the empty box.
pub open spec fn from_bboxes_spec(s: Seq<BoundingBox>) -> BoundingBox
    decreases s.len(),
{
    if s.len() == 0 {
        empty_bbox()
    } else {
        expand_bbox_spec(from_bboxes_spec(s.drop_last()), s.last())
    }
}

/// The box grown by the 0.01 padding epsilon on every side.
pub open spec fn pad_spec(b: BoundingBox) -> BoundingBox {
    BoundingBox {
        min: Vec3d {
            x: Scalar(sub_bits(b.min.x.0, PAD_BITS)),
            y: Scalar(sub_bits(b.min.y.0, PAD_BITS)),
            z: Scalar(sub_bits(b.min.z.0, PAD_BITS)),
        },
        max: Vec3d {
            x: Scalar(add_bits(b.max.x.0, PAD_BITS)),
            y: Scalar(add_bits(b.max.y.0, PAD_BITS)),
            z: Scalar(add_bits(b.max.z.0, PAD_BITS)),
        },
    }
}

/// IEEE containment test: a point escapes only by comparing strictly below
/// the min or above the max on some axis, so a NaN component never escapes.
pub open spec fn contains_spec(b: BoundingBox, v: Vec3d) -> bool {
    &&& !lt_bits(v.x.0, b.min.x.0) && !lt_bits(b.max.x.0, v.x.0)
    &&& !lt_bits(v.y.0, b.min.y.0) && !lt_bits(b.max.y.0, v.y.0)
    &&& !lt_bits(v.z.0, b.min.z.0) && !lt_bits(b.max.z.0, v.z.0)
}

/// One box enclosing another: every coordinate of the outer box at or beyond
/// the inner box's.
pub open spec fn encloses_spec(outer: BoundingBox, inner: BoundingBox) -> bool {
    &&& le_bits(outer.min.x.0, inner.min.x.0) && le_bits(inner.max.x.0, outer.max.x.0)
    &&& le_bits(outer.min.y.0, inner.min.y.0) && le_bits(inner.max.y.0, outer.max.y.0)
    &&& le_bits(outer.min.z.0, inner.min.z.0) && le_bits(inner.max.z.0, outer.max.z.0)
}

/// All six corner scalars are non-NaN (the invariant every box built by
/// folding from the empty box enjoys).
pub open spec fn corners_ok(b: BoundingBox) -> bool {
    &&& !is_nan_bits(b.min.x.0) && !is_nan_bits(b.min.y.0) && !is_nan_bits(b.min.z.0)
    &&& !is_nan_bits(b.max.x.0) && !is_nan_bits(b.max.y.0) && !is_nan_bits(b.max.z.0)
}

/// The empty-sentinel replaced by the all-zero box (the wire format cannot
/// express the sentinel).
pub open spec fn sanitize_spec(b: BoundingBox) -> BoundingBox {
    if b == empty_bbox() {
        zero_bbox()
    } else {
        b
    }
}

/// `sub` on one axis, `max - min`.
pub open spec fn size_on_axis_spec(b: BoundingBox, a: Axis) -> u32 {
    sub_bits(component_spec(b.max, a).0, component_spec(b.min, a).0)
}

/// The axis a `max_by` over (x, y, z) extents selects: a later axis wins
/// unless a strictly greater extent was already seen.
pub open spec fn greatest_dimension_spec(b: BoundingBox) -> Axis {
    let sx = size_on_axis_spec(b, Axis::X);
    let sy = size_on_axis_spec(b, Axis::Y);
    let sz = size_on_axis_spec(b, Axis::Z);
    let xy = if lt_bits(sy, sx) {
        Axis::X
    } else {
        Axis::Y
    };
    if lt_bits(sz, if lt_bits(sy, sx) { sx } else { sy }) {
        xy
    } else {
        Axis::Z
    }
}

/// Zero for an inverted box, else the product of the three extents.
pub open spec fn volume_spec(b: BoundingBox) -> u32 {
    if is_inverted_spec(b) {
        ZERO_BITS
    } else {
        mul_bits(
            mul_bits(
                sub_bits(b.max.x.0, b.min.x.0),
                sub_bits(b.max.y.0, b.min.y.0),
            ),
            sub_bits(b.max.z.0, b.min.z.0),
        )
    }
}

impl BoundingBox {
    /// The all-zero box.
    pub fn zero() -> (r: BoundingBox)
        ensures
            r == zero_bbox(),
    {
        BoundingBox { min: Vec3d::zero(), max: Vec3d::zero() }
    }

    /// The canonical empty box: +infinity mins, -infinity maxes.
    pub fn empty() -> (r: BoundingBox)
        ensures
            r == empty_bbox(),
    {
        BoundingBox { min: Vec3d::infinity(), max: Vec3d::neg_infinity() }
    }

    pub fn is_inverted(&self) -> (r: bool)
        ensures
            r == is_inverted_spec(*self),
    {
        self.max.x.lt(self.min.x) || self.max.y.lt(self.min.y) || self.max.z.lt(self.min.z)
    }

    pub fn volume(&self) -> (r: Scalar)
        ensures
            r.0 == volume_spec(*self),
    {
        if self.is_inverted() {
            Scalar(ZERO_BITS)
        } else {
            self.max.x.fsub(self.min.x).fmul(self.max.y.fsub(self.min.y)).fmul(
                self.max.z.fsub(self.min.z),
            )
        }
    }

    pub fn x_width(&self) -> (r: Scalar)
        ensures
            r.0 == sub_bits(self.max.x.0, self.min.x.0),
    {
        self.max.x.fsub(self.min.x)
    }

    pub fn y_height(&self) -> (r: Scalar)
        ensures
            r.0 == sub_bits(self.max.y.0, self.min.y.0),
    {
        self.max.y.fsub(self.min.y)
    }

    pub fn z_length(&self) -> (r: Scalar)
        ensures
            r.0 == sub_bits(self.max.z.0, self.min.z.0),
    {
        self.max.z.fsub(self.min.z)
    }

    pub fn size_on_axis(&self, axis: Axis) -> (r: Scalar)
        ensures
            r.0 == size_on_axis_spec(*self, axis),
    {
        self.max.component(axis).fsub(self.min.component(axis))
    }

    /// The axis of greatest extent (a later axis wins ties, mirroring a
    /// `max_by` fold over x, y, z).
    pub fn greatest_dimension(&self) -> (r: Axis)
        ensures
            r == greatest_dimension_spec(*self),
    {
        let sx = self.size_on_axis(Axis::X);
        let sy = self.size_on_axis(Axis::Y);
        let sz = self.size_on_axis(Axis::Z);
        let (best, size) = if sy.lt(sx) {
            (Axis::X, sx)
        } else {
            (Axis::Y, sy)
        };
        if sz.lt(size) {
            best
        } else {
            Axis::Z
        }
    }

    /// Grows the box to cover a point.
    pub fn expand_vec(&mut self, vec: Vec3d)
        ensures
            *final(self) == expand_vec_spec(*old(self), vec),
    {
        self.min.x = self.min.x.fmin(vec.x);
        self.min.y = self.min.y.fmin(vec.y);
        self.min.z = self.min.z.fmin(vec.z);
        self.max.x = self.max.x.fmax(vec.x);
        self.max.y = self.max.y.fmax(vec.y);
        self.max.z = self.max.z.fmax(vec.z);
    }

    /// Grows the box to cover another box.
    pub fn expand_bbox(&mut self, bbox: &BoundingBox)
        ensures
            *final(self) == expand_bbox_spec(*old(self), *bbox),
    {
        self.min.x = self.min.x.fmin(bbox.min.x);
        self.min.y = self.min.y.fmin(bbox.min.y);
        self.min.z = self.min.z.fmin(bbox.min.z);
        self.max.x = self.max.x.fmax(bbox.max.x);
        self.max.y = self.max.y.fmax(bbox.max.y);
        self.max.z = self.max.z.fmax(bbox.max.z);
    }

    /// The tight bound of a list of vectors.
    pub fn from_vectors(vecs: &Vec<Vec3d>) -> (r: BoundingBox)
        ensures
            r == from_vectors_spec(vecs@),
            corners_ok(r),
            forall|i: int| 0 <= i < vecs@.len() ==> contains_spec(r, vecs@[i]),
    {
        let mut bbox = BoundingBox::empty();
        proof {
            lemma_empty_corners_ok();
        }
        let mut i: usize = 0;
        while i < vecs.len()
            invariant
                0 <= i <= vecs.len(),
                bbox == from_vectors_spec(vecs@.take(i as int)),
                corners_ok(bbox),
                forall|j: int| 0 <= j < i ==> contains_spec(bbox, vecs@[j]),
            decreases vecs.len() - i,
        {
            proof {
                assert(vecs@.take(i + 1 as int).drop_last() =~= vecs@.take(i as int));
                lemma_expand_vec_grows(bbox, vecs@[i as int]);
                assert forall|j: int| 0 <= j < i implies contains_spec(
                    expand_vec_spec(bbox, vecs@[i as int]),
                    vecs@[j],
                ) by {
                    lemma_expand_vec_keeps(bbox, vecs@[i as int], vecs@[j]);
                }
            }
            bbox.expand_vec(vecs[i]);
            i += 1;
        }
        proof {
            assert(vecs@.take(vecs@.len() as int) =~= vecs@);
        }
        bbox
    }

    /// The union of a list of boxes.
    pub fn from_bboxes(boxes: &Vec<BoundingBox>) -> (r: BoundingBox)
        ensures
            r == from_bboxes_spec(boxes@),
            corners_ok(r),
            forall|i: int|
                0 <= i < boxes@.len() && corners_ok(boxes@[i]) ==> encloses_spec(r, boxes@[i]),
    {
        let mut bbox = BoundingBox::empty();
        proof {
            lemma_empty_corners_ok();
        }
        let mut i: usize = 0;
        while i < boxes.len()
            invariant
                0 <= i <= boxes.len(),
                bbox == from_bboxes_spec(boxes@.take(i as int)),
                corners_ok(bbox),
                forall|j: int| 0 <= j < i && corners_ok(boxes@[j]) ==> encloses_spec(bbox, boxes@[j]),
            decreases boxes.len() - i,
        {
            proof {
                assert(boxes@.take(i + 1 as int).drop_last() =~= boxes@.take(i as int));
                lemma_expand_bbox_grows(bbox, boxes@[i as int]);
                assert forall|j: int|
                    0 <= j < i && corners_ok(boxes@[j]) implies encloses_spec(
                    expand_bbox_spec(bbox, boxes@[i as int]),
                    boxes@[j],
                ) by {
                    lemma_expand_bbox_keeps(bbox, boxes@[i as int], boxes@[j]);
                }
            }
            bbox.expand_bbox(&boxes[i]);
            i += 1;
        }
        proof {
            assert(boxes@.take(boxes@.len() as int) =~= boxes@);
        }
        bbox
    }

    /// The box padded by the fixed 0.01 epsilon on every side; padding a box
    /// with non-NaN corners keeps them non-NaN and only grows the box.
    pub fn pad(self) -> (r: BoundingBox)
        ensures
            r == pad_spec(self),
            corners_ok(self) ==> corners_ok(r) && encloses_spec(r, self),
    {
        BoundingBox {
            min: Vec3d {
                x: self.min.x.pad_down(),
                y: self.min.y.pad_down(),
                z: self.min.z.pad_down(),
            },
            max: Vec3d { x: self.max.x.pad_up(), y: self.max.y.pad_up(), z: self.max.z.pad_up() },
        }
    }

    /// Whether the box contains a point: a NaN component never escapes, and
    /// a NaN corner never rejects.
    pub fn contains(self, vec: Vec3d) -> (r: bool)
        ensures
            r == contains_spec(self, vec),
    {
        if vec.x.lt(self.min.x) || self.max.x.lt(vec.x) {
            return false;
        }
        if vec.y.lt(self.min.y) || self.max.y.lt(vec.y) {
            return false;
        }
        if vec.z.lt(self.min.z) || self.max.z.lt(vec.z) {
            return false;
        }
        true
    }

    /// The canonical empty sentinel replaced by the all-zero box.
    pub fn sanitize(&self) -> (r: BoundingBox)
        ensures
            r == sanitize_spec(*self),
    {
        if self.min.x.0 == POS_INF_BITS && self.min.y.0 == POS_INF_BITS && self.min.z.0
            == POS_INF_BITS && self.max.x.0 == NEG_INF_BITS && self.max.y.0 == NEG_INF_BITS
            && self.max.z.0 == NEG_INF_BITS {
            BoundingBox::zero()
        } else {
            BoundingBox { min: self.min, max: self.max }
        }
    }
}

/// The empty box's infinite corners are not NaN.
pub proof fn lemma_empty_corners_ok()
    ensures
        corners_ok(empty_bbox()),
{
    assert(0x7f80_0000u32 & 0x7fff_ffffu32 == 0x7f80_0000u32) by (bit_vector);
    assert(0xff80_0000u32 & 0x7fff_ffffu32 == 0x7f80_0000u32) by (bit_vector);
}

/// Growing a box toward a point keeps non-NaN corners non-NaN and contains
/// the point.
pub proof fn lemma_expand_vec_grows(b: BoundingBox, v: Vec3d)
    requires
        corners_ok(b),
    ensures
        corners_ok(expand_vec_spec(b, v)),
        contains_spec(expand_vec_spec(b, v), v),
        encloses_spec(expand_vec_spec(b, v), b),
{
}

/// Growing a box keeps every already-contained point contained.
pub proof fn lemma_expand_vec_keeps(b: BoundingBox, v: Vec3d, u: Vec3d)
    requires
        corners_ok(b),
        contains_spec(b, u),
    ensures
        contains_spec(expand_vec_spec(b, v), u),
{
}

/// Growing a box toward another box keeps non-NaN corners non-NaN and
/// encloses that box (when its own corners are non-NaN).
pub proof fn lemma_expand_bbox_grows(b: BoundingBox, o: BoundingBox)
    requires
        corners_ok(b),
    ensures
        corners_ok(expand_bbox_spec(b, o)),
        encloses_spec(expand_bbox_spec(b, o), b),
        corners_ok(o) ==> encloses_spec(expand_bbox_spec(b, o), o),
{
}

/// Growing a box keeps every already-enclosed box enclosed.
pub proof fn lemma_expand_bbox_keeps(b: BoundingBox, o: BoundingBox, inner: BoundingBox)
    requires
        corners_ok(b),
        encloses_spec(b, inner),
    ensures
        encloses_spec(expand_bbox_spec(b, o), inner),
{
}

/// Enclosure chains: an outer box enclosing a middle box encloses everything
/// the middle box contains, and every box it encloses.
pub proof fn lemma_encloses_trans(outer: BoundingBox, mid: BoundingBox, inner: BoundingBox)
    requires
        encloses_spec(outer, mid),
        encloses_spec(mid, inner),
    ensures
        encloses_spec(outer, inner),
{
}

/// The tight bound of a sequence has non-NaN corners and contains every
/// element.
pub proof fn lemma_from_vectors_props(s: Seq<Vec3d>)
    ensures
        corners_ok(from_vectors_spec(s)),
        forall|i: int| 0 <= i < s.len() ==> contains_spec(from_vectors_spec(s), s[i]),
    decreases s.len(),
{
    if s.len() == 0 {
        lemma_empty_corners_ok();
    } else {
        lemma_from_vectors_props(s.drop_last());
        let prev = from_vectors_spec(s.drop_last());
        lemma_expand_vec_grows(prev, s.last());
        assert forall|i: int| 0 <= i < s.len() implies contains_spec(
            from_vectors_spec(s),
            s[i],
        ) by {
            if i < s.len() - 1 {
                assert(s.drop_last()[i] == s[i]);
                lemma_expand_vec_keeps(prev, s.last(), s[i]);
            }
        }
    }
}

/// The union of a sequence of boxes has non-NaN corners and encloses every
/// member with non-NaN corners.
pub proof fn lemma_from_bboxes_props(s: Seq<BoundingBox>)
    ensures
        corners_ok(from_bboxes_spec(s)),
        forall|i: int|
            0 <= i < s.len() && corners_ok(s[i]) ==> encloses_spec(from_bboxes_spec(s), s[i]),
    decreases s.len(),
{
    if s.len() == 0 {
        lemma_empty_corners_ok();
    } else {
        lemma_from_bboxes_props(s.drop_last());
        let prev = from_bboxes_spec(s.drop_last());
        lemma_expand_bbox_grows(prev, s.last());
        assert forall|i: int|
            0 <= i < s.len() && corners_ok(s[i]) implies encloses_spec(
            from_bboxes_spec(s),
            s[i],
        ) by {
            if i < s.len() - 1 {
                assert(s.drop_last()[i] == s[i]);
                lemma_expand_bbox_keeps(prev, s.last(), s[i]);
            }
        }
    }
}

/// A point contained in an enclosed box is contained in the enclosing box.
pub proof fn lemma_encloses_contains(outer: BoundingBox, inner: BoundingBox, v: Vec3d)
    requires
        encloses_spec(outer, inner),
        contains_spec(inner, v),
    ensures
        contains_spec(outer, v),
{
}

} // verus!
