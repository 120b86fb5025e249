use vstd::prelude::*;

use crate::scalar::{
    abs_bits, add_bits, div_bits, le_bits, mul_bits, neg_bits, pow_bits, scalar_of_count,
    sqrt_bits, sub_bits, Scalar, NORMALIZE_EPS_BITS, NULL_EPS_BITS, NEG_INF_BITS, ONE_BITS,
    ONE_THIRD_BITS, POS_INF_BITS, ZERO_BITS,
};

verus! {

/// A 3-component vector of `Scalar`s. Equality and hashing are bit-exact
/// (NaN-safe), because vectors serve as deduplication and map keys.
#[derive(Clone, Copy, Debug, Default, PartialEq, Eq, Structural, Hash)]
pub struct Vec3d {
    pub x: Scalar,
    pub y: Scalar,
    pub z: Scalar,
}

/// Componentwise IEEE-754 sum of two vectors.
pub open spec fn vadd_spec(a: Vec3d, b: Vec3d) -> Vec3d {
    Vec3d {
        x: Scalar(add_bits(a.x.0, b.x.0)),
        y: Scalar(add_bits(a.y.0, b.y.0)),
        z: Scalar(add_bits(a.z.0, b.z.0)),
    }
}

/// Componentwise IEEE-754 difference of two vectors.
pub open spec fn vsub_spec(a: Vec3d, b: Vec3d) -> Vec3d {
    Vec3d {
        x: Scalar(sub_bits(a.x.0, b.x.0)),
        y: Scalar(sub_bits(a.y.0, b.y.0)),
        z: Scalar(sub_bits(a.z.0, b.z.0)),
    }
}

/// Every component multiplied by the scalar `s`.
pub open spec fn vscale_spec(a: Vec3d, s: Scalar) -> Vec3d {
    Vec3d {
        x: Scalar(mul_bits(a.x.0, s.0)),
        y: Scalar(mul_bits(a.y.0, s.0)),
        z: Scalar(mul_bits(a.z.0, s.0)),
    }
}

/// Every component divided by the scalar `s`.
pub open spec fn vdiv_spec(a: Vec3d, s: Scalar) -> Vec3d {
    Vec3d {
        x: Scalar(div_bits(a.x.0, s.0)),
        y: Scalar(div_bits(a.y.0, s.0)),
        z: Scalar(div_bits(a.z.0, s.0)),
    }
}

/// Componentwise negation (sign-bit flips).
pub open spec fn vneg_spec(a: Vec3d) -> Vec3d {
    Vec3d { x: Scalar(neg_bits(a.x.0)), y: Scalar(neg_bits(a.y.0)), z: Scalar(neg_bits(a.z.0)) }
}

/// x*x + y*y + z*z, summed left to right.
pub open spec fn magnitude_squared_spec(v: Vec3d) -> u32 {
    add_bits(add_bits(mul_bits(v.x.0, v.x.0), mul_bits(v.y.0, v.y.0)), mul_bits(v.z.0, v.z.0))
}

/// The square root of the squared magnitude.
pub open spec fn magnitude_spec(v: Vec3d) -> u32 {
    sqrt_bits(magnitude_squared_spec(v))
}

/// o.x*s.x + o.y*s.y + o.z*s.z, summed left to right (the operand order the
/// dot product is computed in).
pub open spec fn dot_spec(s: Vec3d, o: Vec3d) -> u32 {
    add_bits(
        add_bits(mul_bits(o.x.0, s.x.0), mul_bits(o.y.0, s.y.0)),
        mul_bits(o.z.0, s.z.0),
    )
}

/// The cross product, each component a product difference.
pub open spec fn cross_spec(s: Vec3d, o: Vec3d) -> Vec3d {
    Vec3d {
        x: Scalar(sub_bits(mul_bits(s.y.0, o.z.0), mul_bits(s.z.0, o.y.0))),
        y: Scalar(sub_bits(mul_bits(s.z.0, o.x.0), mul_bits(s.x.0, o.z.0))),
        z: Scalar(sub_bits(mul_bits(s.x.0, o.y.0), mul_bits(s.y.0, o.x.0))),
    }
}

/// Scaling by the reciprocal of the magnitude (the normalization rule).
pub open spec fn normalize_spec(v: Vec3d) -> Vec3d {
    vscale_spec(v, Scalar(div_bits(ONE_BITS, magnitude_spec(v))))
}

/// All three components within 1.0e-6 of zero in absolute value.
pub open spec fn is_null_spec(v: Vec3d) -> bool {
    le_bits(abs_bits(v.x.0), NULL_EPS_BITS) && le_bits(abs_bits(v.y.0), NULL_EPS_BITS)
        && le_bits(abs_bits(v.z.0), NULL_EPS_BITS)
}

/// The running sum of a sequence of vectors, accumulated front to back
/// starting from the zero vector.
pub open spec fn vsum_spec(s: Seq<Vec3d>) -> Vec3d
    decreases s.len(),
{
    if s.len() == 0 {
        Vec3d { x: Scalar(ZERO_BITS), y: Scalar(ZERO_BITS), z: Scalar(ZERO_BITS) }
    } else {
        vadd_spec(vsum_spec(s.drop_last()), s.last())
    }
}

/// The arithmetic mean: the running sum divided by the converted count.
pub open spec fn average_spec(s: Seq<Vec3d>) -> Vec3d {
    vdiv_spec(vsum_spec(s), Scalar(scalar_of_count(s.len() as usize)))
}

impl Vec3d {
    pub fn new(x: Scalar, y: Scalar, z: Scalar) -> (r: Vec3d)
        ensures
            r == (Vec3d { x, y, z }),
    {
        Vec3d { x, y, z }
    }

    /// The all-zero vector.
    pub fn zero() -> (r: Vec3d)
        ensures
            r == zero_vec(),
    {
        Vec3d { x: Scalar(ZERO_BITS), y: Scalar(ZERO_BITS), z: Scalar(ZERO_BITS) }
    }

    /// All components +infinity (the empty bounding box's `min` corner).
    pub fn infinity() -> (r: Vec3d)
        ensures
            r == inf_vec(),
    {
        Vec3d {
            x: Scalar(POS_INF_BITS),
            y: Scalar(POS_INF_BITS),
            z: Scalar(POS_INF_BITS),
        }
    }

    /// All components -infinity (the empty bounding box's `max` corner).
    pub fn neg_infinity() -> (r: Vec3d)
        ensures
            r == neg_inf_vec(),
    {
        Vec3d {
            x: Scalar(NEG_INF_BITS),
            y: Scalar(NEG_INF_BITS),
            z: Scalar(NEG_INF_BITS),
        }
    }

    pub fn to_tuple(self) -> (r: (Scalar, Scalar, Scalar))
        ensures
            r == (self.x, self.y, self.z),
    {
        (self.x, self.y, self.z)
    }

    pub fn vadd(self, rhs: Vec3d) -> (r: Vec3d)
        ensures
            r == vadd_spec(self, rhs),
    {
        Vec3d { x: self.x.fadd(rhs.x), y: self.y.fadd(rhs.y), z: self.z.fadd(rhs.z) }
    }

    pub fn vsub(self, rhs: Vec3d) -> (r: Vec3d)
        ensures
            r == vsub_spec(self, rhs),
    {
        Vec3d { x: self.x.fsub(rhs.x), y: self.y.fsub(rhs.y), z: self.z.fsub(rhs.z) }
    }

    pub fn vscale(self, rhs: Scalar) -> (r: Vec3d)
        ensures
            r == vscale_spec(self, rhs),
    {
        Vec3d { x: self.x.fmul(rhs), y: self.y.fmul(rhs), z: self.z.fmul(rhs) }
    }

    pub fn vdiv(self, rhs: Scalar) -> (r: Vec3d)
        ensures
            r == vdiv_spec(self, rhs),
    {
        Vec3d { x: self.x.fdiv(rhs), y: self.y.fdiv(rhs), z: self.z.fdiv(rhs) }
    }

    pub fn vneg(self) -> (r: Vec3d)
        ensures
            r == vneg_spec(self),
    {
        Vec3d { x: self.x.fneg(), y: self.y.fneg(), z: self.z.fneg() }
    }

    pub fn magnitude_squared(self) -> (r: Scalar)
        ensures
            r.0 == magnitude_squared_spec(self),
    {
        self.x.fmul(self.x).fadd(self.y.fmul(self.y)).fadd(self.z.fmul(self.z))
    }

    pub fn magnitude(self) -> (r: Scalar)
        ensures
            r.0 == magnitude_spec(self),
    {
        self.magnitude_squared().fsqrt()
    }

    pub fn normalize(self) -> (r: Vec3d)
        ensures
            r == normalize_spec(self),
    {
        let mag = self.magnitude();
        self.vscale(Scalar(ONE_BITS).fdiv(mag))
    }

    pub fn dot(self, other: &Vec3d) -> (r: Scalar)
        ensures
            r.0 == dot_spec(self, *other),
    {
        other.x.fmul(self.x).fadd(other.y.fmul(self.y)).fadd(other.z.fmul(self.z))
    }

    pub fn cross(self, other: &Vec3d) -> (r: Vec3d)
        ensures
            r == cross_spec(self, *other),
    {
        Vec3d::new(
            self.y.fmul(other.z).fsub(self.z.fmul(other.y)),
            self.z.fmul(other.x).fsub(self.x.fmul(other.z)),
            self.x.fmul(other.y).fsub(self.y.fmul(other.x)),
        )
    }

    /// True when every component is within 1.0e-6 of zero.
    pub fn is_null(self) -> (r: bool)
        ensures
            r == is_null_spec(self),
    {
        self.x.fabs().le(Scalar(NULL_EPS_BITS)) && self.y.fabs().le(Scalar(NULL_EPS_BITS))
            && self.z.fabs().le(Scalar(NULL_EPS_BITS))
    }

    /// The mean of the given vectors: their running sum divided by the count.
    /// An empty input divides zero by zero and yields NaN components.
    pub fn average(vecs: &Vec<Vec3d>) -> (r: Vec3d)
        ensures
            r == average_spec(vecs@),
    {
        let mut out = Vec3d::zero();
        let mut i: usize = 0;
        while i < vecs.len()
            invariant
                0 <= i <= vecs.len(),
                out == vsum_spec(vecs@.take(i as int)),
            decreases vecs.len() - i,
        {
            proof {
                assert(vecs@.take(i + 1 as int).drop_last() =~= vecs@.take(i as int));
            }
            out = out.vadd(vecs[i]);
            i += 1;
        }
        proof {
            assert(vecs@.take(vecs@.len() as int) =~= vecs@);
        }
        out.vdiv(Scalar::of_count(vecs.len()))
    }

    /// Swizzle from the model's convention (right +x, up +y, in -z) to the
    /// named interchange up-axis convention.
    pub fn from_coord(&self, up: UpAxis) -> (r: Vec3d)
        ensures
            r == from_coord_spec(*self, up),
    {
        match up {
            UpAxis::XUp => Vec3d { x: self.z.fneg(), y: self.x, z: self.y },
            UpAxis::YUp => Vec3d { x: self.x, y: self.y, z: self.z.fneg() },
            UpAxis::ZUp => Vec3d { x: self.x, y: self.z, z: self.y },
        }
    }

    /// Swizzle from the named interchange up-axis convention back to the
    /// model's convention; the inverse of `from_coord`.
    pub fn to_coord(&self, up: UpAxis) -> (r: Vec3d)
        ensures
            r == to_coord_spec(*self, up),
    {
        match up {
            UpAxis::XUp => Vec3d { x: self.y, y: self.z, z: self.x.fneg() },
            UpAxis::YUp => Vec3d { x: self.x, y: self.y, z: self.z.fneg() },
            UpAxis::ZUp => Vec3d { x: self.x, y: self.z, z: self.y },
        }
    }
}

/// The all-zero vector.
pub open spec fn zero_vec() -> Vec3d {
    Vec3d { x: Scalar(ZERO_BITS), y: Scalar(ZERO_BITS), z: Scalar(ZERO_BITS) }
}

/// All components +infinity.
pub open spec fn inf_vec() -> Vec3d {
    Vec3d { x: Scalar(POS_INF_BITS), y: Scalar(POS_INF_BITS), z: Scalar(POS_INF_BITS) }
}

/// All components -infinity.
pub open spec fn neg_inf_vec() -> Vec3d {
    Vec3d { x: Scalar(NEG_INF_BITS), y: Scalar(NEG_INF_BITS), z: Scalar(NEG_INF_BITS) }
}

/// The up-axis convention of an interchange format.
#[derive(Clone, Copy, Debug, PartialEq, Eq, Structural)]
pub enum UpAxis {
    XUp,
    YUp,
    ZUp,
}

pub open spec fn from_coord_spec(v: Vec3d, up: UpAxis) -> Vec3d {
    match up {
        UpAxis::XUp => Vec3d { x: Scalar(neg_bits(v.z.0)), y: v.x, z: v.y },
        UpAxis::YUp => Vec3d { x: v.x, y: v.y, z: Scalar(neg_bits(v.z.0)) },
        UpAxis::ZUp => Vec3d { x: v.x, y: v.z, z: v.y },
    }
}

pub open spec fn to_coord_spec(v: Vec3d, up: UpAxis) -> Vec3d {
    match up {
        UpAxis::XUp => Vec3d { x: v.y, y: v.z, z: Scalar(neg_bits(v.x.0)) },
        UpAxis::YUp => Vec3d { x: v.x, y: v.y, z: Scalar(neg_bits(v.z.0)) },
        UpAxis::ZUp => Vec3d { x: v.x, y: v.z, z: v.y },
    }
}

/// A 3x3 matrix stored as its three column vectors.
#[derive(Clone, Copy, Debug, Default, PartialEq, Eq, Structural)]
pub struct Mat3d {
    pub rvec: Vec3d,
    pub uvec: Vec3d,
    pub fvec: Vec3d,
}

/// The linear combination rvec*v.x + uvec*v.y + fvec*v.z, summed left to
/// right: how a column matrix maps a vector.
pub open spec fn mat3_apply_spec(m: Mat3d, v: Vec3d) -> Vec3d {
    vadd_spec(
        vadd_spec(vscale_spec(m.rvec, v.x), vscale_spec(m.uvec, v.y)),
        vscale_spec(m.fvec, v.z),
    )
}

impl Mat3d {
    pub fn identity() -> (r: Mat3d)
        ensures
            r == mat3_identity(),
    {
        Mat3d {
            rvec: Vec3d { x: Scalar(ONE_BITS), y: Scalar(ZERO_BITS), z: Scalar(ZERO_BITS) },
            uvec: Vec3d { x: Scalar(ZERO_BITS), y: Scalar(ONE_BITS), z: Scalar(ZERO_BITS) },
            fvec: Vec3d { x: Scalar(ZERO_BITS), y: Scalar(ZERO_BITS), z: Scalar(ONE_BITS) },
        }
    }

    /// The matrix applied to a vector (columns weighted by the components).
    pub fn apply(&self, v: Vec3d) -> (r: Vec3d)
        ensures
            r == mat3_apply_spec(*self, v),
    {
        self.rvec.vscale(v.x).vadd(self.uvec.vscale(v.y)).vadd(self.fvec.vscale(v.z))
    }

    /// The transpose: rows become columns.
    pub fn transpose(&self) -> (r: Mat3d)
        ensures
            r == mat3_transpose_spec(*self),
    {
        Mat3d {
            rvec: Vec3d { x: self.rvec.x, y: self.uvec.x, z: self.fvec.x },
            uvec: Vec3d { x: self.rvec.y, y: self.uvec.y, z: self.fvec.y },
            fvec: Vec3d { x: self.rvec.z, y: self.uvec.z, z: self.fvec.z },
        }
    }

    /// Matrix product: each column of `other` mapped through `self`.
    pub fn matmul(&self, other: &Mat3d) -> (r: Mat3d)
        ensures
            r == mat3_mul_spec(*self, *other),
    {
        Mat3d {
            rvec: self.apply(other.rvec),
            uvec: self.apply(other.uvec),
            fvec: self.apply(other.fvec),
        }
    }

    /// The nine components in column-major order.
    pub fn to_bits_vec(&self) -> (r: Vec<u32>)
        ensures
            r@ == mat3_bits_spec(*self),
            r.len() == 9,
    {
        let mut v: Vec<u32> = Vec::new();
        v.push(self.rvec.x.0);
        v.push(self.rvec.y.0);
        v.push(self.rvec.z.0);
        v.push(self.uvec.x.0);
        v.push(self.uvec.y.0);
        v.push(self.uvec.z.0);
        v.push(self.fvec.x.0);
        v.push(self.fvec.y.0);
        v.push(self.fvec.z.0);
        proof {
            assert(v@ =~= mat3_bits_spec(*self));
        }
        v
    }

    /// Rebuilds a matrix from nine column-major components.
    pub fn from_bits_slice(v: &Vec<u32>) -> (r: Mat3d)
        requires
            v.len() == 9,
        ensures
            mat3_bits_spec(r) == v@,
    {
        let r = Mat3d {
            rvec: Vec3d { x: Scalar(v[0]), y: Scalar(v[1]), z: Scalar(v[2]) },
            uvec: Vec3d { x: Scalar(v[3]), y: Scalar(v[4]), z: Scalar(v[5]) },
            fvec: Vec3d { x: Scalar(v[6]), y: Scalar(v[7]), z: Scalar(v[8]) },
        };
        proof {
            assert(mat3_bits_spec(r) =~= v@);
        }
        r
    }

    /// The matrix inverse, transposed: the mathematically correct map for
    /// transforming normals. `None` when the matrix is singular.
    pub fn inverse_transpose(&self) -> (r: Option<Mat3d>)
        ensures
            (match r {
                Some(m) => mat3_inverse_bits(mat3_bits_spec(*self)) matches Some(ib)
                    && m == mat3_transpose_spec(mat3_from_bits_spec(ib)),
                None => mat3_inverse_bits(mat3_bits_spec(*self)) is None,
            }),
    {
        let bits = self.to_bits_vec();
        match mat3_try_inverse(&bits) {
            Some(ib) => {
                let inv = Mat3d::from_bits_slice(&ib);
                proof {
                    assert(mat3_from_bits_spec(ib@) == inv) by {
                        assert(mat3_bits_spec(inv) =~= ib@);
                        lemma_mat3_bits_inverse(inv);
                    }
                }
                Some(inv.transpose())
            },
            None => None,
        }
    }

    /// The determinant, as computed by the outside linear-algebra library.
    pub fn determinant(&self) -> (r: Scalar)
        ensures
            r.0 == det3_bits(mat3_bits_spec(*self)),
    {
        let bits = self.to_bits_vec();
        Scalar(mat3_determinant_wrapped(&bits))
    }
}

/// The column-major component list of a matrix.
pub open spec fn mat3_bits_spec(m: Mat3d) -> Seq<u32> {
    seq![
        m.rvec.x.0,
        m.rvec.y.0,
        m.rvec.z.0,
        m.uvec.x.0,
        m.uvec.y.0,
        m.uvec.z.0,
        m.fvec.x.0,
        m.fvec.y.0,
        m.fvec.z.0,
    ]
}

/// Rebuilds a matrix from a column-major component list.
pub open spec fn mat3_from_bits_spec(s: Seq<u32>) -> Mat3d {
    Mat3d {
        rvec: Vec3d { x: Scalar(s[0]), y: Scalar(s[1]), z: Scalar(s[2]) },
        uvec: Vec3d { x: Scalar(s[3]), y: Scalar(s[4]), z: Scalar(s[5]) },
        fvec: Vec3d { x: Scalar(s[6]), y: Scalar(s[7]), z: Scalar(s[8]) },
    }
}

/// Component lists round-trip through the matrix form.
pub proof fn lemma_mat3_bits_inverse(m: Mat3d)
    ensures
        mat3_from_bits_spec(mat3_bits_spec(m)) == m,
{
}

pub open spec fn mat3_identity() -> Mat3d {
    Mat3d {
        rvec: Vec3d { x: Scalar(ONE_BITS), y: Scalar(ZERO_BITS), z: Scalar(ZERO_BITS) },
        uvec: Vec3d { x: Scalar(ZERO_BITS), y: Scalar(ONE_BITS), z: Scalar(ZERO_BITS) },
        fvec: Vec3d { x: Scalar(ZERO_BITS), y: Scalar(ZERO_BITS), z: Scalar(ONE_BITS) },
    }
}

pub open spec fn mat3_transpose_spec(m: Mat3d) -> Mat3d {
    Mat3d {
        rvec: Vec3d { x: m.rvec.x, y: m.uvec.x, z: m.fvec.x },
        uvec: Vec3d { x: m.rvec.y, y: m.uvec.y, z: m.fvec.y },
        fvec: Vec3d { x: m.rvec.z, y: m.uvec.z, z: m.fvec.z },
    }
}

pub open spec fn mat3_mul_spec(a: Mat3d, b: Mat3d) -> Mat3d {
    Mat3d {
        rvec: mat3_apply_spec(a, b.rvec),
        uvec: mat3_apply_spec(a, b.uvec),
        fvec: mat3_apply_spec(a, b.fvec),
    }
}

pub uninterp spec fn mat3_inverse_bits(m: Seq<u32>) -> Option<Seq<u32>>;

/// Relies on nalgebra's `Matrix3::try_inverse`: the inverse (when one exists)
/// is a function of the nine component encodings alone; `None` is returned
/// exactly when the library deems the matrix singular.
#[verifier::external_body]
fn mat3_try_inverse(cols: &Vec<u32>) -> (r: Option<Vec<u32>>)
    requires
        cols.len() == 9,
    ensures
        (match r {
            Some(v) => mat3_inverse_bits(cols@) == Some(v@) && v.len() == 9,
            None => mat3_inverse_bits(cols@) is None,
        }),
{
    let m: nalgebra_glm::Mat3 = nalgebra_glm::Mat3::from_column_slice(bytemuck::cast_slice(
        cols.as_slice(),
    ));
    match m.try_inverse() {
        Some(mi) => {
            let a: &[u32] = bytemuck::cast_slice(mi.as_slice());
            Some(a.to_vec())
        },
        None => None,
    }
}

pub uninterp spec fn det3_bits(m: Seq<u32>) -> u32;

/// Relies on nalgebra's `Matrix3::determinant`: the determinant's encoding is
/// a function of the nine component encodings alone.
#[verifier::external_body]
fn mat3_determinant_wrapped(cols: &Vec<u32>) -> (r: u32)
    requires
        cols.len() == 9,
    ensures
        r == det3_bits(cols@),
{
    let m: nalgebra_glm::Mat3 = nalgebra_glm::Mat3::from_column_slice(bytemuck::cast_slice(
        cols.as_slice(),
    ));
    bytemuck::cast(m.determinant())
}

pub uninterp spec fn mat3d64_inverse_bits(m: Seq<u64>) -> Option<Seq<u64>>;

/// Relies on nalgebra's `Matrix3::<f64>::try_inverse`: the inverse (when one
/// exists) is a function of the nine binary64 component encodings alone;
/// `None` is returned exactly when the library deems the matrix singular.
#[verifier::external_body]
pub(crate) fn mat3d64_try_inverse(cols: &Vec<u64>) -> (r: Option<Vec<u64>>)
    requires
        cols.len() == 9,
    ensures
        (match r {
            Some(v) => mat3d64_inverse_bits(cols@) == Some(v@) && v.len() == 9,
            None => mat3d64_inverse_bits(cols@) is None,
        }),
{
    let m: nalgebra_glm::DMat3 = nalgebra_glm::DMat3::from_column_slice(bytemuck::cast_slice(
        cols.as_slice(),
    ));
    match m.try_inverse() {
        Some(mi) => {
            let a: &[u64] = bytemuck::cast_slice(mi.as_slice());
            Some(a.to_vec())
        },
        None => None,
    }
}

pub uninterp spec fn ortho3_bits(m: Seq<u32>) -> Seq<u32>;

/// Relies on nalgebra's `Vector3::orthonormalize` over a family of three
/// vectors (Gram-Schmidt): the re-orthonormalized family is a function of the
/// nine input component encodings alone, and stays three vectors long.
#[verifier::external_body]
fn orthonormalize3(cols: &Vec<u32>) -> (r: Vec<u32>)
    requires
        cols.len() == 9,
    ensures
        r@ == ortho3_bits(cols@),
        r.len() == 9,
{
    let s = cols.as_slice();
    let mut arr: [nalgebra_glm::Vec3; 3] = [
        nalgebra_glm::make_vec3(bytemuck::cast_slice(&s[0..3])),
        nalgebra_glm::make_vec3(bytemuck::cast_slice(&s[3..6])),
        nalgebra_glm::make_vec3(bytemuck::cast_slice(&s[6..9])),
    ];
    <nalgebra_glm::Vec3>::orthonormalize(&mut arr);
    let mut out: Vec<u32> = Vec::new();
    for v in arr {
        out.extend_from_slice(bytemuck::cast_slice(v.as_slice()));
    }
    out
}

pub uninterp spec fn ortho2_bits(m: Seq<u32>) -> (Seq<u32>, usize);

/// Relies on nalgebra's `Vector3::orthonormalize` over a family of two
/// vectors: the re-orthonormalized pair and the count of independent vectors
/// are a function of the six input component encodings alone.
#[verifier::external_body]
fn orthonormalize2(cols: &Vec<u32>) -> (r: (Vec<u32>, usize))
    requires
        cols.len() == 6,
    ensures
        (match ortho2_bits(cols@) {
            (s, k) => r.0@ == s && r.1 == k && r.0.len() == 6,
        }),
{
    let s = cols.as_slice();
    let mut arr: [nalgebra_glm::Vec3; 2] = [
        nalgebra_glm::make_vec3(bytemuck::cast_slice(&s[0..3])),
        nalgebra_glm::make_vec3(bytemuck::cast_slice(&s[3..6])),
    ];
    let k = <nalgebra_glm::Vec3>::orthonormalize(&mut arr);
    let mut out: Vec<u32> = Vec::new();
    for v in arr {
        out.extend_from_slice(bytemuck::cast_slice(v.as_slice()));
    }
    (out, k)
}

/// Re-orthonormalizes the three columns of a matrix, suppressing numerical
/// drift; the rotation-only derivation step.
pub fn mat3_orthonormalized(m: &Mat3d) -> (r: Mat3d)
    ensures
        mat3_bits_spec(r) == ortho3_bits(mat3_bits_spec(*m)),
{
    let bits = m.to_bits_vec();
    let ob = orthonormalize3(&bits);
    Mat3d::from_bits_slice(&ob)
}

/// Re-orthonormalizes a pair of vectors; returns the pair and how many of
/// them were independent.
pub fn vec3_orthonormalized_pair(a: Vec3d, b: Vec3d) -> (r: (Vec3d, Vec3d, usize))
    ensures
        (match ortho2_bits(
            seq![a.x.0, a.y.0, a.z.0, b.x.0, b.y.0, b.z.0],
        ) {
            (s, k) => seq![
                r.0.x.0,
                r.0.y.0,
                r.0.z.0,
                r.1.x.0,
                r.1.y.0,
                r.1.z.0,
            ] == s && r.2 == k,
        }),
{
    let mut bits: Vec<u32> = Vec::new();
    bits.push(a.x.0);
    bits.push(a.y.0);
    bits.push(a.z.0);
    bits.push(b.x.0);
    bits.push(b.y.0);
    bits.push(b.z.0);
    proof {
        assert(bits@ =~= seq![a.x.0, a.y.0, a.z.0, b.x.0, b.y.0, b.z.0]);
    }
    let (ob, k) = orthonormalize2(&bits);
    let oa = Vec3d { x: Scalar(ob[0]), y: Scalar(ob[1]), z: Scalar(ob[2]) };
    let obv = Vec3d { x: Scalar(ob[3]), y: Scalar(ob[4]), z: Scalar(ob[5]) };
    proof {
        assert(seq![oa.x.0, oa.y.0, oa.z.0, obv.x.0, obv.y.0, obv.z.0] =~= ob@);
    }
    (oa, obv, k)
}

pub uninterp spec fn rotation_bits(angle: u32, ax: u32, ay: u32, az: u32) -> Seq<u32>;

/// Relies on nalgebra-glm's `rotation` (an axis-angle rotation matrix): the
/// rotation's nine linear components are a function of the angle and axis
/// encodings alone; its translation part is zero by construction.
#[verifier::external_body]
fn rotation_matrix_wrapped(angle: Scalar, ax: Scalar, ay: Scalar, az: Scalar) -> (r: Vec<u32>)
    ensures
        r@ == rotation_bits(angle.0, ax.0, ay.0, az.0),
        r.len() == 9,
{
    let axis: nalgebra_glm::Vec3 = nalgebra_glm::vec3(
        bytemuck::cast(ax.0),
        bytemuck::cast(ay.0),
        bytemuck::cast(az.0),
    );
    let m = nalgebra_glm::rotation(bytemuck::cast(angle.0), &axis);
    let a: &[u32] = bytemuck::cast_slice(m.as_slice());
    vec![a[0], a[1], a[2], a[4], a[5], a[6], a[8], a[9], a[10]]
}

/// An axis-angle rotation as a 3x3 matrix.
pub fn rotation_mat3(angle: Scalar, axis: Vec3d) -> (r: Mat3d)
    ensures
        mat3_bits_spec(r) == rotation_bits(angle.0, axis.x.0, axis.y.0, axis.z.0),
{
    let bits = rotation_matrix_wrapped(angle, axis.x, axis.y, axis.z);
    Mat3d::from_bits_slice(&bits)
}

pub uninterp spec fn rotate_vec3_bits(
    vx: u32,
    vy: u32,
    vz: u32,
    angle: u32,
    nx: u32,
    ny: u32,
    nz: u32,
) -> (u32, u32, u32);

/// Relies on nalgebra-glm's `rotate_vec3`: the rotated vector is a function
/// of the vector, angle, and axis encodings alone.
#[verifier::external_body]
fn rotate_vec3_wrapped(v: Vec3d, angle: Scalar, normal: Vec3d) -> (r: Vec3d)
    ensures
        (match rotate_vec3_bits(v.x.0, v.y.0, v.z.0, angle.0, normal.x.0, normal.y.0, normal.z.0) {
            (x, y, z) => r == (Vec3d { x: Scalar(x), y: Scalar(y), z: Scalar(z) }),
        }),
{
    let vb = [v.x.0, v.y.0, v.z.0];
    let nb = [normal.x.0, normal.y.0, normal.z.0];
    let vv: nalgebra_glm::Vec3 = nalgebra_glm::make_vec3(bytemuck::cast_slice(&vb));
    let nn: nalgebra_glm::Vec3 = nalgebra_glm::make_vec3(bytemuck::cast_slice(&nb));
    let out = nalgebra_glm::rotate_vec3(&vv, bytemuck::cast(angle.0), &nn);
    let ob: &[u32] = bytemuck::cast_slice(out.as_slice());
    Vec3d { x: Scalar(ob[0]), y: Scalar(ob[1]), z: Scalar(ob[2]) }
}

/// Rotates a vector around a unit axis by an angle.
pub fn rotate_about_axis(v: Vec3d, angle: Scalar, normal: Vec3d) -> (r: Vec3d)
    ensures
        (match rotate_vec3_bits(v.x.0, v.y.0, v.z.0, angle.0, normal.x.0, normal.y.0, normal.z.0) {
            (x, y, z) => r == (Vec3d { x: Scalar(x), y: Scalar(y), z: Scalar(z) }),
        }),
{
    rotate_vec3_wrapped(v, angle, normal)
}

/// An affine transform: a linear part (rotation, scale, shear) applied first,
/// then a translation. This models the 4x4 homogeneous matrices the editor
/// applies; their bottom row is always (0, 0, 0, 1).
#[derive(Clone, Copy, Debug, PartialEq, Eq, Structural)]
pub struct Mat4 {
    pub linear: Mat3d,
    pub translation: Vec3d,
}

/// Where the transform sends a point: the linear image plus the translation.
pub open spec fn transform_point_spec(m: Mat4, v: Vec3d) -> Vec3d {
    vadd_spec(mat3_apply_spec(m.linear, v), m.translation)
}

impl Mat4 {
    pub fn identity() -> (r: Mat4)
        ensures
            r.linear == mat3_identity(),
            r.translation == zero_vec(),
    {
        Mat4 { linear: Mat3d::identity(), translation: Vec3d::zero() }
    }

    /// A pure translation.
    pub fn translation_mat(t: Vec3d) -> (r: Mat4)
        ensures
            r.linear == mat3_identity(),
            r.translation == t,
    {
        Mat4 { linear: Mat3d::identity(), translation: t }
    }

    /// Where the transform sends a point.
    pub fn transform_point(&self, v: Vec3d) -> (r: Vec3d)
        ensures
            r == transform_point_spec(*self, v),
    {
        self.linear.apply(v).vadd(self.translation)
    }

    /// Where the transform sends a direction (the translation is ignored).
    pub fn transform_vector(&self, v: Vec3d) -> (r: Vec3d)
        ensures
            r == mat3_apply_spec(self.linear, v),
    {
        self.linear.apply(v)
    }

    /// The transform with its translation isolated away: where it sends the
    /// origin is subtracted back out, leaving rotation, scale, and shear.
    pub fn rotation_and_scaling_only(&self) -> (r: Mat4)
        ensures
            r.linear == self.linear,
            r.translation == zero_vec(),
    {
        Mat4 { linear: self.linear, translation: Vec3d::zero() }
    }

    /// The rotation alone: the translation-free columns, re-orthonormalized
    /// to suppress scale and numerical drift.
    pub fn rotation_only(&self) -> (r: Mat4)
        ensures
            mat3_bits_spec(r.linear) == ortho3_bits(mat3_bits_spec(self.linear)),
            r.translation == zero_vec(),
    {
        Mat4 { linear: mat3_orthonormalized(&self.linear), translation: Vec3d::zero() }
    }
}

/// A vector constrained to unit length at construction: building one from a
/// near-zero vector reports failure instead of producing garbage.
#[derive(Clone, Copy, Debug, PartialEq, Eq, Structural)]
pub struct NormalVec3(pub Vec3d);

impl Default for NormalVec3 {
    /// The conventional forward-facing unit normal (0, 0, 1).
    fn default() -> (r: Self)
        ensures
            r == (NormalVec3(
                Vec3d { x: Scalar(ZERO_BITS), y: Scalar(ZERO_BITS), z: Scalar(ONE_BITS) },
            )),
    {
        NormalVec3(Vec3d { x: Scalar(ZERO_BITS), y: Scalar(ZERO_BITS), z: Scalar(ONE_BITS) })
    }
}

/// Unit normalization succeeds exactly when the magnitude exceeds 1.0e-6.
pub open spec fn try_normalize_ok(v: Vec3d) -> bool {
    !le_bits(magnitude_spec(v), NORMALIZE_EPS_BITS)
}

/// The unit vector produced by a successful normalization: each component
/// divided by the magnitude.
pub open spec fn try_normalize_spec(v: Vec3d) -> Vec3d {
    vdiv_spec(v, Scalar(magnitude_spec(v)))
}

/// The re-orthonormalized linear part a rotation-only derivation produces.
pub open spec fn rot_only_linear(m: Mat4) -> Mat3d {
    mat3_from_bits_spec(ortho3_bits(mat3_bits_spec(m.linear)))
}

/// What transforming a unit normal yields: the rotated vector re-normalized,
/// or the conventional default direction when the result is too short to
/// normalize (the soft-failure fallback).
pub open spec fn transformed_normal_spec(rot: Mat4, n: NormalVec3) -> NormalVec3 {
    let c = transform_point_spec(rot, n.0);
    if try_normalize_ok(c) {
        NormalVec3(try_normalize_spec(c))
    } else {
        NormalVec3(Vec3d { x: Scalar(ZERO_BITS), y: Scalar(ZERO_BITS), z: Scalar(ONE_BITS) })
    }
}

/// Applies an (already rotation-only) transform to a unit normal, falling
/// back to the default direction when normalization fails.
pub fn transform_normal(rot: &Mat4, n: NormalVec3) -> (r: NormalVec3)
    ensures
        r == transformed_normal_spec(*rot, n),
{
    let c = rot.transform_point(n.0);
    match NormalVec3::try_from_vec(c) {
        Ok(nv) => nv,
        Err(()) => NormalVec3::default(),
    }
}

/// The uniform length-scale a transform applies: the cube root of the
/// absolute determinant of its linear part.
pub open spec fn uniform_scale_spec(m: Mat4) -> u32 {
    pow_bits(abs_bits(det3_bits(mat3_bits_spec(m.linear))), ONE_THIRD_BITS)
}

impl Mat4 {
    /// The uniform length-scale this transform applies to radii.
    pub fn uniform_scale(&self) -> (r: Scalar)
        ensures
            r.0 == uniform_scale_spec(*self),
    {
        self.linear.determinant().fabs().fpow(Scalar(ONE_THIRD_BITS))
    }
}

impl NormalVec3 {
    /// Unit-normalizes a vector; fails (rather than panics) when the vector
    /// is within 1.0e-6 of zero and no direction can be derived.
    pub fn try_from_vec(value: Vec3d) -> (r: Result<NormalVec3, ()>)
        ensures
            r matches Ok(n) ==> try_normalize_ok(value) && n == (NormalVec3(
                try_normalize_spec(value),
            )),
            r is Err ==> !try_normalize_ok(value),
    {
        let mag = value.magnitude();
        if mag.le(Scalar(NORMALIZE_EPS_BITS)) {
            Err(())
        } else {
            Ok(NormalVec3(value.vdiv(mag)))
        }
    }
}

} // verus!
