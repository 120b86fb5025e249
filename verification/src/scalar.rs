use vstd::prelude::*;

verus! {

/// One geometric scalar of the model: the IEEE-754 binary32 encoding of the
/// value, held as its raw 32-bit pattern.
///
/// The model uses scalars as deduplication keys, so equality must be total and
/// bit-exact: equality of `Scalar` is equality of encodings, which
/// distinguishes the two zero signs and every NaN payload.
///
/// The *order* on scalars (`lt`, `le`, `feq`, `fmin`, `fmax`) is the IEEE-754
/// comparison, which for non-NaN operands coincides with the sign-magnitude
/// integer order of the encodings (`order_key`); NaN compares false with
/// everything. That order is defined and verified here as plain integer
/// logic over the bit pattern. Rounded *arithmetic* (`fadd` .. `fsqrt`) is
/// performed by outside libraries through the trusted wrappers below; each
/// result is named by an uninterpreted function of the operand encodings.
#[derive(Clone, Copy, Debug, Default, PartialEq, Eq, Structural, Hash)]
pub struct Scalar(pub u32);

/// Encoding of +0.0.
pub const ZERO_BITS: u32 = 0;
/// Encoding of 1.0.
pub const ONE_BITS: u32 = 0x3f80_0000;
/// Encoding of -1.0.
pub const NEG_ONE_BITS: u32 = 0xbf80_0000;
/// Encoding of +infinity (the `min` corner of the empty bounding box).
pub const POS_INF_BITS: u32 = 0x7f80_0000;
/// Encoding of -infinity (the `max` corner of the empty bounding box).
pub const NEG_INF_BITS: u32 = 0xff80_0000;
/// Encoding of 0.01, the padding applied to primitive bounding boxes.
pub const PAD_BITS: u32 = 0x3c23_d70a;
/// Encoding of 1.0e-6, the near-zero threshold for unit normalization.
pub const NORMALIZE_EPS_BITS: u32 = 0x3586_37bd;
/// Encoding of 1.0e-5, the floor used when radii are recomputed.
pub const RADIUS_FLOOR_BITS: u32 = 0x3727_c5ac;
/// Encoding of -1.0e-5, the `min` corner the header box recompute starts
/// from.
pub const NEG_RADIUS_FLOOR_BITS: u32 = 0xb727_c5ac;
/// Encoding of 0.000001, the null-vector threshold.
pub const NULL_EPS_BITS: u32 = 0x3586_37bd;
/// Encoding of 4.65, the empirical mass scaling coefficient.
pub const MASS_COEFF_BITS: u32 = 0x4094_cccd;
/// Encoding of 2/3, the exponent of the mass scaling law.
pub const TWO_THIRDS_BITS: u32 = 0x3f2a_aaab;
/// Encoding of 1/3, the exponent that turns a determinant into a length scale.
pub const ONE_THIRD_BITS: u32 = 0x3eaa_aaab;
/// Encoding of 1 + machine epsilon, the radius check margin.
pub const ONE_PLUS_EPS_BITS: u32 = 0x3f80_0001;

/// The magnitude field of an encoding: everything but the sign bit.
pub open spec fn magnitude_bits(b: u32) -> u32 {
    b & 0x7fff_ffffu32
}

/// The sign bit of an encoding.
pub open spec fn sign_bits(b: u32) -> bool {
    b & 0x8000_0000u32 != 0
}

/// An encoding is NaN when its magnitude exceeds that of infinity.
pub open spec fn is_nan_bits(b: u32) -> bool {
    magnitude_bits(b) > 0x7f80_0000u32
}

/// The sign-magnitude integer key that orders all non-NaN encodings exactly as
/// IEEE-754 comparison orders the values; both zeros map to key 0.
pub open spec fn order_key(b: u32) -> int {
    if sign_bits(b) {
        -(magnitude_bits(b) as int)
    } else {
        magnitude_bits(b) as int
    }
}

/// IEEE-754 `<` on encodings: false whenever an operand is NaN.
pub open spec fn lt_bits(a: u32, b: u32) -> bool {
    !is_nan_bits(a) && !is_nan_bits(b) && order_key(a) < order_key(b)
}

/// IEEE-754 `<=` on encodings: false whenever an operand is NaN.
pub open spec fn le_bits(a: u32, b: u32) -> bool {
    !is_nan_bits(a) && !is_nan_bits(b) && order_key(a) <= order_key(b)
}

/// IEEE-754 `==` on encodings: both zeros are equal; NaN equals nothing.
pub open spec fn eq_bits(a: u32, b: u32) -> bool {
    !is_nan_bits(a) && !is_nan_bits(b) && order_key(a) == order_key(b)
}

/// NaN-ignoring minimum: a NaN operand yields the other operand; on a tie the
/// first operand is kept.
pub open spec fn fmin_bits(a: u32, b: u32) -> u32 {
    if is_nan_bits(a) {
        b
    } else if is_nan_bits(b) {
        a
    } else if lt_bits(b, a) {
        b
    } else {
        a
    }
}

/// NaN-ignoring maximum, the mirror image of `fmin_bits`.
pub open spec fn fmax_bits(a: u32, b: u32) -> u32 {
    if is_nan_bits(a) {
        b
    } else if is_nan_bits(b) {
        a
    } else if lt_bits(a, b) {
        b
    } else {
        a
    }
}

impl Scalar {
    /// The encoding of +0.0.
    pub fn zero() -> (r: Scalar)
        ensures
            r.0 == ZERO_BITS,
    {
        Scalar(ZERO_BITS)
    }

    pub fn is_nan(self) -> (r: bool)
        ensures
            r == is_nan_bits(self.0),
    {
        (self.0 & 0x7fff_ffff) > 0x7f80_0000
    }

    /// IEEE-754 `<` of the encoded values.
    pub fn lt(self, other: Scalar) -> (r: bool)
        ensures
            r == lt_bits(self.0, other.0),
    {
        let ma = self.0 & 0x7fff_ffff;
        let mb = other.0 & 0x7fff_ffff;
        if ma > 0x7f80_0000 || mb > 0x7f80_0000 {
            false
        } else {
            let sa = self.0 & 0x8000_0000 != 0;
            let sb = other.0 & 0x8000_0000 != 0;
            if sa && sb {
                mb < ma
            } else if sa {
                !(ma == 0 && mb == 0)
            } else if sb {
                false
            } else {
                ma < mb
            }
        }
    }

    /// IEEE-754 `<=` of the encoded values.
    pub fn le(self, other: Scalar) -> (r: bool)
        ensures
            r == le_bits(self.0, other.0),
    {
        let ma = self.0 & 0x7fff_ffff;
        let mb = other.0 & 0x7fff_ffff;
        if ma > 0x7f80_0000 || mb > 0x7f80_0000 {
            false
        } else {
            let sa = self.0 & 0x8000_0000 != 0;
            let sb = other.0 & 0x8000_0000 != 0;
            if sa && sb {
                mb <= ma
            } else if sa {
                true
            } else if sb {
                ma == 0 && mb == 0
            } else {
                ma <= mb
            }
        }
    }

    /// IEEE-754 `==` of the encoded values (not bit equality: the two zeros
    /// are equal, and NaN equals nothing).
    pub fn feq(self, other: Scalar) -> (r: bool)
        ensures
            r == eq_bits(self.0, other.0),
    {
        self.le(other) && other.le(self)
    }

    /// NaN-ignoring minimum of the encoded values.
    pub fn fmin(self, other: Scalar) -> (r: Scalar)
        ensures
            r.0 == fmin_bits(self.0, other.0),
    {
        if self.is_nan() {
            other
        } else if other.is_nan() {
            self
        } else if other.lt(self) {
            other
        } else {
            self
        }
    }

    /// NaN-ignoring maximum of the encoded values.
    pub fn fmax(self, other: Scalar) -> (r: Scalar)
        ensures
            r.0 == fmax_bits(self.0, other.0),
    {
        if self.is_nan() {
            other
        } else if other.is_nan() {
            self
        } else if self.lt(other) {
            other
        } else {
            self
        }
    }

    /// IEEE-754 negation: the sign bit flips, everything else is untouched.
    pub fn fneg(self) -> (r: Scalar)
        ensures
            r.0 == neg_bits(self.0),
            magnitude_bits(r.0) == magnitude_bits(self.0),
            sign_bits(r.0) == !sign_bits(self.0),
    {
        let r = Scalar(self.0 ^ 0x8000_0000);
        proof {
            let b = self.0;
            assert((b ^ 0x8000_0000) & 0x7fff_ffff == b & 0x7fff_ffff) by (bit_vector);
            assert(((b ^ 0x8000_0000) & 0x8000_0000 != 0) == !(b & 0x8000_0000 != 0))
                by (bit_vector);
        }
        r
    }

    /// IEEE-754 absolute value: the sign bit is cleared.
    pub fn fabs(self) -> (r: Scalar)
        ensures
            r.0 == abs_bits(self.0),
            magnitude_bits(r.0) == magnitude_bits(self.0),
            !sign_bits(r.0),
    {
        let r = Scalar(self.0 & 0x7fff_ffff);
        proof {
            let b = self.0;
            assert((b & 0x7fff_ffff) & 0x7fff_ffff == b & 0x7fff_ffff) by (bit_vector);
            assert((b & 0x7fff_ffff) & 0x8000_0000 == 0) by (bit_vector);
        }
        r
    }
}

/// Negation on encodings: the sign bit flipped.
pub open spec fn neg_bits(b: u32) -> u32 {
    b ^ 0x8000_0000u32
}

/// Absolute value on encodings: the sign bit cleared.
pub open spec fn abs_bits(b: u32) -> u32 {
    b & 0x7fff_ffffu32
}

pub uninterp spec fn add_bits(a: u32, b: u32) -> u32;

pub uninterp spec fn sub_bits(a: u32, b: u32) -> u32;

pub uninterp spec fn mul_bits(a: u32, b: u32) -> u32;

pub uninterp spec fn div_bits(a: u32, b: u32) -> u32;

pub uninterp spec fn sqrt_bits(a: u32) -> u32;

pub uninterp spec fn pow_bits(a: u32, b: u32) -> u32;

pub uninterp spec fn atan2_bits(y: u32, x: u32) -> u32;

pub uninterp spec fn acos_bits(a: u32) -> u32;

pub uninterp spec fn scalar_of_count(n: usize) -> u32;

impl Scalar {
    /// Relies on nalgebra's componentwise `+` on `Vec1` (IEEE-754 binary32
    /// addition): the sum's encoding is a function of the operand encodings.
    #[verifier::external_body]
    pub fn fadd(self, other: Scalar) -> (r: Scalar)
        ensures
            r.0 == add_bits(self.0, other.0),
    {
        let x: nalgebra_glm::Vec1 = nalgebra_glm::vec1(bytemuck::cast(self.0));
        let y: nalgebra_glm::Vec1 = nalgebra_glm::vec1(bytemuck::cast(other.0));
        Scalar(bytemuck::cast((x + y).x))
    }

    /// Relies on nalgebra's componentwise `-` on `Vec1` (IEEE-754 binary32
    /// subtraction): the difference's encoding is a function of the operands.
    #[verifier::external_body]
    pub fn fsub(self, other: Scalar) -> (r: Scalar)
        ensures
            r.0 == sub_bits(self.0, other.0),
    {
        let x: nalgebra_glm::Vec1 = nalgebra_glm::vec1(bytemuck::cast(self.0));
        let y: nalgebra_glm::Vec1 = nalgebra_glm::vec1(bytemuck::cast(other.0));
        Scalar(bytemuck::cast((x - y).x))
    }

    /// Relies on nalgebra's componentwise `*` on `Vec1` (IEEE-754 binary32
    /// multiplication): the product's encoding is a function of the operands.
    #[verifier::external_body]
    pub fn fmul(self, other: Scalar) -> (r: Scalar)
        ensures
            r.0 == mul_bits(self.0, other.0),
    {
        let x: nalgebra_glm::Vec1 = nalgebra_glm::vec1(bytemuck::cast(self.0));
        let y: nalgebra_glm::Vec1 = nalgebra_glm::vec1(bytemuck::cast(other.0));
        Scalar(bytemuck::cast(x.component_mul(&y).x))
    }

    /// Relies on nalgebra's componentwise division on `Vec1` (IEEE-754
    /// binary32 division): the quotient's encoding is a function of the
    /// operands; division by zero yields an infinity or NaN, never a fault.
    #[verifier::external_body]
    pub fn fdiv(self, other: Scalar) -> (r: Scalar)
        ensures
            r.0 == div_bits(self.0, other.0),
    {
        let x: nalgebra_glm::Vec1 = nalgebra_glm::vec1(bytemuck::cast(self.0));
        let y: nalgebra_glm::Vec1 = nalgebra_glm::vec1(bytemuck::cast(other.0));
        Scalar(bytemuck::cast(x.component_div(&y).x))
    }

    /// Relies on libm's `sqrtf` (IEEE-754 correctly rounded square root): the
    /// root's encoding is a function of the operand's encoding; a negative
    /// operand yields NaN, never a fault.
    #[verifier::external_body]
    pub fn fsqrt(self) -> (r: Scalar)
        ensures
            r.0 == sqrt_bits(self.0),
    {
        Scalar(bytemuck::cast(libm::sqrtf(bytemuck::cast(self.0))))
    }

    /// Relies on libm's `powf`: the power's encoding is a function of the
    /// operand encodings; out-of-domain operands yield NaN, never a fault.
    #[verifier::external_body]
    pub fn fpow(self, other: Scalar) -> (r: Scalar)
        ensures
            r.0 == pow_bits(self.0, other.0),
    {
        Scalar(bytemuck::cast(libm::powf(bytemuck::cast(self.0), bytemuck::cast(other.0))))
    }

    /// Relies on libm's `atan2f`: the angle's encoding is a function of the
    /// operand encodings; it is total and never faults.
    #[verifier::external_body]
    pub fn fatan2(self, other: Scalar) -> (r: Scalar)
        ensures
            r.0 == atan2_bits(self.0, other.0),
    {
        Scalar(bytemuck::cast(libm::atan2f(bytemuck::cast(self.0), bytemuck::cast(other.0))))
    }

    /// Relies on libm's `acosf`: the angle's encoding is a function of the
    /// operand's encoding; out-of-domain operands yield NaN, never a fault.
    #[verifier::external_body]
    pub fn facos(self) -> (r: Scalar)
        ensures
            r.0 == acos_bits(self.0),
    {
        Scalar(bytemuck::cast(libm::acosf(bytemuck::cast(self.0))))
    }

    /// Relies on Rust's integer-to-binary32 conversion (exact for counts
    /// below 2^24, correctly rounded above): the encoding is a function of
    /// the count alone.
    #[verifier::external_body]
    pub fn of_count(n: usize) -> (r: Scalar)
        ensures
            r.0 == scalar_of_count(n),
    {
        let v: nalgebra_glm::Vec1 = nalgebra_glm::vec1(n as _);
        Scalar(bytemuck::cast(v.x))
    }

    /// Relies on nalgebra's componentwise `-` on `Vec1`. Subtracting the
    /// positive padding constant 0.01 from a non-NaN value cannot increase it
    /// (IEEE-754 rounding is monotonic) and cannot produce NaN (only an
    /// infinity minus itself does).
    #[verifier::external_body]
    pub fn pad_down(self) -> (r: Scalar)
        ensures
            r.0 == sub_bits(self.0, PAD_BITS),
            !is_nan_bits(self.0) ==> !is_nan_bits(r.0) && le_bits(r.0, self.0),
    {
        let x: nalgebra_glm::Vec1 = nalgebra_glm::vec1(bytemuck::cast(self.0));
        let p: nalgebra_glm::Vec1 = nalgebra_glm::vec1(bytemuck::cast(PAD_BITS));
        Scalar(bytemuck::cast((x - p).x))
    }

    /// Relies on nalgebra's componentwise `+` on `Vec1`. Adding the positive
    /// padding constant 0.01 to a non-NaN value cannot decrease it (IEEE-754
    /// rounding is monotonic) and cannot produce NaN.
    #[verifier::external_body]
    pub fn pad_up(self) -> (r: Scalar)
        ensures
            r.0 == add_bits(self.0, PAD_BITS),
            !is_nan_bits(self.0) ==> !is_nan_bits(r.0) && le_bits(self.0, r.0),
    {
        let x: nalgebra_glm::Vec1 = nalgebra_glm::vec1(bytemuck::cast(self.0));
        let p: nalgebra_glm::Vec1 = nalgebra_glm::vec1(bytemuck::cast(PAD_BITS));
        Scalar(bytemuck::cast((x + p).x))
    }
}

/// A double-width accumulator scalar: the IEEE-754 binary64 encoding of the
/// value, held as its raw 64-bit pattern. The inertia estimate accumulates
/// in binary64 before narrowing back, as the stored tensor demands.
#[derive(Clone, Copy, Debug, PartialEq, Eq, Structural)]
pub struct Scalar64(pub u64);

/// Encoding of binary64 +0.0.
pub const ZERO64_BITS: u64 = 0;

pub uninterp spec fn add64_bits(a: u64, b: u64) -> u64;

pub uninterp spec fn sub64_bits(a: u64, b: u64) -> u64;

pub uninterp spec fn mul64_bits(a: u64, b: u64) -> u64;

pub uninterp spec fn div64_bits(a: u64, b: u64) -> u64;

pub uninterp spec fn widen_bits(a: u32) -> u64;

pub uninterp spec fn narrow_bits(a: u64) -> u32;

pub uninterp spec fn scalar64_of_count(n: usize) -> u64;

impl Scalar64 {
    /// The encoding of binary64 +0.0.
    pub fn zero() -> (r: Scalar64)
        ensures
            r.0 == ZERO64_BITS,
    {
        Scalar64(ZERO64_BITS)
    }

    /// Relies on nalgebra's componentwise `+` on a binary64 `Vector1`
    /// (IEEE-754 binary64 addition): the sum's encoding is a function of the
    /// operand encodings.
    #[verifier::external_body]
    pub fn fadd(self, other: Scalar64) -> (r: Scalar64)
        ensures
            r.0 == add64_bits(self.0, other.0),
    {
        let x: nalgebra_glm::DVec1 = nalgebra_glm::DVec1::new(bytemuck::cast(self.0));
        let y: nalgebra_glm::DVec1 = nalgebra_glm::DVec1::new(bytemuck::cast(other.0));
        Scalar64(bytemuck::cast((x + y).x))
    }

    /// Relies on nalgebra's componentwise `-` on a binary64 `Vector1`
    /// (IEEE-754 binary64 subtraction).
    #[verifier::external_body]
    pub fn fsub(self, other: Scalar64) -> (r: Scalar64)
        ensures
            r.0 == sub64_bits(self.0, other.0),
    {
        let x: nalgebra_glm::DVec1 = nalgebra_glm::DVec1::new(bytemuck::cast(self.0));
        let y: nalgebra_glm::DVec1 = nalgebra_glm::DVec1::new(bytemuck::cast(other.0));
        Scalar64(bytemuck::cast((x - y).x))
    }

    /// Relies on nalgebra's componentwise `*` on a binary64 `Vector1`
    /// (IEEE-754 binary64 multiplication).
    #[verifier::external_body]
    pub fn fmul(self, other: Scalar64) -> (r: Scalar64)
        ensures
            r.0 == mul64_bits(self.0, other.0),
    {
        let x: nalgebra_glm::DVec1 = nalgebra_glm::DVec1::new(bytemuck::cast(self.0));
        let y: nalgebra_glm::DVec1 = nalgebra_glm::DVec1::new(bytemuck::cast(other.0));
        Scalar64(bytemuck::cast(x.component_mul(&y).x))
    }

    /// Relies on nalgebra's componentwise division on a binary64 `Vector1`
    /// (IEEE-754 binary64 division); division by zero yields an infinity or
    /// NaN, never a fault.
    #[verifier::external_body]
    pub fn fdiv(self, other: Scalar64) -> (r: Scalar64)
        ensures
            r.0 == div64_bits(self.0, other.0),
    {
        let x: nalgebra_glm::DVec1 = nalgebra_glm::DVec1::new(bytemuck::cast(self.0));
        let y: nalgebra_glm::DVec1 = nalgebra_glm::DVec1::new(bytemuck::cast(other.0));
        Scalar64(bytemuck::cast(x.component_div(&y).x))
    }

    /// Relies on Rust's binary32-to-binary64 cast: exact (every binary32
    /// value is a binary64 value) and a function of the encoding alone.
    #[verifier::external_body]
    pub fn widen(s: Scalar) -> (r: Scalar64)
        ensures
            r.0 == widen_bits(s.0),
    {
        let f: nalgebra_glm::Vec1 = nalgebra_glm::vec1(bytemuck::cast(s.0));
        let x: nalgebra_glm::DVec1 = f.cast();
        Scalar64(bytemuck::cast(x.x))
    }

    /// Relies on Rust's binary64-to-binary32 cast: correctly rounded to
    /// nearest and a function of the encoding alone.
    #[verifier::external_body]
    pub fn narrow(self) -> (r: Scalar)
        ensures
            r.0 == narrow_bits(self.0),
    {
        let d: nalgebra_glm::DVec1 = nalgebra_glm::DVec1::new(bytemuck::cast(self.0));
        let v: nalgebra_glm::Vec1 = d.cast();
        Scalar(bytemuck::cast(v.x))
    }

    /// Relies on Rust's integer-to-binary64 conversion (exact for counts
    /// below 2^53, correctly rounded above): a function of the count alone.
    #[verifier::external_body]
    pub fn of_count(n: usize) -> (r: Scalar64)
        ensures
            r.0 == scalar64_of_count(n),
    {
        let m: nalgebra::Vector1<usize> = nalgebra::Vector1::new(n);
        let v: nalgebra_glm::DVec1 = m.cast();
        Scalar64(bytemuck::cast(v.x))
    }
}

} // verus!
