use vstd::prelude::*;
use vstd::string::StrSliceExecFns;

use crate::ids::{ObjectId, PathId, VertexId};
use crate::props::{find_field_spec, properties_get_field};
use crate::scalar::{Scalar, NEG_ONE_BITS, ONE_BITS, ZERO_BITS};
use crate::vec3d::{
    rot_only_linear, transform_normal, transform_point_spec, transformed_normal_spec,
    try_normalize_ok, try_normalize_spec, uniform_scale_spec, vadd_spec, vscale_spec, vsub_spec,
    zero_vec, Mat4, NormalVec3, Vec3d,
};

verus! {

/// At most this many eye points are meaningful to a consumer.
pub const MAX_EYES: usize = 9;

/// At most this many fire points are meaningful on one turret.
pub const MAX_TURRET_POINTS: usize = 10;

/// At most this many debris pieces are meaningful on one model.
pub const MAX_DEBRIS_OBJECTS: u32 = 32;

/// At most this many textures are meaningful on one model.
pub const MAX_TEXTURES: usize = 64;

/// The longest name a consumer accepts.
pub const MAX_NAME_LEN: usize = 31;

/// The longest property text a consumer accepts.
pub const MAX_PROPERTIES_LEN: usize = 255;

/// Character-wise equality of two text slices.
pub fn str_eq(a: &str, b: &str) -> (r: bool)
    ensures
        r == (a@ == b@),
{
    let n = a.unicode_len();
    if n != b.unicode_len() {
        proof {
            assert(a@.len() != b@.len());
        }
        return false;
    }
    let mut i: usize = 0;
    while i < n
        invariant
            0 <= i <= n,
            n == a@.len() == b@.len(),
            forall|j: int| 0 <= j < i ==> a@[j] == b@[j],
        decreases n - i,
    {
        if a.get_char(i) != b.get_char(i) {
            return false;
        }
        i += 1;
    }
    proof {
        assert(a@ =~= b@);
    }
    true
}

/// Whether the key's value in a property text equals the given text exactly.
pub open spec fn field_equals_spec(props: Seq<char>, key: Seq<char>, value: Seq<char>) -> bool {
    match find_field_spec(props, key) {
        Some((vs, ve)) => props.subrange(vs, ve) == value,
        None => false,
    }
}

/// Whether the key's value in a property text equals the given text.
pub fn field_equals(props: &str, key: &str, value: &str) -> (r: bool)
    ensures
        r == field_equals_spec(props@, key@, value@),
{
    match properties_get_field(props, key) {
        Some(v) => str_eq(v, value),
        None => false,
    }
}

/// A kind of legacy light marker.
#[derive(Clone, Copy, Debug, PartialEq, Eq, Structural)]
pub enum BspLightKind {
    Muzzle,
    Thruster,
}

/// The wire code of a light kind.
pub open spec fn light_kind_code(k: BspLightKind) -> u32 {
    match k {
        BspLightKind::Muzzle => 1,
        BspLightKind::Thruster => 2,
    }
}

impl BspLightKind {
    pub fn code(self) -> (r: u32)
        ensures
            r == light_kind_code(self),
    {
        match self {
            BspLightKind::Muzzle => 1,
            BspLightKind::Thruster => 2,
        }
    }
}

/// A legacy light marker (kept for old files; unused by modern consumers).
#[derive(Clone, Copy, Debug)]
pub struct BspLight {
    pub location: Vec3d,
    pub kind: BspLightKind,
}

/// An RGB color (stored without alpha; the wire format pads a zero byte).
#[derive(Clone, Copy, Debug, Default, PartialEq, Eq, Structural)]
pub struct Color {
    pub red: u8,
    pub green: u8,
    pub blue: u8,
}

/// One waypoint of a path: a position, a radius, and the turrets that can
/// see it.
#[derive(Clone, Debug)]
pub struct PathPoint {
    pub position: Vec3d,
    pub radius: Scalar,
    pub turrets: Vec<ObjectId>,
}

/// A named path of waypoints, attached to a parent subobject by name.
#[derive(Clone, Debug)]
pub struct Path {
    pub name: String,
    pub parent: String,
    pub points: Vec<PathPoint>,
}

/// One waypoint transformed: the position mapped through the matrix, the
/// radius scaled by the uniform length-scale, the turret list untouched.
pub open spec fn path_point_xformed(m: Mat4, p: PathPoint, q: PathPoint) -> bool {
    &&& q.position == transform_point_spec(m, p.position)
    &&& q.radius == p.radius.fmul_spec(Scalar(uniform_scale_spec(m)))
    &&& q.turrets@ == p.turrets@
}

impl Scalar {
    /// The IEEE product, as a spec-level convenience.
    pub open spec fn fmul_spec(self, other: Scalar) -> Scalar {
        Scalar(crate::scalar::mul_bits(self.0, other.0))
    }
}

impl Path {
    /// Transforms every waypoint: positions through the matrix, radii by the
    /// uniform length-scale; the names are untouched.
    pub fn apply_transform(&mut self, matrix: &Mat4)
        ensures
            final(self).name == old(self).name,
            final(self).parent == old(self).parent,
            final(self).points@.len() == old(self).points@.len(),
            forall|i: int|
                0 <= i < old(self).points@.len() ==> path_point_xformed(
                    *matrix,
                    old(self).points@[i],
                    #[trigger] final(self).points@[i],
                ),
    {
        let scalar = matrix.uniform_scale();
        let mut out: Vec<PathPoint> = Vec::new();
        let n = self.points.len();
        let mut i: usize = 0;
        while i < n
            invariant
                0 <= i <= n,
                n == old(self).points@.len(),
                self.points == old(self).points,
                scalar.0 == uniform_scale_spec(*matrix),
                out@.len() == i,
                forall|j: int|
                    0 <= j < i ==> path_point_xformed(
                        *matrix,
                        old(self).points@[j],
                        #[trigger] out@[j],
                    ),
            decreases n - i,
        {
            let p = &self.points[i];
            let mut turrets: Vec<ObjectId> = Vec::new();
            let mut k: usize = 0;
            while k < p.turrets.len()
                invariant
                    0 <= k <= p.turrets@.len(),
                    turrets@ =~= p.turrets@.take(k as int),
                decreases p.turrets@.len() - k,
            {
                turrets.push(p.turrets[k]);
                k += 1;
            }
            proof {
                assert(turrets@ =~= p.turrets@);
            }
            out.push(
                PathPoint {
                    position: matrix.transform_point(p.position),
                    radius: p.radius.fmul(scalar),
                    turrets,
                },
            );
            i += 1;
        }
        self.points = out;
    }
}

/// An eye (viewpoint) anchored to a subobject.
#[derive(Clone, Copy, Debug)]
pub struct EyePoint {
    pub attached_subobj: Option<ObjectId>,
    pub position: Vec3d,
    pub normal: NormalVec3,
}

impl Default for EyePoint {
    fn default() -> (r: Self)
        ensures
            r.attached_subobj is None,
            r.position == zero_vec(),
            r.normal == (NormalVec3(
                Vec3d { x: Scalar(ZERO_BITS), y: Scalar(ZERO_BITS), z: Scalar(ONE_BITS) },
            )),
    {
        EyePoint { attached_subobj: None, position: Vec3d::zero(), normal: NormalVec3::default() }
    }
}

impl EyePoint {
    /// Moves the position through the matrix and the view normal through the
    /// rotation-only derivative.
    pub fn apply_transform(&mut self, matrix: &Mat4)
        ensures
            final(self).attached_subobj == old(self).attached_subobj,
            final(self).position == transform_point_spec(*matrix, old(self).position),
            final(self).normal == transformed_normal_spec(
                Mat4 { linear: rot_only_linear(*matrix), translation: zero_vec() },
                old(self).normal,
            ),
    {
        self.position = matrix.transform_point(self.position);
        let rot = matrix.rotation_only();
        self.normal = transform_normal(&rot, self.normal);
    }
}

/// A named point with free-form properties (often marking a subsystem).
#[derive(Clone, Debug)]
pub struct SpecialPoint {
    pub name: String,
    pub properties: String,
    pub position: Vec3d,
    pub radius: Scalar,
}

impl Default for SpecialPoint {
    /// An unnamed point of radius one at the origin.
    fn default() -> (r: Self)
        ensures
            r.name@.len() == 0,
            r.properties@.len() == 0,
            r.position == zero_vec(),
            r.radius.0 == ONE_BITS,
    {
        SpecialPoint {
            name: String::new(),
            properties: String::new(),
            position: Vec3d::zero(),
            radius: Scalar(ONE_BITS),
        }
    }
}

impl SpecialPoint {
    /// Moves the position through the matrix and scales the radius by the
    /// uniform length-scale.
    pub fn apply_transform(&mut self, matrix: &Mat4)
        ensures
            final(self).name == old(self).name,
            final(self).properties == old(self).properties,
            final(self).position == transform_point_spec(*matrix, old(self).position),
            final(self).radius == old(self).radius.fmul_spec(
                Scalar(uniform_scale_spec(*matrix)),
            ),
    {
        let scalar = matrix.uniform_scale();
        self.position = matrix.transform_point(self.position);
        self.radius = self.radius.fmul(scalar);
    }

    /// Whether the point marks a subsystem (`$special` equals `subsystem`).
    pub fn is_subsystem(&self) -> (r: bool)
        ensures
            r == field_equals_spec(self.properties@, "$special"@, "subsystem"@),
    {
        field_equals(self.properties.as_str(), "$special", "subsystem")
    }
}

/// One weapon firing point: a position, a firing normal, and an external
/// angle offset (only encoded by revisions that know it).
#[derive(Clone, Copy, Debug)]
pub struct WeaponHardpoint {
    pub position: Vec3d,
    pub normal: NormalVec3,
    pub offset: Scalar,
}

impl Default for WeaponHardpoint {
    fn default() -> (r: Self)
        ensures
            r.position == zero_vec(),
            r.normal == (NormalVec3(
                Vec3d { x: Scalar(ZERO_BITS), y: Scalar(ZERO_BITS), z: Scalar(ONE_BITS) },
            )),
            r.offset.0 == ZERO_BITS,
    {
        WeaponHardpoint {
            position: Vec3d::zero(),
            normal: NormalVec3::default(),
            offset: Scalar(ZERO_BITS),
        }
    }
}

impl WeaponHardpoint {
    /// Moves the position through the matrix and the firing normal through
    /// the rotation-only derivative; the offset is untouched.
    pub fn apply_transform(&mut self, matrix: &Mat4)
        ensures
            final(self).position == transform_point_spec(*matrix, old(self).position),
            final(self).normal == transformed_normal_spec(
                Mat4 { linear: rot_only_linear(*matrix), translation: zero_vec() },
                old(self).normal,
            ),
            final(self).offset == old(self).offset,
    {
        self.position = matrix.transform_point(self.position);
        let rot = matrix.rotation_only();
        self.normal = transform_normal(&rot, self.normal);
    }
}

/// One glow of a thruster bank.
#[derive(Clone, Copy, Debug)]
pub struct ThrusterGlow {
    pub position: Vec3d,
    pub normal: NormalVec3,
    pub radius: Scalar,
}

impl Default for ThrusterGlow {
    /// A glow of radius one facing backward.
    fn default() -> (r: Self)
        ensures
            r.position == zero_vec(),
            r.normal == (NormalVec3(
                Vec3d { x: Scalar(ZERO_BITS), y: Scalar(ZERO_BITS), z: Scalar(NEG_ONE_BITS) },
            )),
            r.radius.0 == ONE_BITS,
    {
        ThrusterGlow {
            position: Vec3d::zero(),
            normal: NormalVec3(
                Vec3d { x: Scalar(ZERO_BITS), y: Scalar(ZERO_BITS), z: Scalar(NEG_ONE_BITS) },
            ),
            radius: Scalar(ONE_BITS),
        }
    }
}

impl ThrusterGlow {
    /// Moves the position, scales the radius, rotates the normal.
    pub fn apply_transform(&mut self, matrix: &Mat4)
        ensures
            final(self).position == transform_point_spec(*matrix, old(self).position),
            final(self).radius == old(self).radius.fmul_spec(
                Scalar(uniform_scale_spec(*matrix)),
            ),
            final(self).normal == transformed_normal_spec(
                Mat4 { linear: rot_only_linear(*matrix), translation: zero_vec() },
                old(self).normal,
            ),
    {
        self.position = matrix.transform_point(self.position);
        let scalar = matrix.uniform_scale();
        self.radius = self.radius.fmul(scalar);
        let rot = matrix.rotation_only();
        self.normal = transform_normal(&rot, self.normal);
    }
}

/// A thruster bank: free-form properties and its glows.
#[derive(Clone, Debug)]
pub struct ThrusterBank {
    pub properties: String,
    pub glows: Vec<ThrusterGlow>,
}

impl Default for ThrusterBank {
    fn default() -> (r: Self)
        ensures
            r.properties@.len() == 0,
            r.glows@.len() == 0,
    {
        ThrusterBank { properties: String::new(), glows: Vec::new() }
    }
}

impl ThrusterBank {
    /// The engine subsystem this bank is tied to, read from its properties.
    pub fn get_engine_subsys(&self) -> (r: Option<&str>)
        ensures
            (match r {
                Some(v) => find_field_spec(self.properties@, "$engine_subsystem"@) matches Some(
                    (vs, ve),
                ) && v@ == self.properties@.subrange(vs, ve),
                None => find_field_spec(self.properties@, "$engine_subsystem"@) is None,
            }),
    {
        properties_get_field(self.properties.as_str(), "$engine_subsystem")
    }
}

/// One point of a docking port (derived, not stored: ports are encoded as
/// two points straddling the position along the up vector).
#[derive(Clone, Copy, Debug, PartialEq, Eq, Structural)]
pub struct DockingPoint {
    pub position: Vec3d,
    pub normal: Vec3d,
}

impl Default for DockingPoint {
    fn default() -> (r: Self)
        ensures
            r.position == zero_vec(),
            r.normal == (Vec3d { x: Scalar(ZERO_BITS), y: Scalar(ONE_BITS), z: Scalar(ZERO_BITS) }),
    {
        DockingPoint {
            position: Vec3d::zero(),
            normal: Vec3d { x: Scalar(ZERO_BITS), y: Scalar(ONE_BITS), z: Scalar(ZERO_BITS) },
        }
    }
}

/// One glow point of a glow bank.
#[derive(Clone, Copy, Debug)]
pub struct GlowPoint {
    pub position: Vec3d,
    pub normal: Vec3d,
    pub radius: Scalar,
}

impl Default for GlowPoint {
    fn default() -> (r: Self)
        ensures
            r.position == zero_vec(),
            r.normal == zero_vec(),
            r.radius.0 == ONE_BITS,
    {
        GlowPoint { position: Vec3d::zero(), normal: Vec3d::zero(), radius: Scalar(ONE_BITS) }
    }
}

impl GlowPoint {
    /// Moves the position, scales the radius, and rotates then re-normalizes
    /// the (unconstrained) normal.
    pub fn apply_transform(&mut self, matrix: &Mat4)
        ensures
            final(self).position == transform_point_spec(*matrix, old(self).position),
            final(self).radius == old(self).radius.fmul_spec(
                Scalar(uniform_scale_spec(*matrix)),
            ),
            final(self).normal == crate::vec3d::normalize_spec(
                transform_point_spec(
                    Mat4 { linear: rot_only_linear(*matrix), translation: zero_vec() },
                    old(self).normal,
                ),
            ),
    {
        self.position = matrix.transform_point(self.position);
        let scalar = matrix.uniform_scale();
        self.radius = self.radius.fmul(scalar);
        let rot = matrix.rotation_only();
        self.normal = rot.transform_point(self.normal).normalize();
    }
}

/// A bank of glow points with its blink timing and type.
#[derive(Clone, Debug)]
pub struct GlowPointBank {
    pub disp_time: i32,
    pub on_time: u32,
    pub off_time: u32,
    pub obj_parent: ObjectId,
    pub lod: u32,
    pub glow_type: u32,
    pub properties: String,
    pub glow_points: Vec<GlowPoint>,
}

/// A docking port: properties, an optional approach path, a position, and a
/// forward/up frame.
#[derive(Clone, Debug)]
pub struct Dock {
    pub properties: String,
    pub path: Option<PathId>,
    pub position: Vec3d,
    pub fvec: NormalVec3,
    pub uvec: NormalVec3,
}

impl Default for Dock {
    /// A port at the origin facing up (+y) with the default up vector.
    fn default() -> (r: Self)
        ensures
            r.properties@.len() == 0,
            r.path is None,
            r.position == zero_vec(),
            r.fvec == (NormalVec3(
                Vec3d { x: Scalar(ZERO_BITS), y: Scalar(ONE_BITS), z: Scalar(ZERO_BITS) },
            )),
            r.uvec == (NormalVec3(
                Vec3d { x: Scalar(ZERO_BITS), y: Scalar(ZERO_BITS), z: Scalar(ONE_BITS) },
            )),
    {
        Dock {
            properties: String::new(),
            path: None,
            position: Vec3d::zero(),
            fvec: NormalVec3(
                Vec3d { x: Scalar(ZERO_BITS), y: Scalar(ONE_BITS), z: Scalar(ZERO_BITS) },
            ),
            uvec: NormalVec3::default(),
        }
    }
}

/// The Gram-Schmidt step docking frames use: the forward component is
/// projected out of the candidate, which is then unit-normalized; a
/// degenerate candidate falls back to +y projected the same way, and to the
/// default normal when even that fails.
pub open spec fn dock_orthonormalize_spec(xvec: Vec3d, fvec: Vec3d) -> NormalVec3 {
    let projected = vsub_spec(xvec, vscale_spec(fvec, Scalar(crate::vec3d::dot_spec(xvec, fvec))));
    if try_normalize_ok(projected) {
        NormalVec3(try_normalize_spec(projected))
    } else {
        let up = Vec3d { x: Scalar(ZERO_BITS), y: Scalar(ONE_BITS), z: Scalar(ZERO_BITS) };
        let p2 = vsub_spec(up, vscale_spec(fvec, Scalar(crate::vec3d::dot_spec(up, fvec))));
        if try_normalize_ok(p2) {
            NormalVec3(try_normalize_spec(p2))
        } else {
            NormalVec3(Vec3d { x: Scalar(ZERO_BITS), y: Scalar(ZERO_BITS), z: Scalar(ONE_BITS) })
        }
    }
}

impl Dock {
    /// Projects the forward direction out of a candidate vector and
    /// unit-normalizes what remains (with the documented fallbacks).
    pub fn orthonormalize(xvec: &Vec3d, fvec: &Vec3d) -> (r: NormalVec3)
        ensures
            r == dock_orthonormalize_spec(*xvec, *fvec),
    {
        let projected = xvec.vsub(fvec.vscale(xvec.dot(fvec)));
        match NormalVec3::try_from_vec(projected) {
            Ok(n) => n,
            Err(()) => {
                let up = Vec3d {
                    x: Scalar(ZERO_BITS),
                    y: Scalar(ONE_BITS),
                    z: Scalar(ZERO_BITS),
                };
                let p2 = up.vsub(fvec.vscale(up.dot(fvec)));
                match NormalVec3::try_from_vec(p2) {
                    Ok(n) => n,
                    Err(()) => NormalVec3::default(),
                }
            },
        }
    }

    /// The port's name, read from its properties.
    pub fn get_name(&self) -> (r: Option<&str>)
        ensures
            (match r {
                Some(v) => find_field_spec(self.properties@, "$name"@) matches Some((vs, ve)) && v@
                    == self.properties@.subrange(vs, ve),
                None => find_field_spec(self.properties@, "$name"@) is None,
            }),
    {
        properties_get_field(self.properties.as_str(), "$name")
    }

    /// The name of the subobject the port is attached to, read from its
    /// properties.
    pub fn get_parent_obj(&self) -> (r: Option<&str>)
        ensures
            (match r {
                Some(v) => find_field_spec(self.properties@, "$parent_submodel"@) matches Some(
                    (vs, ve),
                ) && v@ == self.properties@.subrange(vs, ve),
                None => find_field_spec(self.properties@, "$parent_submodel"@) is None,
            }),
    {
        properties_get_field(self.properties.as_str(), "$parent_submodel")
    }

    /// Moves the position through the matrix and both frame vectors through
    /// the rotation-only derivative.
    pub fn apply_transform(&mut self, matrix: &Mat4)
        ensures
            final(self).properties == old(self).properties,
            final(self).path == old(self).path,
            final(self).position == transform_point_spec(*matrix, old(self).position),
            final(self).fvec == transformed_normal_spec(
                Mat4 { linear: rot_only_linear(*matrix), translation: zero_vec() },
                old(self).fvec,
            ),
            final(self).uvec == transformed_normal_spec(
                Mat4 { linear: rot_only_linear(*matrix), translation: zero_vec() },
                old(self).uvec,
            ),
    {
        self.position = matrix.transform_point(self.position);
        let rot = matrix.rotation_only();
        self.fvec = transform_normal(&rot, self.fvec);
        self.uvec = transform_normal(&rot, self.uvec);
    }
}

/// A turret: its base and gun subobjects, its firing normal, and its fire
/// points.
#[derive(Clone, Debug)]
pub struct Turret {
    pub base_obj: ObjectId,
    pub gun_obj: ObjectId,
    pub normal: NormalVec3,
    pub fire_points: Vec<Vec3d>,
}

impl Default for Turret {
    fn default() -> (r: Self)
        ensures
            r.base_obj == (ObjectId(0)),
            r.gun_obj == (ObjectId(0)),
            r.normal == (NormalVec3(
                Vec3d { x: Scalar(ZERO_BITS), y: Scalar(ZERO_BITS), z: Scalar(ONE_BITS) },
            )),
            r.fire_points@.len() == 0,
    {
        Turret {
            base_obj: ObjectId(0),
            gun_obj: ObjectId(0),
            normal: NormalVec3::default(),
            fire_points: Vec::new(),
        }
    }
}

impl Turret {
    /// Moves the fire points through the translation-free derivative (they
    /// are expressed in the base object's frame) and the firing normal
    /// through the rotation-only derivative.
    pub fn apply_transform(&mut self, matrix: &Mat4)
        ensures
            final(self).base_obj == old(self).base_obj,
            final(self).gun_obj == old(self).gun_obj,
            final(self).fire_points@.len() == old(self).fire_points@.len(),
            forall|i: int|
                0 <= i < old(self).fire_points@.len() ==> final(self).fire_points@[i]
                    == transform_point_spec(
                    Mat4 { linear: matrix.linear, translation: zero_vec() },
                    old(self).fire_points@[i],
                ),
            final(self).normal == transformed_normal_spec(
                Mat4 { linear: rot_only_linear(*matrix), translation: zero_vec() },
                old(self).normal,
            ),
    {
        let no_trans = matrix.rotation_and_scaling_only();
        let mut out: Vec<Vec3d> = Vec::new();
        let n = self.fire_points.len();
        let mut i: usize = 0;
        while i < n
            invariant
                0 <= i <= n,
                n == old(self).fire_points@.len(),
                self.fire_points == old(self).fire_points,
                no_trans == (Mat4 { linear: matrix.linear, translation: zero_vec() }),
                out@.len() == i,
                forall|j: int|
                    0 <= j < i ==> out@[j] == transform_point_spec(
                        no_trans,
                        old(self).fire_points@[j],
                    ),
            decreases n - i,
        {
            out.push(no_trans.transform_point(self.fire_points[i]));
            i += 1;
        }
        self.fire_points = out;
        let rot = no_trans.rotation_only();
        proof {
            assert(rot.linear == rot_only_linear(*matrix));
        }
        self.normal = transform_normal(&rot, self.normal);
    }
}

/// One corner of an insignia face: a vertex id and texture coordinates (no
/// shading normal).
#[derive(Clone, Copy, Debug)]
pub struct InsigniaVertex {
    pub vertex_id: VertexId,
    pub uv: (Scalar, Scalar),
}

/// A polygonal insignia decal shown on one detail level.
#[derive(Clone, Debug)]
pub struct Insignia {
    pub detail_level: u32,
    pub vertices: Vec<Vec3d>,
    pub offset: Vec3d,
    pub faces: Vec<(InsigniaVertex, InsigniaVertex, InsigniaVertex)>,
}

impl Insignia {
    /// Moves every vertex and the offset through the matrix.
    pub fn apply_transform(&mut self, matrix: &Mat4)
        ensures
            final(self).detail_level == old(self).detail_level,
            final(self).faces == old(self).faces,
            final(self).offset == transform_point_spec(*matrix, old(self).offset),
            final(self).vertices@.len() == old(self).vertices@.len(),
            forall|i: int|
                0 <= i < old(self).vertices@.len() ==> final(self).vertices@[i]
                    == transform_point_spec(*matrix, old(self).vertices@[i]),
    {
        let mut out: Vec<Vec3d> = Vec::new();
        let n = self.vertices.len();
        let mut i: usize = 0;
        while i < n
            invariant
                0 <= i <= n,
                n == old(self).vertices@.len(),
                self.vertices == old(self).vertices,
                out@.len() == i,
                forall|j: int|
                    0 <= j < i ==> out@[j] == transform_point_spec(
                        *matrix,
                        old(self).vertices@[j],
                    ),
            decreases n - i,
        {
            out.push(matrix.transform_point(self.vertices[i]));
            i += 1;
        }
        self.vertices = out;
        self.offset = matrix.transform_point(self.offset);
    }
}

/// How a subsystem may translate.
#[derive(Clone, Copy, Debug, PartialEq, Eq, Structural)]
pub enum SubsysTranslationType {
    NoTranslation,
    Unused,
    Regular,
    Turret,
    Triggered,
    Intrinsic,
}

/// The wire code of a translation type.
pub open spec fn translation_type_code(t: SubsysTranslationType) -> int {
    match t {
        SubsysTranslationType::NoTranslation => -1,
        SubsysTranslationType::Unused => 0,
        SubsysTranslationType::Regular => 1,
        SubsysTranslationType::Turret => 2,
        SubsysTranslationType::Triggered => 3,
        SubsysTranslationType::Intrinsic => 4,
    }
}

impl SubsysTranslationType {
    pub fn code(self) -> (r: i32)
        ensures
            r == translation_type_code(self),
    {
        match self {
            SubsysTranslationType::NoTranslation => -1,
            SubsysTranslationType::Unused => 0,
            SubsysTranslationType::Regular => 1,
            SubsysTranslationType::Turret => 2,
            SubsysTranslationType::Triggered => 3,
            SubsysTranslationType::Intrinsic => 4,
        }
    }
}

impl Default for SubsysTranslationType {
    fn default() -> (r: Self)
        ensures
            r is NoTranslation,
    {
        SubsysTranslationType::NoTranslation
    }
}

/// The axis a subsystem translates along.
#[derive(Clone, Copy, Debug, PartialEq, Eq, Structural)]
pub enum SubsysTranslationAxis {
    NoAxis,
    X,
    Z,
    Y,
    Other,
}

/// The wire code of a translation axis.
pub open spec fn translation_axis_code(t: SubsysTranslationAxis) -> int {
    match t {
        SubsysTranslationAxis::NoAxis => -1,
        SubsysTranslationAxis::X => 0,
        SubsysTranslationAxis::Z => 1,
        SubsysTranslationAxis::Y => 2,
        SubsysTranslationAxis::Other => 3,
    }
}

impl SubsysTranslationAxis {
    pub fn code(self) -> (r: i32)
        ensures
            r == translation_axis_code(self),
    {
        match self {
            SubsysTranslationAxis::NoAxis => -1,
            SubsysTranslationAxis::X => 0,
            SubsysTranslationAxis::Z => 1,
            SubsysTranslationAxis::Y => 2,
            SubsysTranslationAxis::Other => 3,
        }
    }
}

impl Default for SubsysTranslationAxis {
    fn default() -> (r: Self)
        ensures
            r is NoAxis,
    {
        SubsysTranslationAxis::NoAxis
    }
}

/// How a subsystem may rotate.
#[derive(Clone, Copy, Debug, PartialEq, Eq, Structural)]
pub enum SubsysRotationType {
    NoRotation,
    Unused,
    Regular,
    Turret,
    Triggered,
    Intrinsic,
}

/// The wire code of a rotation type.
pub open spec fn rotation_type_code(t: SubsysRotationType) -> int {
    match t {
        SubsysRotationType::NoRotation => -1,
        SubsysRotationType::Unused => 0,
        SubsysRotationType::Regular => 1,
        SubsysRotationType::Turret => 2,
        SubsysRotationType::Triggered => 3,
        SubsysRotationType::Intrinsic => 4,
    }
}

impl SubsysRotationType {
    pub fn code(self) -> (r: i32)
        ensures
            r == rotation_type_code(self),
    {
        match self {
            SubsysRotationType::NoRotation => -1,
            SubsysRotationType::Unused => 0,
            SubsysRotationType::Regular => 1,
            SubsysRotationType::Turret => 2,
            SubsysRotationType::Triggered => 3,
            SubsysRotationType::Intrinsic => 4,
        }
    }
}

impl Default for SubsysRotationType {
    fn default() -> (r: Self)
        ensures
            r is NoRotation,
    {
        SubsysRotationType::NoRotation
    }
}

/// The axis a subsystem rotates around.
#[derive(Clone, Copy, Debug, PartialEq, Eq, Structural)]
pub enum SubsysRotationAxis {
    NoAxis,
    X,
    Z,
    Y,
    Other,
}

/// The wire code of a rotation axis.
pub open spec fn rotation_axis_code(t: SubsysRotationAxis) -> int {
    match t {
        SubsysRotationAxis::NoAxis => -1,
        SubsysRotationAxis::X => 0,
        SubsysRotationAxis::Z => 1,
        SubsysRotationAxis::Y => 2,
        SubsysRotationAxis::Other => 3,
    }
}

impl SubsysRotationAxis {
    pub fn code(self) -> (r: i32)
        ensures
            r == rotation_axis_code(self),
    {
        match self {
            SubsysRotationAxis::NoAxis => -1,
            SubsysRotationAxis::X => 0,
            SubsysRotationAxis::Z => 1,
            SubsysRotationAxis::Y => 2,
            SubsysRotationAxis::Other => 3,
        }
    }
}

impl Default for SubsysRotationAxis {
    fn default() -> (r: Self)
        ensures
            r is NoAxis,
    {
        SubsysRotationAxis::NoAxis
    }
}

/// A derived semantic link between subobjects, recomputed from their names
/// and never hand-maintained.
#[derive(Clone, Copy, Debug, PartialEq, Eq, Structural)]
pub enum NameLink {
    /// Points from an object to its destroyed version.
    DestroyedVersion(ObjectId),
    /// The back-link of `DestroyedVersion`.
    DestroyedVersionOf(ObjectId),
    /// Points from an object to its debris version.
    LiveDebris(ObjectId),
    /// The back-link of `LiveDebris`.
    LiveDebrisOf(ObjectId),
    /// Points from the highest detail level to a lower one, with the level.
    DetailLevel(ObjectId, u8),
    /// The back-link of `DetailLevel`.
    DetailLevelOf(ObjectId, u8),
}

} // verus!
