use vstd::prelude::*;
use vstd::string::{StrSliceExecFns, StringSliceAdditionalSpecFns};
use vstd::utf8::encode_utf8;

use crate::bbox::{sanitize_spec, BoundingBox};
use crate::bsp::{BspData, BspNode, PolyVertex, Polygon};
use crate::entities::{
    light_kind_code, rotation_axis_code, rotation_type_code, translation_axis_code,
    translation_type_code, BspLight, Color, Dock, DockingPoint, EyePoint, GlowPoint,
    GlowPointBank, Insignia, InsigniaVertex, Path, PathPoint, SpecialPoint, ThrusterBank,
    ThrusterGlow, Turret, WeaponHardpoint,
};
use crate::ids::{ObjectId, PathId, PolygonId, TextureId};
use crate::model::SubObject;
use crate::scalar::Scalar;
use crate::shield::{ShieldNode, ShieldPolygon};
use crate::vec3d::{Mat3d, NormalVec3, Vec3d};
use crate::version::{version_code, Version};

verus! {

/// The four little-endian bytes of a 32-bit value.
pub open spec fn le4(x: u32) -> Seq<u8> {
    seq![
        (x & 0xff) as u8,
        ((x >> 8) & 0xff) as u8,
        ((x >> 16) & 0xff) as u8,
        ((x >> 24) & 0xff) as u8,
    ]
}

/// The little-endian bytes of a signed value (two's complement).
pub open spec fn le4i(x: int) -> Seq<u8> {
    le4((x % 0x1_0000_0000) as u32)
}

/// A length-prefixed text block: a four-byte byte count, then the UTF-8
/// bytes.
pub open spec fn str_block(cs: Seq<char>) -> Seq<u8> {
    le4(encode_utf8(cs).len() as u32) + encode_utf8(cs)
}

/// The twelve bytes of a vector: its three scalars, little endian.
pub open spec fn vec3d_bytes(v: Vec3d) -> Seq<u8> {
    le4(v.x.0) + le4(v.y.0) + le4(v.z.0)
}

/// The bytes of a matrix: its three columns.
pub open spec fn mat3d_bytes(m: Mat3d) -> Seq<u8> {
    vec3d_bytes(m.rvec) + vec3d_bytes(m.uvec) + vec3d_bytes(m.fvec)
}

/// The bytes of a box: the empty sentinel sanitized to all-zero, then both
/// corners.
pub open spec fn bbox_bytes(b: BoundingBox) -> Seq<u8> {
    vec3d_bytes(sanitize_spec(b).min) + vec3d_bytes(sanitize_spec(b).max)
}

/// A byte sink for one encoding session: the selected format revision and
/// the bytes produced so far. The revision is selected once per session and
/// consulted read-only at every version-sensitive field, so concurrent
/// sessions at different revisions cannot interfere.
#[derive(Debug)]
pub struct Writer {
    pub version: Version,
    pub out: Vec<u8>,
}

impl Writer {
    /// A fresh session at the given revision.
    pub fn new(version: Version) -> (r: Writer)
        ensures
            r.version == version,
            r.out@ == Seq::<u8>::empty(),
    {
        Writer { version, out: Vec::new() }
    }

    pub fn write_u8(&mut self, b: u8)
        ensures
            final(self).version == old(self).version,
            final(self).out@ == old(self).out@ + seq![b],
    {
        self.out.push(b);
        proof {
            assert(self.out@ =~= old(self).out@ + seq![b]);
        }
    }

    pub fn write_u32(&mut self, x: u32)
        ensures
            final(self).version == old(self).version,
            final(self).out@ == old(self).out@ + le4(x),
    {
        self.out.push((x & 0xff) as u8);
        self.out.push(((x >> 8) & 0xff) as u8);
        self.out.push(((x >> 16) & 0xff) as u8);
        self.out.push(((x >> 24) & 0xff) as u8);
        proof {
            assert(self.out@ =~= old(self).out@ + le4(x));
        }
    }

    pub fn write_i32(&mut self, x: i32)
        ensures
            final(self).version == old(self).version,
            final(self).out@ == old(self).out@ + le4i(x as int),
    {
        proof {
            assert(x as u32 == (x as int) % 0x1_0000_0000) by (bit_vector);
        }
        self.write_u32(x as u32);
    }

    pub fn write_scalar(&mut self, s: Scalar)
        ensures
            final(self).version == old(self).version,
            final(self).out@ == old(self).out@ + le4(s.0),
    {
        self.write_u32(s.0);
    }

    /// A length-prefixed text block: byte count, then the UTF-8 bytes.
    pub fn write_str(&mut self, s: &str)
        requires
            encode_utf8(s@).len() <= u32::MAX,
        ensures
            final(self).version == old(self).version,
            final(self).out@ == old(self).out@ + str_block(s@),
    {
        let bytes = s.as_bytes();
        self.write_u32(bytes.len() as u32);
        let mut i: usize = 0;
        while i < bytes.len()
            invariant
                0 <= i <= bytes@.len(),
                bytes@ == encode_utf8(s@),
                self.version == old(self).version,
                self.out@ == old(self).out@ + le4(encode_utf8(s@).len() as u32) + encode_utf8(
                    s@,
                ).take(i as int),
            decreases bytes@.len() - i,
        {
            self.out.push(bytes[i]);
            proof {
                assert(self.out@ =~= old(self).out@ + le4(encode_utf8(s@).len() as u32)
                    + encode_utf8(s@).take(i + 1 as int));
            }
            i += 1;
        }
        proof {
            assert(encode_utf8(s@).take(encode_utf8(s@).len() as int) =~= encode_utf8(s@));
            assert(self.out@ =~= old(self).out@ + str_block(s@));
        }
    }

    /// Appends another session's bytes (used for length-prefixed blocks).
    pub fn append_bytes(&mut self, bytes: Vec<u8>)
        ensures
            final(self).version == old(self).version,
            final(self).out@ == old(self).out@ + bytes@,
    {
        let mut b = bytes;
        self.out.append(&mut b);
    }
}

impl Vec3d {
    /// Encodes the three scalars, little endian.
    pub fn write_to(&self, w: &mut Writer)
        ensures
            final(w).version == old(w).version,
            final(w).out@ == old(w).out@ + vec3d_bytes(*self),
    {
        w.write_scalar(self.x);
        w.write_scalar(self.y);
        w.write_scalar(self.z);
        proof {
            assert(final(w).out@ =~= old(w).out@ + vec3d_bytes(*self));
        }
    }
}

impl Mat3d {
    /// Encodes the three columns.
    pub fn write_to(&self, w: &mut Writer)
        ensures
            final(w).version == old(w).version,
            final(w).out@ == old(w).out@ + mat3d_bytes(*self),
    {
        self.rvec.write_to(w);
        self.uvec.write_to(w);
        self.fvec.write_to(w);
        proof {
            assert(final(w).out@ =~= old(w).out@ + mat3d_bytes(*self));
        }
    }
}

impl BoundingBox {
    /// Encodes the sanitized corners (the wire format cannot express the
    /// empty sentinel).
    pub fn write_to(&self, w: &mut Writer)
        ensures
            final(w).version == old(w).version,
            final(w).out@ == old(w).out@ + bbox_bytes(*self),
    {
        let b = self.sanitize();
        b.min.write_to(w);
        b.max.write_to(w);
        proof {
            assert(final(w).out@ =~= old(w).out@ + bbox_bytes(*self));
        }
    }
}

impl Color {
    /// Encodes red, green, blue, and a zero pad byte.
    pub fn write_to(&self, w: &mut Writer)
        ensures
            final(w).version == old(w).version,
            final(w).out@ == old(w).out@ + color_bytes(*self),
    {
        w.write_u8(self.red);
        w.write_u8(self.green);
        w.write_u8(self.blue);
        w.write_u8(0);
        proof {
            assert(final(w).out@ =~= old(w).out@ + color_bytes(*self));
        }
    }
}

pub open spec fn color_bytes(c: Color) -> Seq<u8> {
    seq![c.red, c.green, c.blue, 0u8]
}

impl Version {
    /// Encodes the revision's numeric code.
    pub fn write_to(&self, w: &mut Writer)
        ensures
            final(w).version == old(w).version,
            final(w).out@ == old(w).out@ + le4i(version_code(*self)),
    {
        w.write_i32(self.code());
    }
}

/// The bytes of an eye point: the anchor (or the all-ones sentinel for
/// none), the position, and the normal.
pub open spec fn eye_point_bytes(e: EyePoint) -> Seq<u8> {
    le4(
        match e.attached_subobj {
            Some(id) => id.0,
            None => 0xffff_ffffu32,
        },
    ) + vec3d_bytes(e.position) + vec3d_bytes(e.normal.0)
}

impl EyePoint {
    pub fn write_to(&self, w: &mut Writer)
        ensures
            final(w).version == old(w).version,
            final(w).out@ == old(w).out@ + eye_point_bytes(*self),
    {
        match self.attached_subobj {
            Some(id) => w.write_u32(id.0),
            None => w.write_u32(0xffff_ffff),
        }
        self.position.write_to(w);
        self.normal.0.write_to(w);
        proof {
            assert(final(w).out@ =~= old(w).out@ + eye_point_bytes(*self));
        }
    }
}

/// The bytes of one waypoint: position, radius, then its turret ids with a
/// count prefix.
pub open spec fn path_point_bytes(p: PathPoint) -> Seq<u8> {
    vec3d_bytes(p.position) + le4(p.radius.0) + le4(p.turrets@.len() as u32) + id_list_bytes(
        p.turrets@,
    )
}

pub open spec fn id_list_bytes(s: Seq<ObjectId>) -> Seq<u8>
    decreases s.len(),
{
    if s.len() == 0 {
        Seq::empty()
    } else {
        id_list_bytes(s.drop_last()) + le4(s.last().0)
    }
}

impl PathPoint {
    pub fn write_to(&self, w: &mut Writer)
        requires
            self.turrets@.len() <= u32::MAX,
        ensures
            final(w).version == old(w).version,
            final(w).out@ == old(w).out@ + path_point_bytes(*self),
    {
        self.position.write_to(w);
        w.write_scalar(self.radius);
        w.write_u32(self.turrets.len() as u32);
        let ghost base = w.out@;
        let mut i: usize = 0;
        while i < self.turrets.len()
            invariant
                0 <= i <= self.turrets@.len(),
                w.version == old(w).version,
                w.out@ == base + id_list_bytes(self.turrets@.take(i as int)),
            decreases self.turrets@.len() - i,
        {
            proof {
                assert(self.turrets@.take(i + 1 as int).drop_last() =~= self.turrets@.take(
                    i as int,
                ));
            }
            w.write_u32(self.turrets[i].0);
            proof {
                assert(w.out@ =~= base + id_list_bytes(self.turrets@.take(i + 1 as int)));
            }
            i += 1;
        }
        proof {
            assert(self.turrets@.take(self.turrets@.len() as int) =~= self.turrets@);
            assert(final(w).out@ =~= old(w).out@ + path_point_bytes(*self));
        }
    }
}

/// The bytes of a path: its name; its parent name from revision 20.02 on;
/// its waypoints with a count prefix.
pub open spec fn path_bytes(p: Path, v: Version) -> Seq<u8> {
    str_block(p.name@) + (if version_code(v) >= 2002 {
        str_block(p.parent@)
    } else {
        Seq::empty()
    }) + le4(p.points@.len() as u32) + path_point_list_bytes(p.points@)
}

pub open spec fn path_point_list_bytes(s: Seq<PathPoint>) -> Seq<u8>
    decreases s.len(),
{
    if s.len() == 0 {
        Seq::empty()
    } else {
        path_point_list_bytes(s.drop_last()) + path_point_bytes(s.last())
    }
}

impl Path {
    pub fn write_to(&self, w: &mut Writer)
        requires
            encode_utf8(self.name@).len() <= u32::MAX,
            encode_utf8(self.parent@).len() <= u32::MAX,
            self.points@.len() <= u32::MAX,
            forall|i: int| 0 <= i < self.points@.len() ==> (#[trigger] self.points@[i]).turrets@.len()
                <= u32::MAX,
        ensures
            final(w).version == old(w).version,
            final(w).out@ == old(w).out@ + path_bytes(*self, old(w).version),
    {
        w.write_str(self.name.as_str());
        if w.version.code() >= 2002 {
            w.write_str(self.parent.as_str());
        }
        w.write_u32(self.points.len() as u32);
        let ghost base = w.out@;
        let mut i: usize = 0;
        while i < self.points.len()
            invariant
                0 <= i <= self.points@.len(),
                w.version == old(w).version,
                forall|j: int| 0 <= j < self.points@.len() ==> (#[trigger] self.points@[j]).turrets@.len()
                    <= u32::MAX,
                w.out@ == base + path_point_list_bytes(self.points@.take(i as int)),
            decreases self.points@.len() - i,
        {
            proof {
                assert(self.points@.take(i + 1 as int).drop_last() =~= self.points@.take(i as int));
            }
            self.points[i].write_to(w);
            proof {
                assert(w.out@ =~= base + path_point_list_bytes(self.points@.take(i + 1 as int)));
            }
            i += 1;
        }
        proof {
            assert(self.points@.take(self.points@.len() as int) =~= self.points@);
            assert(final(w).out@ =~= old(w).out@ + path_bytes(*self, old(w).version));
        }
    }
}

/// The bytes of a special point: its name (a `$` is prefixed when absent),
/// its properties, position, and radius.
pub open spec fn special_point_bytes(p: SpecialPoint) -> Seq<u8> {
    let name = if p.name@.len() > 0 && p.name@[0] == '$' {
        p.name@
    } else {
        seq!['$'] + p.name@
    };
    str_block(name) + str_block(p.properties@) + vec3d_bytes(p.position) + le4(p.radius.0)
}

impl SpecialPoint {
    pub fn write_to(&self, w: &mut Writer)
        requires
            encode_utf8(self.name@).len() + 4 <= u32::MAX,
            encode_utf8(seq!['$'] + self.name@).len() <= u32::MAX,
            encode_utf8(self.properties@).len() <= u32::MAX,
        ensures
            final(w).version == old(w).version,
            final(w).out@ == old(w).out@ + special_point_bytes(*self),
    {
        let n = self.name.as_str().unicode_len();
        if n > 0 && self.name.as_str().get_char(0) == '$' {
            w.write_str(self.name.as_str());
        } else {
            let mut prefixed = String::new();
            prefixed.append("$");
            prefixed.append(self.name.as_str());
            proof {
                reveal_strlit("$");
                assert(prefixed@ =~= seq!['$'] + self.name@);
            }
            w.write_str(prefixed.as_str());
        }
        w.write_str(self.properties.as_str());
        self.position.write_to(w);
        w.write_scalar(self.radius);
        proof {
            reveal_strlit("$");
            assert(final(w).out@ =~= old(w).out@ + special_point_bytes(*self));
        }
    }
}

/// The bytes of a weapon hardpoint: position and normal always; the angle
/// offset only at revisions that know it (21.18 and newer, except 22.00).
pub open spec fn weapon_hardpoint_bytes(p: WeaponHardpoint, v: Version) -> Seq<u8> {
    vec3d_bytes(p.position) + vec3d_bytes(p.normal.0) + (if version_code(v) >= 2118
        && version_code(v) != 2200 {
        le4(p.offset.0)
    } else {
        Seq::empty()
    })
}

impl WeaponHardpoint {
    pub fn write_to(&self, w: &mut Writer)
        ensures
            final(w).version == old(w).version,
            final(w).out@ == old(w).out@ + weapon_hardpoint_bytes(*self, old(w).version),
    {
        self.position.write_to(w);
        self.normal.0.write_to(w);
        let code = w.version.code();
        if code >= 2118 && code != 2200 {
            w.write_scalar(self.offset);
        }
        proof {
            assert(final(w).out@ =~= old(w).out@ + weapon_hardpoint_bytes(
                *self,
                old(w).version,
            ));
        }
    }
}

/// The bytes of one thruster glow: position and normal always; the radius
/// only after revision 20.04.
pub open spec fn thruster_glow_bytes(g: ThrusterGlow, v: Version) -> Seq<u8> {
    vec3d_bytes(g.position) + vec3d_bytes(g.normal.0) + (if version_code(v) > 2004 {
        le4(g.radius.0)
    } else {
        Seq::empty()
    })
}

impl ThrusterGlow {
    pub fn write_to(&self, w: &mut Writer)
        ensures
            final(w).version == old(w).version,
            final(w).out@ == old(w).out@ + thruster_glow_bytes(*self, old(w).version),
    {
        self.position.write_to(w);
        self.normal.0.write_to(w);
        if w.version.code() > 2004 {
            w.write_scalar(self.radius);
        }
        proof {
            assert(final(w).out@ =~= old(w).out@ + thruster_glow_bytes(*self, old(w).version));
        }
    }
}

/// The bytes of a thruster bank: the glow count; the properties from
/// revision 21.17 on; then each glow.
pub open spec fn thruster_bank_bytes(b: ThrusterBank, v: Version) -> Seq<u8> {
    le4(b.glows@.len() as u32) + (if version_code(v) >= 2117 {
        str_block(b.properties@)
    } else {
        Seq::empty()
    }) + thruster_glow_list_bytes(b.glows@, v)
}

pub open spec fn thruster_glow_list_bytes(s: Seq<ThrusterGlow>, v: Version) -> Seq<u8>
    decreases s.len(),
{
    if s.len() == 0 {
        Seq::empty()
    } else {
        thruster_glow_list_bytes(s.drop_last(), v) + thruster_glow_bytes(s.last(), v)
    }
}

impl ThrusterBank {
    pub fn write_to(&self, w: &mut Writer)
        requires
            self.glows@.len() <= u32::MAX,
            encode_utf8(self.properties@).len() <= u32::MAX,
        ensures
            final(w).version == old(w).version,
            final(w).out@ == old(w).out@ + thruster_bank_bytes(*self, old(w).version),
    {
        w.write_u32(self.glows.len() as u32);
        if w.version.code() >= 2117 {
            w.write_str(self.properties.as_str());
        }
        let ghost base = w.out@;
        let mut i: usize = 0;
        while i < self.glows.len()
            invariant
                0 <= i <= self.glows@.len(),
                w.version == old(w).version,
                w.out@ == base + thruster_glow_list_bytes(
                    self.glows@.take(i as int),
                    old(w).version,
                ),
            decreases self.glows@.len() - i,
        {
            proof {
                assert(self.glows@.take(i + 1 as int).drop_last() =~= self.glows@.take(i as int));
            }
            self.glows[i].write_to(w);
            proof {
                assert(w.out@ =~= base + thruster_glow_list_bytes(
                    self.glows@.take(i + 1 as int),
                    old(w).version,
                ));
            }
            i += 1;
        }
        proof {
            assert(self.glows@.take(self.glows@.len() as int) =~= self.glows@);
            assert(final(w).out@ =~= old(w).out@ + thruster_bank_bytes(*self, old(w).version));
        }
    }
}

/// The bytes of a docking port: properties; the path list (zero or one
/// entry); then the two derived docking points straddling the position along
/// the up vector.
pub open spec fn dock_bytes(d: Dock) -> Seq<u8> {
    let p1 = crate::vec3d::vsub_spec(d.position, d.uvec.0);
    let p2 = crate::vec3d::vadd_spec(d.position, d.uvec.0);
    str_block(d.properties@) + (match d.path {
        None => le4(0),
        Some(x) => le4(1) + le4(x.0),
    }) + le4(2) + vec3d_bytes(p1) + vec3d_bytes(d.fvec.0) + vec3d_bytes(p2) + vec3d_bytes(
        d.fvec.0,
    )
}

impl Dock {
    pub fn write_to(&self, w: &mut Writer)
        requires
            encode_utf8(self.properties@).len() <= u32::MAX,
        ensures
            final(w).version == old(w).version,
            final(w).out@ == old(w).out@ + dock_bytes(*self),
    {
        w.write_str(self.properties.as_str());
        match self.path {
            None => w.write_u32(0),
            Some(x) => {
                w.write_u32(1);
                w.write_u32(x.0);
            },
        }
        w.write_u32(2);
        let p1 = self.position.vsub(self.uvec.0);
        p1.write_to(w);
        self.fvec.0.write_to(w);
        let p2 = self.position.vadd(self.uvec.0);
        p2.write_to(w);
        self.fvec.0.write_to(w);
        proof {
            assert(final(w).out@ =~= old(w).out@ + dock_bytes(*self));
        }
    }
}

/// The bytes of one glow point: position, normal, radius.
pub open spec fn glow_point_bytes(g: GlowPoint) -> Seq<u8> {
    vec3d_bytes(g.position) + vec3d_bytes(g.normal) + le4(g.radius.0)
}

impl GlowPoint {
    pub fn write_to(&self, w: &mut Writer)
        ensures
            final(w).version == old(w).version,
            final(w).out@ == old(w).out@ + glow_point_bytes(*self),
    {
        self.position.write_to(w);
        self.normal.write_to(w);
        w.write_scalar(self.radius);
        proof {
            assert(final(w).out@ =~= old(w).out@ + glow_point_bytes(*self));
        }
    }
}

/// The bytes of a glow bank: timing and kind fields, the glow count, the
/// properties, then each glow.
pub open spec fn glow_bank_bytes(b: GlowPointBank) -> Seq<u8> {
    le4i(b.disp_time as int) + le4(b.on_time) + le4(b.off_time) + le4(b.obj_parent.0) + le4(b.lod)
        + le4(b.glow_type) + le4(b.glow_points@.len() as u32) + str_block(b.properties@)
        + glow_point_list_bytes(b.glow_points@)
}

pub open spec fn glow_point_list_bytes(s: Seq<GlowPoint>) -> Seq<u8>
    decreases s.len(),
{
    if s.len() == 0 {
        Seq::empty()
    } else {
        glow_point_list_bytes(s.drop_last()) + glow_point_bytes(s.last())
    }
}

impl GlowPointBank {
    pub fn write_to(&self, w: &mut Writer)
        requires
            self.glow_points@.len() <= u32::MAX,
            encode_utf8(self.properties@).len() <= u32::MAX,
        ensures
            final(w).version == old(w).version,
            final(w).out@ == old(w).out@ + glow_bank_bytes(*self),
    {
        w.write_i32(self.disp_time);
        w.write_u32(self.on_time);
        w.write_u32(self.off_time);
        w.write_u32(self.obj_parent.0);
        w.write_u32(self.lod);
        w.write_u32(self.glow_type);
        w.write_u32(self.glow_points.len() as u32);
        w.write_str(self.properties.as_str());
        let ghost base = w.out@;
        let mut i: usize = 0;
        while i < self.glow_points.len()
            invariant
                0 <= i <= self.glow_points@.len(),
                w.version == old(w).version,
                w.out@ == base + glow_point_list_bytes(self.glow_points@.take(i as int)),
            decreases self.glow_points@.len() - i,
        {
            proof {
                assert(self.glow_points@.take(i + 1 as int).drop_last() =~= self.glow_points@.take(
                    i as int,
                ));
            }
            self.glow_points[i].write_to(w);
            proof {
                assert(w.out@ =~= base + glow_point_list_bytes(
                    self.glow_points@.take(i + 1 as int),
                ));
            }
            i += 1;
        }
        proof {
            assert(self.glow_points@.take(self.glow_points@.len() as int)
                =~= self.glow_points@);
            assert(final(w).out@ =~= old(w).out@ + glow_bank_bytes(*self));
        }
    }
}

/// The bytes of a turret: base and gun objects, the firing normal, then the
/// fire points with a count prefix.
pub open spec fn turret_bytes(t: Turret) -> Seq<u8> {
    le4(t.base_obj.0) + le4(t.gun_obj.0) + vec3d_bytes(t.normal.0) + le4(
        t.fire_points@.len() as u32,
    ) + vec3d_list_bytes(t.fire_points@)
}

pub open spec fn vec3d_list_bytes(s: Seq<Vec3d>) -> Seq<u8>
    decreases s.len(),
{
    if s.len() == 0 {
        Seq::empty()
    } else {
        vec3d_list_bytes(s.drop_last()) + vec3d_bytes(s.last())
    }
}

impl Turret {
    pub fn write_to(&self, w: &mut Writer)
        requires
            self.fire_points@.len() <= u32::MAX,
        ensures
            final(w).version == old(w).version,
            final(w).out@ == old(w).out@ + turret_bytes(*self),
    {
        w.write_u32(self.base_obj.0);
        w.write_u32(self.gun_obj.0);
        self.normal.0.write_to(w);
        w.write_u32(self.fire_points.len() as u32);
        write_vec3d_list(w, &self.fire_points);
        proof {
            assert(final(w).out@ =~= old(w).out@ + turret_bytes(*self));
        }
    }
}

/// Writes a vector list without a count prefix.
fn write_vec3d_list(w: &mut Writer, s: &Vec<Vec3d>)
    ensures
        final(w).version == old(w).version,
        final(w).out@ == old(w).out@ + vec3d_list_bytes(s@),
{
    let mut i: usize = 0;
    while i < s.len()
        invariant
            0 <= i <= s@.len(),
            w.version == old(w).version,
            w.out@ == old(w).out@ + vec3d_list_bytes(s@.take(i as int)),
        decreases s@.len() - i,
    {
        proof {
            assert(s@.take(i + 1 as int).drop_last() =~= s@.take(i as int));
        }
        s[i].write_to(w);
        proof {
            assert(w.out@ =~= old(w).out@ + vec3d_list_bytes(s@.take(i + 1 as int)));
        }
        i += 1;
    }
    proof {
        assert(s@.take(s@.len() as int) =~= s@);
    }
}

/// The bytes of one insignia corner: its vertex id and texture coordinates.
pub open spec fn insignia_vertex_bytes(v: InsigniaVertex) -> Seq<u8> {
    le4(v.vertex_id.0) + le4(v.uv.0.0) + le4(v.uv.1.0)
}

/// The bytes of an insignia: detail level, face count, the vertex list with
/// a count prefix, the offset, then each face's three corners.
pub open spec fn insignia_bytes(t: Insignia) -> Seq<u8> {
    le4(t.detail_level) + le4(t.faces@.len() as u32) + le4(t.vertices@.len() as u32)
        + vec3d_list_bytes(t.vertices@) + vec3d_bytes(t.offset) + insignia_face_list_bytes(
        t.faces@,
    )
}

pub open spec fn insignia_face_list_bytes(
    s: Seq<(InsigniaVertex, InsigniaVertex, InsigniaVertex)>,
) -> Seq<u8>
    decreases s.len(),
{
    if s.len() == 0 {
        Seq::empty()
    } else {
        insignia_face_list_bytes(s.drop_last()) + insignia_vertex_bytes(s.last().0)
            + insignia_vertex_bytes(s.last().1) + insignia_vertex_bytes(s.last().2)
    }
}

impl Insignia {
    pub fn write_to(&self, w: &mut Writer)
        requires
            self.faces@.len() <= u32::MAX,
            self.vertices@.len() <= u32::MAX,
        ensures
            final(w).version == old(w).version,
            final(w).out@ == old(w).out@ + insignia_bytes(*self),
    {
        w.write_u32(self.detail_level);
        w.write_u32(self.faces.len() as u32);
        w.write_u32(self.vertices.len() as u32);
        write_vec3d_list(w, &self.vertices);
        self.offset.write_to(w);
        let ghost base = w.out@;
        let mut i: usize = 0;
        while i < self.faces.len()
            invariant
                0 <= i <= self.faces@.len(),
                w.version == old(w).version,
                w.out@ == base + insignia_face_list_bytes(self.faces@.take(i as int)),
            decreases self.faces@.len() - i,
        {
            proof {
                assert(self.faces@.take(i + 1 as int).drop_last() =~= self.faces@.take(i as int));
            }
            let f = &self.faces[i];
            w.write_u32(f.0.vertex_id.0);
            w.write_scalar(f.0.uv.0);
            w.write_scalar(f.0.uv.1);
            w.write_u32(f.1.vertex_id.0);
            w.write_scalar(f.1.uv.0);
            w.write_scalar(f.1.uv.1);
            w.write_u32(f.2.vertex_id.0);
            w.write_scalar(f.2.uv.0);
            w.write_scalar(f.2.uv.1);
            proof {
                assert(w.out@ =~= base + insignia_face_list_bytes(self.faces@.take(i + 1 as int)));
            }
            i += 1;
        }
        proof {
            assert(self.faces@.take(self.faces@.len() as int) =~= self.faces@);
            assert(final(w).out@ =~= old(w).out@ + insignia_bytes(*self));
        }
    }
}

/// The bytes of one shield triangle: its normal, its three vertex ids, and
/// its three neighbor ids.
pub open spec fn shield_polygon_bytes(p: ShieldPolygon) -> Seq<u8> {
    vec3d_bytes(p.normal) + le4(p.verts.0.0) + le4(p.verts.1.0) + le4(p.verts.2.0) + le4(
        p.neighbors.0.0,
    ) + le4(p.neighbors.1.0) + le4(p.neighbors.2.0)
}

impl ShieldPolygon {
    pub fn write_to(&self, w: &mut Writer)
        ensures
            final(w).version == old(w).version,
            final(w).out@ == old(w).out@ + shield_polygon_bytes(*self),
    {
        self.normal.write_to(w);
        w.write_u32(self.verts.0.0);
        w.write_u32(self.verts.1.0);
        w.write_u32(self.verts.2.0);
        w.write_u32(self.neighbors.0.0);
        w.write_u32(self.neighbors.1.0);
        w.write_u32(self.neighbors.2.0);
        proof {
            assert(final(w).out@ =~= old(w).out@ + shield_polygon_bytes(*self));
        }
    }
}

/// The tag that opens a shield node chunk: revisions before 22.00 use the
/// legacy single-byte form, later ones a 4-byte little-endian word.
pub open spec fn shield_tag_bytes(tag: u8, v: Version) -> Seq<u8> {
    if version_code(v) < 2200 {
        seq![tag]
    } else {
        le4(tag as u32)
    }
}

/// The chunk bytes of a shield node: a split is tag 0, its box, then both
/// children; a leaf is tag 1, its box, then its triangle ids with a count
/// prefix. The tag's width is the legacy one below revision 22.00.
pub open spec fn shield_node_bytes(n: ShieldNode, v: Version) -> Seq<u8>
    decreases n,
{
    match n {
        ShieldNode::Split { bbox, front, back } => shield_tag_bytes(0, v) + bbox_bytes(bbox)
            + shield_node_bytes(*front, v) + shield_node_bytes(*back, v),
        ShieldNode::Leaf { bbox, poly_list } => shield_tag_bytes(1, v) + bbox_bytes(bbox) + le4(
            poly_list@.len() as u32,
        ) + pid_list_bytes(poly_list@),
    }
}

pub open spec fn pid_list_bytes(s: Seq<PolygonId>) -> Seq<u8>
    decreases s.len(),
{
    if s.len() == 0 {
        Seq::empty()
    } else {
        pid_list_bytes(s.drop_last()) + le4(s.last().0)
    }
}

/// Every leaf's id list fits a 32-bit count.
pub open spec fn shield_counts_ok(n: ShieldNode) -> bool
    decreases n,
{
    match n {
        ShieldNode::Split { front, back, .. } => shield_counts_ok(*front) && shield_counts_ok(
            *back,
        ),
        ShieldNode::Leaf { poly_list, .. } => poly_list@.len() <= u32::MAX,
    }
}

fn write_shield_tag(w: &mut Writer, tag: u8)
    ensures
        final(w).version == old(w).version,
        final(w).out@ == old(w).out@ + shield_tag_bytes(tag, old(w).version),
{
    if w.version.code() < 2200 {
        w.write_u8(tag);
    } else {
        w.write_u32(tag as u32);
    }
}

fn write_shield_node(w: &mut Writer, n: &ShieldNode)
    requires
        shield_counts_ok(*n),
    ensures
        final(w).version == old(w).version,
        final(w).out@ == old(w).out@ + shield_node_bytes(*n, old(w).version),
    decreases *n,
{
    match n {
        ShieldNode::Split { bbox, front, back } => {
            write_shield_tag(w, 0);
            bbox.write_to(w);
            write_shield_node(w, front);
            write_shield_node(w, back);
            proof {
                assert(final(w).out@ =~= old(w).out@ + shield_node_bytes(*n, old(w).version));
            }
        },
        ShieldNode::Leaf { bbox, poly_list } => {
            write_shield_tag(w, 1);
            bbox.write_to(w);
            w.write_u32(poly_list.len() as u32);
            let ghost base = w.out@;
            let mut i: usize = 0;
            while i < poly_list.len()
                invariant
                    0 <= i <= poly_list@.len(),
                    w.version == old(w).version,
                    w.out@ == base + pid_list_bytes(poly_list@.take(i as int)),
                decreases poly_list@.len() - i,
            {
                proof {
                    assert(poly_list@.take(i + 1 as int).drop_last() =~= poly_list@.take(i as int));
                }
                w.write_u32(poly_list[i].0);
                proof {
                    assert(w.out@ =~= base + pid_list_bytes(poly_list@.take(i + 1 as int)));
                }
                i += 1;
            }
            proof {
                assert(poly_list@.take(poly_list@.len() as int) =~= poly_list@);
                assert(final(w).out@ =~= old(w).out@ + shield_node_bytes(*n, old(w).version));
            }
        },
    }
}

impl ShieldNode {
    /// Encodes the collision tree as a length-prefixed opaque block, so a
    /// reader can skip it by length alone; the node tags inside take the
    /// legacy single-byte form below revision 22.00.
    pub fn write_to(&self, w: &mut Writer)
        requires
            shield_counts_ok(*self),
            shield_node_bytes(*self, old(w).version).len() <= u32::MAX,
        ensures
            final(w).version == old(w).version,
            final(w).out@ == old(w).out@ + le4(
                shield_node_bytes(*self, old(w).version).len() as u32,
            ) + shield_node_bytes(*self, old(w).version),
    {
        let mut buf = Writer::new(w.version);
        write_shield_node(&mut buf, self);
        w.write_u32(buf.out.len() as u32);
        w.append_bytes(buf.out);
    }
}

/// The bytes of one polygon corner in a textured-polygon chunk.
pub open spec fn poly_vertex_bytes(v: PolyVertex) -> Seq<u8> {
    le4(v.vertex_id.0) + le4(v.normal_id.0) + le4(v.uv.0.0) + le4(v.uv.1.0)
}

pub open spec fn poly_vertex_list_bytes(s: Seq<PolyVertex>) -> Seq<u8>
    decreases s.len(),
{
    if s.len() == 0 {
        Seq::empty()
    } else {
        poly_vertex_list_bytes(s.drop_last()) + poly_vertex_bytes(s.last())
    }
}

/// The bytes of a textured polygon: its face normal, its texture, then its
/// corners with a count prefix.
pub open spec fn polygon_bytes(p: Polygon) -> Seq<u8> {
    vec3d_bytes(p.normal) + le4(p.texture.0) + le4(p.verts@.len() as u32) + poly_vertex_list_bytes(
        p.verts@,
    )
}

/// The chunk bytes of a render tree node. The tag numbering is the chunk
/// protocol's: 0 ends a branch, 4 (or the second-generation 7, from revision
/// 23.00 on) is a bounded split, 3 (or 6) a textured polygon leaf.
pub open spec fn bsp_node_bytes(n: BspNode, v: Version) -> Seq<u8>
    decreases n,
{
    let gen2 = version_code(v) >= 2300;
    match n {
        BspNode::Empty => le4(0),
        BspNode::Leaf { bbox, poly } => le4(
            if gen2 {
                6
            } else {
                3
            },
        ) + bbox_bytes(bbox) + polygon_bytes(poly),
        BspNode::Split { bbox, front, back } => le4(
            if gen2 {
                7
            } else {
                4
            },
        ) + bbox_bytes(bbox) + bsp_node_bytes(*front, v) + bsp_node_bytes(*back, v),
    }
}

/// Every polygon's corner list fits a 32-bit count.
pub open spec fn bsp_counts_ok(n: BspNode) -> bool
    decreases n,
{
    match n {
        BspNode::Split { front, back, .. } => bsp_counts_ok(*front) && bsp_counts_ok(*back),
        BspNode::Leaf { poly, .. } => poly.verts@.len() <= u32::MAX,
        BspNode::Empty => true,
    }
}

fn write_polygon(w: &mut Writer, p: &Polygon)
    requires
        p.verts@.len() <= u32::MAX,
    ensures
        final(w).version == old(w).version,
        final(w).out@ == old(w).out@ + polygon_bytes(*p),
{
    p.normal.write_to(w);
    w.write_u32(p.texture.0);
    w.write_u32(p.verts.len() as u32);
    let ghost base = w.out@;
    let mut i: usize = 0;
    while i < p.verts.len()
        invariant
            0 <= i <= p.verts@.len(),
            w.version == old(w).version,
            w.out@ == base + poly_vertex_list_bytes(p.verts@.take(i as int)),
        decreases p.verts@.len() - i,
    {
        proof {
            assert(p.verts@.take(i + 1 as int).drop_last() =~= p.verts@.take(i as int));
        }
        let pv = &p.verts[i];
        w.write_u32(pv.vertex_id.0);
        w.write_u32(pv.normal_id.0);
        w.write_scalar(pv.uv.0);
        w.write_scalar(pv.uv.1);
        proof {
            assert(w.out@ =~= base + poly_vertex_list_bytes(p.verts@.take(i + 1 as int)));
        }
        i += 1;
    }
    proof {
        assert(p.verts@.take(p.verts@.len() as int) =~= p.verts@);
        assert(final(w).out@ =~= old(w).out@ + polygon_bytes(*p));
    }
}

fn write_bsp_node(w: &mut Writer, n: &BspNode)
    requires
        bsp_counts_ok(*n),
    ensures
        final(w).version == old(w).version,
        final(w).out@ == old(w).out@ + bsp_node_bytes(*n, old(w).version),
    decreases *n,
{
    let gen2 = w.version.code() >= 2300;
    match n {
        BspNode::Empty => {
            w.write_u32(0);
            proof {
                assert(final(w).out@ =~= old(w).out@ + bsp_node_bytes(*n, old(w).version));
            }
        },
        BspNode::Leaf { bbox, poly } => {
            w.write_u32(if gen2 { 6 } else { 3 });
            bbox.write_to(w);
            write_polygon(w, poly);
            proof {
                assert(final(w).out@ =~= old(w).out@ + bsp_node_bytes(*n, old(w).version));
            }
        },
        BspNode::Split { bbox, front, back } => {
            w.write_u32(if gen2 { 7 } else { 4 });
            bbox.write_to(w);
            write_bsp_node(w, front);
            write_bsp_node(w, back);
            proof {
                assert(final(w).out@ =~= old(w).out@ + bsp_node_bytes(*n, old(w).version));
            }
        },
    }
}

/// The bytes of a geometry block's interior: a vertex-and-normal-pool chunk
/// (tag 1 with both counts), then the tree chunks.
pub open spec fn bsp_data_bytes(d: BspData, v: Version) -> Seq<u8> {
    le4(1) + le4(d.verts@.len() as u32) + le4(d.norms@.len() as u32) + vec3d_list_bytes(d.verts@)
        + vec3d_list_bytes(d.norms@) + bsp_node_bytes(d.collision_tree, v)
}

impl BspData {
    /// Encodes the render geometry as a zero word, then a length-prefixed
    /// opaque block, so a reader can skip it by length alone.
    pub fn write_to(&self, w: &mut Writer)
        requires
            self.verts@.len() <= u32::MAX,
            self.norms@.len() <= u32::MAX,
            bsp_counts_ok(self.collision_tree),
            bsp_data_bytes(*self, old(w).version).len() <= u32::MAX,
        ensures
            final(w).version == old(w).version,
            final(w).out@ == old(w).out@ + le4(0) + le4(
                bsp_data_bytes(*self, old(w).version).len() as u32,
            ) + bsp_data_bytes(*self, old(w).version),
    {
        w.write_u32(0);
        let mut buf = Writer::new(w.version);
        buf.write_u32(1);
        buf.write_u32(self.verts.len() as u32);
        buf.write_u32(self.norms.len() as u32);
        write_vec3d_list(&mut buf, &self.verts);
        write_vec3d_list(&mut buf, &self.norms);
        write_bsp_node(&mut buf, &self.collision_tree);
        proof {
            assert(buf.out@ =~= bsp_data_bytes(*self, old(w).version));
        }
        w.write_u32(buf.out.len() as u32);
        w.append_bytes(buf.out);
    }
}

/// The bytes of a subobject: its id; then radius, parent, offset — in that
/// order from revision 21.16 on, as parent, offset, radius before it; the
/// geometric center and box; name and properties; the rotation classifiers;
/// the translation classifiers from revision 23.01 on; and the geometry
/// block. An absent parent encodes as the all-ones sentinel.
pub open spec fn subobject_head_bytes(s: SubObject, v: Version) -> Seq<u8> {
    let parent_word = le4(
        match s.parent {
            Some(p) => p.0,
            None => 0xffff_ffffu32,
        },
    );
    le4(s.obj_id.0) + (if version_code(v) >= 2116 {
        le4(s.radius.0) + parent_word + vec3d_bytes(s.offset)
    } else {
        parent_word + vec3d_bytes(s.offset) + le4(s.radius.0)
    })
}

pub open spec fn subobject_mid_bytes(s: SubObject) -> Seq<u8> {
    vec3d_bytes(s.geo_center) + bbox_bytes(s.bbox) + str_block(s.name@) + str_block(s.properties@)
}

pub open spec fn subobject_tail_bytes(s: SubObject, v: Version) -> Seq<u8> {
    le4i(rotation_type_code(s.rotation_type)) + le4i(rotation_axis_code(s.rotation_axis)) + (if
    version_code(v) >= 2301 {
        le4i(translation_type_code(s.translation_type)) + le4i(
            translation_axis_code(s.translation_axis),
        )
    } else {
        Seq::empty()
    }) + le4(0) + le4(bsp_data_bytes(s.bsp_data, v).len() as u32) + bsp_data_bytes(s.bsp_data, v)
}

/// The bytes of a subobject: its id; then radius, parent, offset — in that
/// order from revision 21.16 on, as parent, offset, radius before it; the
/// geometric center and box; name and properties; the rotation classifiers;
/// the translation classifiers from revision 23.01 on; and the geometry
/// block. An absent parent encodes as the all-ones sentinel.
pub open spec fn subobject_bytes(s: SubObject, v: Version) -> Seq<u8> {
    subobject_head_bytes(s, v) + subobject_mid_bytes(s) + subobject_tail_bytes(s, v)
}

impl SubObject {
    #[verifier::rlimit(100)]
    #[verifier::spinoff_prover]
    pub fn write_to(&self, w: &mut Writer)
        requires
            encode_utf8(self.name@).len() <= u32::MAX,
            encode_utf8(self.properties@).len() <= u32::MAX,
            self.bsp_data.verts@.len() <= u32::MAX,
            self.bsp_data.norms@.len() <= u32::MAX,
            bsp_counts_ok(self.bsp_data.collision_tree),
            bsp_data_bytes(self.bsp_data, old(w).version).len() <= u32::MAX,
        ensures
            final(w).version == old(w).version,
            final(w).out@ == old(w).out@ + subobject_bytes(*self, old(w).version),
    {
        w.write_u32(self.obj_id.0);
        let parent_word = match self.parent {
            Some(p) => p.0,
            None => 0xffff_ffff,
        };
        if w.version.code() >= 2116 {
            w.write_scalar(self.radius);
            w.write_u32(parent_word);
            self.offset.write_to(w);
        } else {
            w.write_u32(parent_word);
            self.offset.write_to(w);
            w.write_scalar(self.radius);
        }
        proof {
            assert(w.out@ =~= old(w).out@ + subobject_head_bytes(*self, old(w).version));
        }
        let ghost g1 = w.out@;
        self.geo_center.write_to(w);
        self.bbox.write_to(w);
        w.write_str(self.name.as_str());
        w.write_str(self.properties.as_str());
        proof {
            assert(w.out@ =~= g1 + subobject_mid_bytes(*self));
        }
        let ghost g2 = w.out@;
        w.write_i32(self.rotation_type.code());
        w.write_i32(self.rotation_axis.code());
        if w.version.code() >= 2301 {
            w.write_i32(self.translation_type.code());
            w.write_i32(self.translation_axis.code());
        }
        self.bsp_data.write_to(w);
        proof {
            assert(w.out@ =~= g2 + subobject_tail_bytes(*self, old(w).version));
            assert(final(w).out@ =~= old(w).out@ + subobject_bytes(*self, old(w).version));
        }
    }
}

} // verus!
