use vstd::pervasive::VecAdditionalExecFns;
use vstd::prelude::*;
use vstd::string::StrSliceExecFns;

use crate::bbox::BoundingBox;
use crate::bsp::{leaves_spec, BspData, BspNode};
use crate::entities::{
    field_equals, field_equals_spec, str_eq, Dock, EyePoint, GlowPoint, GlowPointBank, Insignia,
    NameLink, Path, SpecialPoint, SubsysRotationAxis, SubsysRotationType, SubsysTranslationAxis,
    SubsysTranslationType, ThrusterBank, ThrusterGlow, Turret, WeaponHardpoint,
};
use crate::ids::{ObjVec, ObjectId, PathId, TextureId};
use crate::scalar::{
    fmax_bits, fmin_bits, lt_bits, Scalar, Scalar64, NEG_RADIUS_FLOOR_BITS, RADIUS_FLOOR_BITS,
    ZERO_BITS,
};
use crate::shield::ShieldData;
use crate::vec3d::{
    magnitude_spec, transform_point_spec, vadd_spec, vsub_spec, zero_vec, Mat3d, Mat4, Vec3d,
};
use crate::version::{version_code, Version};

verus! {

/// The fatal internal-consistency fault: a parent chain that loops. The data
/// model is corrupt; hierarchy walks surface this instead of spinning.
#[derive(Clone, Copy, Debug, PartialEq, Eq, Structural)]
pub struct CycleDetected;

/// One rigid sub-mesh of the model's hierarchy. The parent link is
/// authoritative; the children array and the name links are derived and
/// recomputed wholesale, never hand-patched.
#[derive(Debug)]
pub struct SubObject {
    pub obj_id: ObjectId,
    pub radius: Scalar,
    pub parent: Option<ObjectId>,
    pub offset: Vec3d,
    pub geo_center: Vec3d,
    pub bbox: BoundingBox,
    pub name: String,
    pub properties: String,
    pub rotation_type: SubsysRotationType,
    pub rotation_axis: SubsysRotationAxis,
    pub translation_type: SubsysTranslationType,
    pub translation_axis: SubsysTranslationAxis,
    pub bsp_data: BspData,
    /// Derived: recomputed from every object's `parent` field.
    pub children: Vec<ObjectId>,
    /// Derived: set while reading a file.
    pub is_debris_model: bool,
    /// Derived: recomputed from the objects' names.
    pub name_links: Vec<NameLink>,
}

impl Default for SubObject {
    fn default() -> (r: Self)
        ensures
            r.obj_id == (ObjectId(0)),
            r.radius.0 == ZERO_BITS,
            r.parent is None,
            r.offset == zero_vec(),
            r.geo_center == zero_vec(),
            r.bbox == crate::bbox::zero_bbox(),
            r.name@.len() == 0,
            r.properties@.len() == 0,
            r.children@.len() == 0,
            !r.is_debris_model,
            r.name_links@.len() == 0,
            r.bsp_data.verts@.len() == 0,
            r.bsp_data.norms@.len() == 0,
            r.bsp_data.collision_tree is Empty,
    {
        SubObject {
            obj_id: ObjectId(0),
            radius: Scalar(ZERO_BITS),
            parent: None,
            offset: Vec3d::zero(),
            geo_center: Vec3d::zero(),
            bbox: BoundingBox::zero(),
            name: String::new(),
            properties: String::new(),
            rotation_type: SubsysRotationType::NoRotation,
            rotation_axis: SubsysRotationAxis::NoAxis,
            translation_type: SubsysTranslationType::NoTranslation,
            translation_axis: SubsysTranslationAxis::NoAxis,
            bsp_data: BspData::default(),
            children: Vec::new(),
            is_debris_model: false,
            name_links: Vec::new(),
        }
    }
}

/// The maximum-magnitude fold a radius recomputation performs: the running
/// radius grows to each vertex's magnitude that strictly exceeds it.
pub open spec fn radius_fold(s: Seq<Vec3d>, init: u32) -> u32
    decreases s.len(),
{
    if s.len() == 0 {
        init
    } else {
        let prev = radius_fold(s.drop_last(), init);
        if lt_bits(prev, magnitude_spec(s.last())) {
            magnitude_spec(s.last())
        } else {
            prev
        }
    }
}

/// One componentwise step of the corner-growing fold `recalc_bbox` performs:
/// a strictly smaller value replaces the minimum, a strictly larger one the
/// maximum (NaN never replaces anything).
pub open spec fn bbox_grow_spec(b: BoundingBox, v: Vec3d) -> BoundingBox {
    BoundingBox {
        min: Vec3d {
            x: if lt_bits(v.x.0, b.min.x.0) {
                v.x
            } else {
                b.min.x
            },
            y: if lt_bits(v.y.0, b.min.y.0) {
                v.y
            } else {
                b.min.y
            },
            z: if lt_bits(v.z.0, b.min.z.0) {
                v.z
            } else {
                b.min.z
            },
        },
        max: Vec3d {
            x: if lt_bits(b.max.x.0, v.x.0) {
                v.x
            } else {
                b.max.x
            },
            y: if lt_bits(b.max.y.0, v.y.0) {
                v.y
            } else {
                b.max.y
            },
            z: if lt_bits(b.max.z.0, v.z.0) {
                v.z
            } else {
                b.max.z
            },
        },
    }
}

/// The corner-growing fold over a vertex pool.
pub open spec fn bbox_grow_fold(s: Seq<Vec3d>, init: BoundingBox) -> BoundingBox
    decreases s.len(),
{
    if s.len() == 0 {
        init
    } else {
        bbox_grow_spec(bbox_grow_fold(s.drop_last(), init), s.last())
    }
}

impl SubObject {
    /// The authoritative parent link.
    pub fn parent(&self) -> (r: Option<ObjectId>)
        ensures
            r == self.parent,
    {
        self.parent
    }

    /// The derived children array.
    pub fn children(&self) -> (r: &Vec<ObjectId>)
        ensures
            r == &self.children,
    {
        &self.children
    }

    /// Whether any name link marks this object as someone's destroyed
    /// version.
    pub fn is_destroyed_model(&self) -> (r: bool)
        ensures
            r == exists|i: int|
                0 <= i < self.name_links@.len() && (#[trigger] self.name_links@[i])
                    is DestroyedVersionOf,
    {
        let mut i: usize = 0;
        while i < self.name_links.len()
            invariant
                0 <= i <= self.name_links@.len(),
                forall|j: int| 0 <= j < i ==> !((#[trigger] self.name_links@[j]) is DestroyedVersionOf),
            decreases self.name_links@.len() - i,
        {
            if matches!(self.name_links[i], NameLink::DestroyedVersionOf(_)) {
                return true;
            }
            i += 1;
        }
        false
    }

    /// Recomputes the radius as the maximum vertex magnitude, with a small
    /// positive floor.
    pub fn recalc_radius(&mut self)
        ensures
            final(self).radius.0 == radius_fold(old(self).bsp_data.verts@, RADIUS_FLOOR_BITS),
            *final(self) == (SubObject { radius: final(self).radius, ..*old(self) }),
    {
        let mut radius = Scalar(RADIUS_FLOOR_BITS);
        let n = self.bsp_data.verts.len();
        let mut i: usize = 0;
        while i < n
            invariant
                0 <= i <= n,
                n == self.bsp_data.verts@.len(),
                self.bsp_data.verts == old(self).bsp_data.verts,
                radius.0 == radius_fold(self.bsp_data.verts@.take(i as int), RADIUS_FLOOR_BITS),
            decreases n - i,
        {
            proof {
                assert(self.bsp_data.verts@.take(i + 1 as int).drop_last()
                    =~= self.bsp_data.verts@.take(i as int));
            }
            let mag = self.bsp_data.verts[i].magnitude();
            if radius.lt(mag) {
                radius = mag;
            }
            i += 1;
        }
        proof {
            assert(self.bsp_data.verts@.take(n as int) =~= self.bsp_data.verts@);
        }
        self.radius = radius;
    }

    /// Recomputes the bounding box by growing both corners from the first
    /// vertex across the whole pool.
    pub fn recalc_bbox(&mut self)
        requires
            old(self).bsp_data.verts@.len() > 0,
        ensures
            final(self).bbox == bbox_grow_fold(
                old(self).bsp_data.verts@,
                BoundingBox {
                    min: old(self).bsp_data.verts@[0],
                    max: old(self).bsp_data.verts@[0],
                },
            ),
            *final(self) == (SubObject { bbox: final(self).bbox, ..*old(self) }),
    {
        let first = self.bsp_data.verts[0];
        let mut bbox = BoundingBox { min: first, max: first };
        let n = self.bsp_data.verts.len();
        let mut i: usize = 0;
        while i < n
            invariant
                0 <= i <= n,
                n == self.bsp_data.verts@.len(),
                self.bsp_data.verts == old(self).bsp_data.verts,
                bbox == bbox_grow_fold(
                    self.bsp_data.verts@.take(i as int),
                    BoundingBox {
                        min: self.bsp_data.verts@[0],
                        max: self.bsp_data.verts@[0],
                    },
                ),
            decreases n - i,
        {
            proof {
                assert(self.bsp_data.verts@.take(i + 1 as int).drop_last()
                    =~= self.bsp_data.verts@.take(i as int));
            }
            let v = self.bsp_data.verts[i];
            if v.x.lt(bbox.min.x) {
                bbox.min.x = v.x;
            }
            if v.y.lt(bbox.min.y) {
                bbox.min.y = v.y;
            }
            if v.z.lt(bbox.min.z) {
                bbox.min.z = v.z;
            }
            if bbox.max.x.lt(v.x) {
                bbox.max.x = v.x;
            }
            if bbox.max.y.lt(v.y) {
                bbox.max.y = v.y;
            }
            if bbox.max.z.lt(v.z) {
                bbox.max.z = v.z;
            }
            i += 1;
        }
        proof {
            assert(self.bsp_data.verts@.take(n as int) =~= self.bsp_data.verts@);
        }
        self.bbox = bbox;
    }

    /// Whether the object marks a subsystem (`$special` equals `subsystem`).
    pub fn is_subsystem(&self) -> (r: bool)
        ensures
            r == field_equals_spec(self.properties@, "$special"@, "subsystem"@),
    {
        field_equals(self.properties.as_str(), "$special", "subsystem")
    }
}

/// The model-wide header: global radius, flags, detail levels, mass and
/// inverse inertia, cross sections, and legacy lights.
#[derive(Debug)]
pub struct ObjHeader {
    pub max_radius: Scalar,
    pub obj_flags: u32,
    pub num_subobjects: u32,
    pub bbox: BoundingBox,
    pub detail_levels: Vec<ObjectId>,
    pub mass: Scalar,
    pub center_of_mass: Vec3d,
    pub moment_of_inertia: Mat3d,
    pub cross_sections: Vec<(Scalar, Scalar)>,
    pub bsp_lights: Vec<crate::entities::BspLight>,
}

impl Default for ObjHeader {
    fn default() -> (r: Self)
        ensures
            r.max_radius.0 == ZERO_BITS,
            r.obj_flags == 0,
            r.num_subobjects == 0,
            r.detail_levels@.len() == 0,
            r.mass.0 == ZERO_BITS,
            r.cross_sections@.len() == 0,
            r.bsp_lights@.len() == 0,
            r.bbox == crate::bbox::zero_bbox(),
            r.center_of_mass == zero_vec(),
            r.moment_of_inertia == (Mat3d {
                rvec: zero_vec(),
                uvec: zero_vec(),
                fvec: zero_vec(),
            }),
    {
        ObjHeader {
            max_radius: Scalar(ZERO_BITS),
            obj_flags: 0,
            num_subobjects: 0,
            bbox: BoundingBox::zero(),
            detail_levels: Vec::new(),
            mass: Scalar(ZERO_BITS),
            center_of_mass: Vec3d::zero(),
            moment_of_inertia: Mat3d {
                rvec: Vec3d::zero(),
                uvec: Vec3d::zero(),
                fvec: Vec3d::zero(),
            },
            cross_sections: Vec::new(),
            bsp_lights: Vec::new(),
        }
    }
}

/// Selects one value of a kind, or all of them.
pub enum Selection<T> {
    All,
    One(T),
}

/// A fatal finding: the data is inconsistent in a way the consumer rejects.
#[derive(Clone, Debug)]
pub enum Error {
    InvalidTurretGunSubobject(usize),
    TooManyDebrisObjects,
    DetailObjWithParent(ObjectId),
    DetailAndDebrisObj(ObjectId),
    TooManyVerts(ObjectId),
    TooManyNorms(ObjectId),
    UnnamedSubObject(ObjectId),
    DuplicateSubobjectName(String),
}

/// A non-fatal finding the consumer reports.
#[derive(Clone, Debug)]
pub enum Warning {
    RadiusTooSmall(Option<ObjectId>),
    BBoxTooSmall(Option<ObjectId>),
    InvertedBBox(Option<ObjectId>),
    UntexturedPolygons,
    DockingBayWithoutPath(usize),
    ThrusterPropertiesInvalidVersion(usize),
    WeaponOffsetInvalidVersion { primary: bool, bank: usize, point: usize },
    SubObjectTranslationInvalidVersion(ObjectId),
    TooFewTurretFirePoints(usize),
    TooManyTurretFirePoints(usize),
    DuplicatePathName(String),
    DuplicateDetailLevel(ObjectId),
    TooManyEyePoints,
    TooManyTextures,
    InvalidDockParentSubmodel(usize),
    Detail0NonZeroOffset,
    PathNameTooLong(usize),
    SpecialPointNameTooLong(usize),
    SubObjectNameTooLong(ObjectId),
    DockingBayNameTooLong(usize),
    SubObjectPropertiesTooLong(ObjectId),
    ThrusterPropertiesTooLong(usize),
    DockingBayPropertiesTooLong(usize),
    GlowBankPropertiesTooLong(usize),
    SpecialPointPropertiesTooLong(usize),
}

/// The whole in-memory asset: the header, the subobject table, every kind of
/// auxiliary point data, the optional shield, and the accumulated findings.
#[derive(Debug)]
pub struct Model {
    pub version: Version,
    pub header: ObjHeader,
    pub sub_objects: ObjVec<SubObject>,
    pub textures: Vec<String>,
    pub paths: Vec<Path>,
    pub special_points: Vec<SpecialPoint>,
    pub eye_points: Vec<EyePoint>,
    pub primary_weps: Vec<Vec<WeaponHardpoint>>,
    pub secondary_weps: Vec<Vec<WeaponHardpoint>>,
    pub turrets: Vec<Turret>,
    pub thruster_banks: Vec<ThrusterBank>,
    pub glow_banks: Vec<GlowPointBank>,
    pub visual_center: Vec3d,
    pub comments: String,
    pub docking_bays: Vec<Dock>,
    pub insignias: Vec<Insignia>,
    pub shield_data: Option<ShieldData>,
    pub untextured_idx: Option<TextureId>,
    /// The accumulated non-fatal findings, kept as a duplicate-free list.
    pub warnings: Vec<Warning>,
    /// The accumulated fatal findings, kept as a duplicate-free list.
    pub errors: Vec<Error>,
}

/// One step of the fueled parent walk an ancestry query performs: reaching
/// the candidate succeeds, reaching a root fails, and running out of fuel
/// signals the cycle fault.
pub open spec fn ancestor_walk(
    objs: Seq<SubObject>,
    cur: Option<ObjectId>,
    anc: ObjectId,
    fuel: nat,
) -> Result<bool, CycleDetected>
    decreases fuel,
{
    match cur {
        None => Ok(false),
        Some(p) => if p == anc {
            Ok(true)
        } else if !(p.0 < objs.len()) {
            Ok(false)
        } else if fuel == 0 {
            Err(CycleDetected)
        } else {
            ancestor_walk(objs, objs[p.0 as int].parent, anc, (fuel - 1) as nat)
        },
    }
}

/// Whether `maybe_ancestor` is `obj_id` or one of its ancestors.
pub open spec fn is_ancestor_spec(objs: Seq<SubObject>, obj_id: ObjectId, anc: ObjectId) -> Result<
    bool,
    CycleDetected,
> {
    if obj_id == anc {
        Ok(true)
    } else if !(obj_id.0 < objs.len()) {
        Ok(false)
    } else {
        ancestor_walk(objs, objs[obj_id.0 as int].parent, anc, objs.len() + 1)
    }
}

/// The fueled sum of the offsets along the parent chain.
pub open spec fn offset_walk(
    objs: Seq<SubObject>,
    acc: Vec3d,
    cur: Option<ObjectId>,
    fuel: nat,
) -> Result<Vec3d, CycleDetected>
    decreases fuel,
{
    match cur {
        None => Ok(acc),
        Some(p) => if !(p.0 < objs.len()) {
            Ok(acc)
        } else if fuel == 0 {
            Err(CycleDetected)
        } else {
            offset_walk(
                objs,
                vadd_spec(acc, objs[p.0 as int].offset),
                objs[p.0 as int].parent,
                (fuel - 1) as nat,
            )
        },
    }
}

/// The total offset of a subobject relative to the whole model.
pub open spec fn total_offset_spec(objs: Seq<SubObject>, id: ObjectId) -> Result<
    Vec3d,
    CycleDetected,
> {
    offset_walk(objs, objs[id.0 as int].offset, objs[id.0 as int].parent, objs.len() + 1)
}

fn ancestor_walk_exec(objs: &ObjVec<SubObject>, cur: Option<ObjectId>, anc: ObjectId, fuel: usize) -> (r: Result<
    bool,
    CycleDetected,
>)
    ensures
        r == ancestor_walk(objs@, cur, anc, fuel as nat),
    decreases fuel,
{
    match cur {
        None => Ok(false),
        Some(p) => {
            if p == anc {
                Ok(true)
            } else if !((p.0 as usize) < objs.len()) {
                Ok(false)
            } else if fuel == 0 {
                Err(CycleDetected)
            } else {
                ancestor_walk_exec(objs, objs.at(p).parent, anc, fuel - 1)
            }
        },
    }
}

fn offset_walk_exec(objs: &ObjVec<SubObject>, acc: Vec3d, cur: Option<ObjectId>, fuel: usize) -> (r: Result<
    Vec3d,
    CycleDetected,
>)
    ensures
        r == offset_walk(objs@, acc, cur, fuel as nat),
    decreases fuel,
{
    match cur {
        None => Ok(acc),
        Some(p) => {
            if !((p.0 as usize) < objs.len()) {
                Ok(acc)
            } else if fuel == 0 {
                Err(CycleDetected)
            } else {
                offset_walk_exec(objs, acc.vadd(objs.at(p).offset), objs.at(p).parent, fuel - 1)
            }
        },
    }
}

impl Model {
    /// Whether `maybe_ancestor` is `obj_id` itself or one of its ancestors in
    /// the subobject hierarchy. A parent chain longer than the table (which
    /// can only mean a loop) is the fatal cycle fault, reported rather than
    /// walked forever.
    pub fn is_obj_id_ancestor(&self, obj_id: ObjectId, maybe_ancestor: ObjectId) -> (r: Result<
        bool,
        CycleDetected,
    >)
        requires
            obj_id.0 < self.sub_objects@.len(),
            self.sub_objects@.len() < usize::MAX,
        ensures
            r == is_ancestor_spec(self.sub_objects@, obj_id, maybe_ancestor),
    {
        if obj_id == maybe_ancestor {
            return Ok(true);
        }
        let fuel = self.sub_objects.len() + 1;
        ancestor_walk_exec(
            &self.sub_objects,
            self.sub_objects.at(obj_id).parent,
            maybe_ancestor,
            fuel,
        )
    }

    /// The subobject's offset summed with all of its ancestors' offsets: its
    /// position relative to the whole model. A looping parent chain is the
    /// fatal cycle fault.
    pub fn get_total_subobj_offset(&self, id: ObjectId) -> (r: Result<Vec3d, CycleDetected>)
        requires
            id.0 < self.sub_objects@.len(),
            self.sub_objects@.len() < usize::MAX,
        ensures
            r == total_offset_spec(self.sub_objects@, id),
    {
        let fuel = self.sub_objects.len() + 1;
        offset_walk_exec(
            &self.sub_objects,
            self.sub_objects.at(id).offset,
            self.sub_objects.at(id).parent,
            fuel,
        )
    }

    /// The detail level whose hierarchy contains the object, if any: the
    /// index of the first detail-level root that is the object's ancestor.
    pub fn get_sobj_detail_level(&self, obj_id: ObjectId) -> (r: Result<
        Option<u32>,
        CycleDetected,
    >)
        requires
            obj_id.0 < self.sub_objects@.len(),
            self.sub_objects@.len() < usize::MAX,
            self.header.detail_levels@.len() <= u32::MAX,
        ensures
            (match r {
                Ok(Some(lvl)) => lvl < self.header.detail_levels@.len() && is_ancestor_spec(
                    self.sub_objects@,
                    obj_id,
                    self.header.detail_levels@[lvl as int],
                ) == Ok::<bool, CycleDetected>(true) && (forall|j: int|
                    0 <= j < lvl ==> is_ancestor_spec(
                        self.sub_objects@,
                        obj_id,
                        self.header.detail_levels@[j],
                    ) == Ok::<bool, CycleDetected>(false)),
                Ok(None) => forall|j: int|
                    0 <= j < self.header.detail_levels@.len() ==> is_ancestor_spec(
                        self.sub_objects@,
                        obj_id,
                        self.header.detail_levels@[j],
                    ) == Ok::<bool, CycleDetected>(false),
                Err(_) => exists|j: int|
                    0 <= j < self.header.detail_levels@.len() && is_ancestor_spec(
                        self.sub_objects@,
                        obj_id,
                        #[trigger] self.header.detail_levels@[j],
                    ) == Err::<bool, CycleDetected>(CycleDetected),
            }),
    {
        let mut i: usize = 0;
        while i < self.header.detail_levels.len()
            invariant
                0 <= i <= self.header.detail_levels@.len(),
                self.header.detail_levels@.len() <= u32::MAX,
                obj_id.0 < self.sub_objects@.len(),
                self.sub_objects@.len() < usize::MAX,
                forall|j: int|
                    0 <= j < i ==> is_ancestor_spec(
                        self.sub_objects@,
                        obj_id,
                        self.header.detail_levels@[j],
                    ) == Ok::<bool, CycleDetected>(false),
            decreases self.header.detail_levels@.len() - i,
        {
            match self.is_obj_id_ancestor(obj_id, self.header.detail_levels[i]) {
                Ok(true) => {
                    return Ok(Some(i as u32));
                },
                Ok(false) => {},
                Err(e) => {
                    return Err(e);
                },
            }
            i += 1;
        }
        Ok(None)
    }

    /// The names of all subobjects, in table order.
    pub fn get_subobj_names(&self) -> (r: Vec<String>)
        requires
            self.sub_objects@.len() <= u32::MAX,
        ensures
            r@.len() == self.sub_objects@.len(),
            forall|i: int| 0 <= i < r@.len() ==> r@[i]@ == self.sub_objects@[i].name@,
    {
        let mut ret: Vec<String> = Vec::new();
        let n = self.sub_objects.len();
        let mut i: usize = 0;
        while i < n
            invariant
                0 <= i <= n,
                n == self.sub_objects@.len() <= u32::MAX,
                ret@.len() == i,
                forall|j: int| 0 <= j < i ==> ret@[j]@ == self.sub_objects@[j].name@,
            decreases n - i,
        {
            ret.push(self.sub_objects.at(ObjectId(i as u32)).name.clone());
            i += 1;
        }
        ret
    }

    /// The stored id of the lowest-index subobject with the given name, if
    /// any (exact, case-sensitive match).
    pub fn get_obj_id_by_name(&self, name: &str) -> (r: Option<ObjectId>)
        requires
            self.sub_objects@.len() <= u32::MAX,
        ensures
            (match r {
                Some(id) => exists|i: int|
                    0 <= i < self.sub_objects@.len() && (#[trigger] self.sub_objects@[i]).name@
                        == name@ && id == self.sub_objects@[i].obj_id && (forall|j: int|
                        0 <= j < i ==> (#[trigger] self.sub_objects@[j]).name@ != name@),
                None => forall|i: int|
                    0 <= i < self.sub_objects@.len() ==> (#[trigger] self.sub_objects@[i]).name@
                        != name@,
            }),
    {
        let n = self.sub_objects.len();
        let mut i: usize = 0;
        while i < n
            invariant
                0 <= i <= n,
                n == self.sub_objects@.len() <= u32::MAX,
                forall|j: int| 0 <= j < i ==> (#[trigger] self.sub_objects@[j]).name@ != name@,
            decreases n - i,
        {
            let so = self.sub_objects.at(ObjectId(i as u32));
            if str_eq(so.name.as_str(), name) {
                proof {
                    assert(self.sub_objects@[i as int].name@ == name@);
                }
                return Some(so.obj_id);
            }
            i += 1;
        }
        None
    }

    /// How many subobjects are marked as debris pieces.
    pub fn num_debris_objects(&self) -> (r: u32)
        requires
            self.sub_objects@.len() <= u32::MAX,
        ensures
            r == debris_count(self.sub_objects@),
    {
        let n = self.sub_objects.len();
        let mut num: u32 = 0;
        let mut i: usize = 0;
        while i < n
            invariant
                0 <= i <= n,
                n == self.sub_objects@.len() <= u32::MAX,
                num == debris_count(self.sub_objects@.take(i as int)),
                num <= i,
            decreases n - i,
        {
            proof {
                assert(self.sub_objects@.take(i + 1 as int).drop_last() =~= self.sub_objects@.take(
                    i as int,
                ));
            }
            if self.sub_objects.at(ObjectId(i as u32)).is_debris_model {
                num += 1;
            }
            i += 1;
        }
        proof {
            assert(self.sub_objects@.take(n as int) =~= self.sub_objects@);
        }
        num
    }

    /// The per-subobject vertex and normal pool limit the active revision
    /// allows.
    pub fn max_verts_norms_per_subobj(&self) -> (r: usize)
        ensures
            r == max_verts_limit(self.version),
    {
        if self.version.code() >= 2300 {
            u32::MAX as usize
        } else {
            u16::MAX as usize
        }
    }

    /// Repairs docking-bay path references after a path was removed: a
    /// reference to the removed path is cleared, references beyond it shift
    /// down one.
    pub fn path_removal_fixup(&mut self, removed_idx: PathId)
        ensures
            final(self).docking_bays@.len() == old(self).docking_bays@.len(),
            forall|i: int|
                0 <= i < old(self).docking_bays@.len() ==> dock_fixed_up(
                    old(self).docking_bays@[i],
                    #[trigger] final(self).docking_bays@[i],
                    removed_idx,
                ),
            *final(self) == (Model { docking_bays: final(self).docking_bays, ..*old(self) }),
    {
        let mut out: Vec<Dock> = Vec::new();
        let n = self.docking_bays.len();
        let mut i: usize = 0;
        while i < n
            invariant
                0 <= i <= n,
                n == self.docking_bays@.len(),
                self.docking_bays == old(self).docking_bays,
                *self == (Model { docking_bays: self.docking_bays, ..*old(self) }),
                out@.len() == i,
                forall|j: int|
                    0 <= j < i ==> dock_fixed_up(
                        old(self).docking_bays@[j],
                        #[trigger] out@[j],
                        removed_idx,
                    ),
            decreases n - i,
        {
            let bay = &self.docking_bays[i];
            let new_path = match bay.path {
                Some(path_num) => {
                    if removed_idx == path_num {
                        None
                    } else if path_num.0 > removed_idx.0 {
                        Some(PathId(path_num.0 - 1))
                    } else {
                        Some(path_num)
                    }
                },
                None => None,
            };
            out.push(
                Dock {
                    properties: bay.properties.clone(),
                    path: new_path,
                    position: bay.position,
                    fvec: bay.fvec,
                    uvec: bay.uvec,
                },
            );
            i += 1;
        }
        self.docking_bays = out;
    }

    /// The gun subobjects a turret may use: the base object itself, then its
    /// immediate children; an existing selection outside that set is
    /// appended at the end. Returns the list and the index of the existing
    /// selection within it.
    pub fn get_valid_gun_subobjects_for_turret(
        &self,
        existing_obj: ObjectId,
        turret_obj: ObjectId,
    ) -> (r: (Vec<ObjectId>, usize))
        requires
            turret_obj.0 < self.sub_objects@.len(),
        ensures
            ({
                let kids = self.sub_objects@[turret_obj.0 as int].children@;
                let base = seq![turret_obj] + kids;
                &&& (base.contains(existing_obj) ==> r.0@ == base)
                &&& (!base.contains(existing_obj) ==> r.0@ == base.push(existing_obj))
                &&& r.1 < r.0@.len() && r.0@[r.1 as int] == existing_obj
            }),
    {
        let ghost kids = self.sub_objects@[turret_obj.0 as int].children@;
        let ghost base = seq![turret_obj] + kids;
        let mut out_vec: Vec<ObjectId> = Vec::new();
        let mut out_idx: usize = 0;
        let mut found_existing_obj = false;

        if existing_obj == turret_obj {
            out_idx = 0;
            found_existing_obj = true;
        }
        out_vec.push(turret_obj);
        proof {
            let s0 = seq![turret_obj] + kids.take(0int);
            assert(s0.len() == 1 && s0[0] == turret_obj);
            if existing_obj == turret_obj {
                assert(s0.contains(existing_obj));
            } else {
                assert forall|j: int| 0 <= j < s0.len() implies #[trigger] s0[j]
                    != existing_obj by {}
                assert(!s0.contains(existing_obj));
            }
            assert(out_vec@ =~= s0);
        }

        let so = self.sub_objects.at(turret_obj);
        let nk = so.children.len();
        let mut i: usize = 0;
        while i < nk
            invariant
                0 <= i <= nk,
                nk == kids.len(),
                so.children@ == kids,
                out_vec@ =~= (seq![turret_obj] + kids.take(i as int)),
                found_existing_obj <==> (seq![turret_obj] + kids.take(i as int)).contains(
                    existing_obj,
                ),
                found_existing_obj ==> out_idx < out_vec@.len() && out_vec@[out_idx as int]
                    == existing_obj,
            decreases nk - i,
        {
            let child_id = so.children[i];
            let ghost was_found = found_existing_obj;
            if existing_obj == child_id {
                out_idx = out_vec.len();
                found_existing_obj = true;
            }
            out_vec.push(child_id);
            proof {
                let s1 = seq![turret_obj] + kids.take(i + 1 as int);
                let s0 = seq![turret_obj] + kids.take(i as int);
                assert(out_vec@ =~= s1);
                assert(kids.take(i + 1 as int).drop_last() =~= kids.take(i as int));
                assert forall|j: int| 0 <= j < s0.len() implies s1[j] == #[trigger] s0[j] by {}
                if found_existing_obj {
                    if existing_obj == child_id {
                        assert(s1[s1.len() - 1] == child_id);
                        assert(s1.contains(existing_obj));
                    } else {
                        let j = choose|j: int| 0 <= j < s0.len() && #[trigger] s0[j] == existing_obj;
                        assert(s1[j] == existing_obj);
                        assert(s1.contains(existing_obj));
                    }
                } else {
                    assert forall|j: int| 0 <= j < s1.len() implies #[trigger] s1[j]
                        != existing_obj by {
                        if j < s1.len() - 1 {
                            assert(s1[j] == s0[j]);
                            assert(s0[j] != existing_obj) by {
                                if s0[j] == existing_obj {
                                    assert(s0.contains(existing_obj));
                                }
                            }
                        } else {
                            assert(s1[j] == kids[i as int]);
                        }
                    }
                    assert(!s1.contains(existing_obj));
                }
            }
            i += 1;
        }
        proof {
            assert(kids.take(nk as int) =~= kids);
        }
        if !found_existing_obj {
            out_idx = out_vec.len();
            out_vec.push(existing_obj);
        }
        (out_vec, out_idx)
    }

    /// Rebuilds the shield collision tree when the shield exists but has no
    /// tree yet.
    pub fn clean_up(&mut self)
        requires
            (match old(self).shield_data {
                Some(sd) => sd.polygons@.len() <= u32::MAX && (forall|i: int|
                    0 <= i < sd.polygons@.len() ==> crate::shield::sp_ids_ok(
                        #[trigger] sd.polygons@[i],
                        sd.verts@.len(),
                    )),
                None => true,
            }),
        ensures
            (match old(self).shield_data {
                Some(sd) => final(self).shield_data matches Some(sd2) && sd2.verts == sd.verts
                    && sd2.polygons == sd.polygons && (match sd.collision_tree {
                    Some(_) => sd2.collision_tree == sd.collision_tree,
                    None => sd2.collision_tree matches Some(t) && crate::shield::built_shield_tree(
                        t,
                        sd.polygons@,
                        sd.verts@,
                    ),
                }),
                None => final(self).shield_data is None,
            }),
            *final(self) == (Model { shield_data: final(self).shield_data, ..*old(self) }),
    {
        let mut shield = None;
        core::mem::swap(&mut self.shield_data, &mut shield);
        match shield {
            Some(mut sd) => {
                if sd.collision_tree.is_none() {
                    let tree = ShieldData::recalculate_tree(&sd.verts, &sd.polygons);
                    sd.collision_tree = Some(tree);
                }
                let mut back = Some(sd);
                core::mem::swap(&mut self.shield_data, &mut back);
            },
            None => {},
        }
    }

    /// Detaches an object from its parent, keeping its position relative to
    /// the whole model by folding the ancestors' offsets into its own (its
    /// offset becomes its old total offset); the old parent's children array
    /// loses the first entry naming the orphan. The derived arrays must be in
    /// sync (the entry must exist). A looping parent chain is the fatal cycle
    /// fault, and nothing changes.
    pub fn make_orphan(&mut self, would_be_orphan: ObjectId) -> (r: Result<(), CycleDetected>)
        requires
            would_be_orphan.0 < old(self).sub_objects@.len(),
            old(self).sub_objects@.len() < usize::MAX,
            (match old(self).sub_objects@[would_be_orphan.0 as int].parent {
                Some(p) => p.0 < old(self).sub_objects@.len()
                    && old(self).sub_objects@[p.0 as int].children@.contains(would_be_orphan),
                None => true,
            }),
        ensures
            *final(self) == (Model { sub_objects: final(self).sub_objects, ..*old(self) }),
            (match old(self).sub_objects@[would_be_orphan.0 as int].parent {
                Some(p) => {
                    &&& (r is Ok <==> total_offset_spec(old(self).sub_objects@, would_be_orphan)
                        is Ok)
                    &&& (r is Err ==> *final(self) == *old(self))
                    &&& (r is Ok ==> (total_offset_spec(old(self).sub_objects@, would_be_orphan)
                        matches Ok(t) && {
                        let oi = would_be_orphan.0 as int;
                        let pi = p.0 as int;
                        let s1 = old(self).sub_objects@.update(
                            oi,
                            SubObject {
                                parent: None,
                                offset: t,
                                ..old(self).sub_objects@[oi]
                            },
                        );
                        let fin = final(self).sub_objects@;
                        &&& fin == s1.update(
                            pi,
                            SubObject { children: fin[pi].children, ..s1[pi] },
                        )
                        &&& fin[pi].children@ == s1[pi].children@.remove_value(would_be_orphan)
                    }))
                },
                None => r is Ok && final(self).sub_objects@ == old(self).sub_objects@.update(
                    would_be_orphan.0 as int,
                    SubObject {
                        parent: None,
                        ..old(self).sub_objects@[would_be_orphan.0 as int]
                    },
                ),
            }),
    {
        let ghost orig = self.sub_objects@;
        let parent_opt = self.sub_objects.at(would_be_orphan).parent;
        match parent_opt {
            Some(parent_id) => {
                let total = match self.get_total_subobj_offset(would_be_orphan) {
                    Ok(t) => t,
                    Err(e) => {
                        return Err(e);
                    },
                };
                let so = self.sub_objects.at_mut(would_be_orphan);
                so.offset = total;
                so.parent = None;
                let ghost s1 = self.sub_objects@;
                // find the first children entry naming the orphan
                let nk = self.sub_objects.at(parent_id).children.len();
                let ghost cs = s1[parent_id.0 as int].children@;
                proof {
                    assert(cs == orig[parent_id.0 as int].children@);
                    assert(cs.contains(would_be_orphan));
                }
                let mut idx: usize = 0;
                while self.sub_objects.at(parent_id).children[idx] != would_be_orphan
                    invariant
                        0 <= idx < nk,
                        parent_id.0 < s1.len(),
                        would_be_orphan.0 < s1.len(),
                        self.sub_objects@ == s1,
                        *self == (Model { sub_objects: self.sub_objects, ..*old(self) }),
                        nk == cs.len(),
                        cs == s1[parent_id.0 as int].children@,
                        forall|j: int| 0 <= j < idx ==> cs[j] != would_be_orphan,
                        exists|j: int| idx <= j < nk && cs[j] == would_be_orphan,
                    decreases nk - idx,
                {
                    idx += 1;
                    proof {
                        let w = choose|j: int|
                            idx - 1 <= j < nk && cs[j] == would_be_orphan;
                        assert(w >= idx);
                    }
                }
                let pc = self.sub_objects.at_mut(parent_id);
                pc.children.remove(idx);
                proof {
                    cs.index_of_first_ensures(would_be_orphan);
                    let fi = cs.index_of_first(would_be_orphan)->Some_0;
                    assert(fi == idx) by {
                        if fi < idx {
                            assert(cs[fi] != would_be_orphan);
                        }
                        if idx < fi {
                            assert(cs[idx as int] != would_be_orphan);
                        }
                    }
                    assert(self.sub_objects@[parent_id.0 as int].children@ =~= cs.remove_value(
                        would_be_orphan,
                    ));
                    assert(self.sub_objects@ =~= s1.update(
                        parent_id.0 as int,
                        SubObject {
                            children: self.sub_objects@[parent_id.0 as int].children,
                            ..s1[parent_id.0 as int]
                        },
                    ));
                }
                Ok(())
            },
            None => {
                let so = self.sub_objects.at_mut(would_be_orphan);
                so.parent = None;
                Ok(())
            },
        }
    }

    /// Makes one object the parent of another, unless that would create a
    /// cycle (the would-be parent already descends from the would-be child),
    /// in which case nothing changes and no edit is reported. On success the
    /// child's parent is set, the child is appended to the parent's children
    /// array, and the child's offset is adjusted against the new ancestor
    /// chain so its position relative to the whole model is kept. A looping
    /// parent chain is the fatal cycle fault, and nothing changes.
    pub fn make_parent(&mut self, new_parent: ObjectId, new_child: ObjectId) -> (r: Result<
        Option<()>,
        CycleDetected,
    >)
        requires
            new_parent.0 < old(self).sub_objects@.len(),
            new_child.0 < old(self).sub_objects@.len(),
            old(self).sub_objects@.len() < usize::MAX,
        ensures
            *final(self) == (Model { sub_objects: final(self).sub_objects, ..*old(self) }),
            ({
                let objs = old(self).sub_objects@;
                let pi = new_parent.0 as int;
                let ci = new_child.0 as int;
                let anc = is_ancestor_spec(objs, new_parent, new_child);
                // the total offset the child would have under the new parent
                let walk = offset_walk(
                    objs,
                    objs[ci].offset,
                    Some(new_parent),
                    (objs.len() + 1) as nat,
                );
                match r {
                    Ok(Some(_)) => anc == Ok::<bool, CycleDetected>(false) && (walk matches Ok(t)
                        && {
                        let fin = final(self).sub_objects@;
                        let off = objs[ci].offset;
                        &&& fin[pi].children@ == objs[pi].children@.push(new_child)
                        &&& fin[pi] == (SubObject { children: fin[pi].children, ..objs[pi] })
                        &&& fin[ci] == (SubObject {
                            parent: Some(new_parent),
                            offset: vsub_spec(off, vsub_spec(t, off)),
                            ..objs[ci]
                        })
                        &&& fin == objs.update(pi, fin[pi]).update(ci, fin[ci])
                    }),
                    Ok(None) => *final(self) == *old(self) && anc == Ok::<bool, CycleDetected>(
                        true,
                    ),
                    Err(_) => *final(self) == *old(self) && (anc is Err || (anc == Ok::<
                        bool,
                        CycleDetected,
                    >(false) && walk is Err)),
                }
            }),
    {
        let ghost orig = self.sub_objects@;
        let anc = match self.is_obj_id_ancestor(new_parent, new_child) {
            Ok(b) => b,
            Err(e) => {
                return Err(e);
            },
        };
        if anc {
            return Ok(None);
        }
        proof {
            // the would-be parent is not the child itself: an object is
            // always its own reflexive ancestor
            assert(new_parent != new_child);
        }
        // probe the child's total offset under the new parent before editing
        let fuel = self.sub_objects.len() + 1;
        let child_off = self.sub_objects.at(new_child).offset;
        let total = match offset_walk_exec(
            &self.sub_objects,
            child_off,
            Some(new_parent),
            fuel,
        ) {
            Ok(t) => t,
            Err(e) => {
                return Err(e);
            },
        };
        let pc = self.sub_objects.at_mut(new_parent);
        pc.children.push(new_child);
        let ghost s1 = self.sub_objects@;
        let child = self.sub_objects.at_mut(new_child);
        child.parent = Some(new_parent);
        let offset_from_parents = total.vsub(child.offset);
        child.offset = child.offset.vsub(offset_from_parents);
        proof {
            assert(s1[new_child.0 as int] == orig[new_child.0 as int]);
            assert(self.sub_objects@ =~= orig.update(
                new_parent.0 as int,
                self.sub_objects@[new_parent.0 as int],
            ).update(new_child.0 as int, self.sub_objects@[new_child.0 as int]));
        }
        Ok(Some(()))
    }
}

/// The transform could not be applied: its linear part is singular, so no
/// normal matrix (the inverse transpose) exists.
#[derive(Clone, Copy, Debug, PartialEq, Eq, Structural)]
pub struct SingularTransform;

/// Where one vertex goes: through the translation-free matrix; when the
/// object's own offset is not being transformed, the isolated translation is
/// added back so the local frame stays anchored.
pub open spec fn vert_xform_spec(nt: Mat4, translation: Vec3d, t_o: bool, v: Vec3d) -> Vec3d {
    if t_o {
        transform_point_spec(nt, v)
    } else {
        vadd_spec(transform_point_spec(nt, v), translation)
    }
}

/// The structural fields a transform never touches, and the counts it
/// preserves (vertex, normal, and tree leaf counts).
pub open spec fn structural_preserved(a: SubObject, b: SubObject) -> bool {
    &&& b.obj_id == a.obj_id
    &&& b.parent == a.parent
    &&& b.geo_center == a.geo_center
    &&& b.name@ == a.name@
    &&& b.properties@ == a.properties@
    &&& b.rotation_type == a.rotation_type
    &&& b.rotation_axis == a.rotation_axis
    &&& b.translation_type == a.translation_type
    &&& b.translation_axis == a.translation_axis
    &&& b.children@ == a.children@
    &&& b.is_debris_model == a.is_debris_model
    &&& b.name_links@ == a.name_links@
    &&& b.bsp_data.verts@.len() == a.bsp_data.verts@.len()
    &&& b.bsp_data.norms@.len() == a.bsp_data.norms@.len()
    &&& leaves_spec(b.bsp_data.collision_tree).len() == leaves_spec(
        a.bsp_data.collision_tree,
    ).len()
}

/// What one application of a transform does to one subobject: vertices
/// through the translation-free matrix (with the offset-anchoring rule), the
/// radius refolded over the new vertices from zero, normals through the
/// renormalized inverse transpose, the tree rebuilt from scratch over the
/// new vertices (leaf for leaf), the box refreshed from the rebuilt root,
/// and the offset through the full matrix only when requested.
pub open spec fn subobj_xformed(a: SubObject, b: SubObject, m: Mat4, t_o: bool) -> bool {
    let nt = Mat4 { linear: m.linear, translation: zero_vec() };
    &&& structural_preserved(a, b)
    &&& crate::vec3d::mat3_inverse_bits(crate::vec3d::mat3_bits_spec(m.linear)) matches Some(ib)
        && ({
        let rot = Mat4 {
            linear: crate::vec3d::mat3_transpose_spec(crate::vec3d::mat3_from_bits_spec(ib)),
            translation: zero_vec(),
        };
        &&& (forall|k: int|
            0 <= k < a.bsp_data.verts@.len() ==> #[trigger] b.bsp_data.verts@[k]
                == vert_xform_spec(nt, m.translation, t_o, a.bsp_data.verts@[k]))
        &&& (forall|k: int|
            0 <= k < a.bsp_data.norms@.len() ==> #[trigger] b.bsp_data.norms@[k]
                == crate::vec3d::normalize_spec(
                transform_point_spec(rot, a.bsp_data.norms@[k]),
            ))
    })
    &&& b.radius.0 == radius_fold(b.bsp_data.verts@, ZERO_BITS)
    &&& leaves_spec(b.bsp_data.collision_tree).to_multiset() == leaves_spec(
        a.bsp_data.collision_tree,
    ).map_values(|pr: (BoundingBox, crate::bsp::Polygon)| pr.1).map_values(
        |p: crate::bsp::Polygon| crate::bsp::info_of(p, b.bsp_data.verts@),
    ).to_multiset()
    &&& crate::bsp::tight(b.bsp_data.collision_tree, b.bsp_data.verts@)
    &&& crate::bsp::node_ids_ok(b.bsp_data.collision_tree, b.bsp_data.verts@.len())
    &&& b.bbox == crate::bsp::bbox_of(b.bsp_data.collision_tree)
    &&& b.offset == (if t_o {
        transform_point_spec(m, a.offset)
    } else {
        a.offset
    })
}

/// Applies a transform to one subobject in isolation: the §4.2 per-object
/// pipeline. Fails, touching nothing, when the linear part is singular.
pub fn transform_subobject(so: &mut SubObject, matrix: &Mat4, transform_offset: bool) -> (r:
    Result<(), SingularTransform>)
    requires
        crate::bsp::node_ids_ok(
            old(so).bsp_data.collision_tree,
            old(so).bsp_data.verts@.len(),
        ),
    ensures
        (match r {
            Ok(()) => subobj_xformed(*old(so), *final(so), *matrix, transform_offset),
            Err(_) => *final(so) == *old(so) && crate::vec3d::mat3_inverse_bits(
                crate::vec3d::mat3_bits_spec(matrix.linear),
            ) is None,
        }),
{
    let rot_linear = match matrix.linear.inverse_transpose() {
        Some(m) => m,
        None => {
            return Err(SingularTransform);
        },
    };
    let rot = Mat4 { linear: rot_linear, translation: Vec3d::zero() };
    let nt = matrix.rotation_and_scaling_only();
    let translation = matrix.translation;

    // vertices, with the running radius fold
    let mut new_verts: Vec<Vec3d> = Vec::new();
    let mut radius = Scalar(ZERO_BITS);
    let n = so.bsp_data.verts.len();
    let mut i: usize = 0;
    while i < n
        invariant
            0 <= i <= n,
            n == so.bsp_data.verts@.len(),
            so.bsp_data.verts == old(so).bsp_data.verts,
            nt == (Mat4 { linear: matrix.linear, translation: zero_vec() }),
            translation == matrix.translation,
            new_verts@.len() == i,
            forall|k: int|
                0 <= k < i ==> #[trigger] new_verts@[k] == vert_xform_spec(
                    nt,
                    matrix.translation,
                    transform_offset,
                    so.bsp_data.verts@[k],
                ),
            radius.0 == radius_fold(new_verts@, ZERO_BITS),
        decreases n - i,
    {
        let mut v = nt.transform_point(so.bsp_data.verts[i]);
        if !transform_offset {
            v = v.vadd(translation);
        }
        let ghost prev = new_verts@;
        new_verts.push(v);
        let mag = v.magnitude();
        if radius.lt(mag) {
            radius = mag;
        }
        proof {
            assert(new_verts@.drop_last() =~= prev);
        }
        i += 1;
    }

    // normals, through the renormalized inverse transpose
    let mut new_norms: Vec<Vec3d> = Vec::new();
    let nn = so.bsp_data.norms.len();
    let mut j: usize = 0;
    while j < nn
        invariant
            0 <= j <= nn,
            nn == so.bsp_data.norms@.len(),
            so.bsp_data.norms == old(so).bsp_data.norms,
            rot == (Mat4 {
                linear: crate::vec3d::mat3_transpose_spec(
                    crate::vec3d::mat3_from_bits_spec(
                        crate::vec3d::mat3_inverse_bits(
                            crate::vec3d::mat3_bits_spec(matrix.linear),
                        ).unwrap(),
                    ),
                ),
                translation: zero_vec(),
            }),
            new_norms@.len() == j,
            forall|k: int|
                0 <= k < j ==> #[trigger] new_norms@[k] == crate::vec3d::normalize_spec(
                    transform_point_spec(rot, so.bsp_data.norms@[k]),
                ),
        decreases nn - j,
    {
        new_norms.push(rot.transform_point(so.bsp_data.norms[j]).normalize());
        j += 1;
    }

    // rebuild the tree from scratch over the new vertex positions
    let mut tree = BspNode::Empty;
    core::mem::swap(&mut so.bsp_data.collision_tree, &mut tree);
    let ghost old_leaves = leaves_spec(tree);
    let pairs = tree.into_leaves();
    let mut polys: Vec<crate::bsp::Polygon> = Vec::new();
    let mut pairs = pairs;
    let ghost pair_seq = pairs@;
    let mut k: usize = 0;
    while pairs.len() > 0
        invariant
            polys@.len() + pairs@.len() == pair_seq.len(),
            pairs@ =~= pair_seq.skip(polys@.len() as int),
            forall|t: int| 0 <= t < polys@.len() ==> #[trigger] polys@[t] == pair_seq[t].1,
        decreases pairs@.len(),
    {
        let pr = pairs.remove(0);
        proof {
            assert(pair_seq.skip(polys@.len() as int)[0] == pr);
        }
        polys.push(pr.1);
        proof {
            assert(pairs@ =~= pair_seq.skip(polys@.len() as int));
        }
    }
    proof {
        assert(polys@ =~= pair_seq.map_values(
            |pr: (BoundingBox, crate::bsp::Polygon)| pr.1,
        ));
        assert forall|t: int| 0 <= t < polys@.len() implies crate::bsp::poly_ids_ok(
            #[trigger] polys@[t],
            new_verts@.len(),
        ) by {
            assert(old_leaves[t].1 == polys@[t]);
        }
    }
    let new_tree = crate::bsp::BspData::recalculate(&new_verts, polys);
    let new_bbox = new_tree.bbox();
    so.bsp_data.verts = new_verts;
    so.bsp_data.norms = new_norms;
    so.bsp_data.collision_tree = new_tree;
    so.bbox = new_bbox;
    so.radius = radius;
    if transform_offset {
        so.offset = matrix.transform_point(so.offset);
    }
    Ok(())
}

/// Every object's tree refers only inside its own vertex pool.
pub open spec fn geometry_ok(objs: Seq<SubObject>) -> bool {
    forall|j: int|
        0 <= j < objs.len() ==> crate::bsp::node_ids_ok(
            (#[trigger] objs[j]).bsp_data.collision_tree,
            objs[j].bsp_data.verts@.len(),
        )
}

/// Every children entry points inside the table, at an object that indeed
/// has a parent (the derived-array coherence a transform walk relies on).
pub open spec fn children_coherent(objs: Seq<SubObject>) -> bool {
    forall|j: int, k: int|
        0 <= j < objs.len() && 0 <= k < (#[trigger] objs[j]).children@.len() ==> (
        #[trigger] objs[j].children@[k]).0 < objs.len() && objs[objs[j].children@[k].0 as int].parent
            is Some
}

/// Whether a children-array path of at most the given length leads from slot
/// `root` to slot `j`.
pub open spec fn child_reach(objs: Seq<SubObject>, root: int, j: int, fuel: nat) -> bool
    decreases fuel,
{
    root == j || (fuel > 0 && exists|k: int|
        0 <= k < objs[root].children@.len() && child_reach(
            objs,
            (#[trigger] objs[root].children@[k]).0 as int,
            j,
            (fuel - 1) as nat,
        ))
}

/// Whether slot `j` is reachable from `id` through the derived children
/// arrays (`id`'s own slot included).
pub open spec fn descends(objs: Seq<SubObject>, id: ObjectId, j: int) -> bool {
    exists|fuel: nat| child_reach(objs, id.0 as int, j, fuel)
}

/// A path to a slot extends by one step to any of the slot's children.
proof fn lemma_reach_step(objs: Seq<SubObject>, root: int, j: int, fuel: nat, k: int)
    requires
        child_reach(objs, root, j, fuel),
        0 <= j < objs.len(),
        0 <= k < objs[j].children@.len(),
    ensures
        child_reach(objs, root, objs[j].children@[k].0 as int, (fuel + 1) as nat),
    decreases fuel,
{
    let c = objs[j].children@[k].0 as int;
    if root == j {
        assert(child_reach(objs, c, c, fuel));
        assert(0 <= k < objs[root].children@.len() && child_reach(
            objs,
            objs[root].children@[k].0 as int,
            c,
            fuel,
        ));
    } else {
        let k2 = choose|k2: int|
            0 <= k2 < objs[root].children@.len() && child_reach(
                objs,
                (#[trigger] objs[root].children@[k2]).0 as int,
                j,
                (fuel - 1) as nat,
            );
        lemma_reach_step(objs, objs[root].children@[k2].0 as int, j, (fuel - 1) as nat, k);
        assert(0 <= k2 < objs[root].children@.len() && child_reach(
            objs,
            objs[root].children@[k2].0 as int,
            c,
            fuel,
        ));
    }
}

/// A child of a descendant is a descendant.
proof fn lemma_descends_child(objs: Seq<SubObject>, id: ObjectId, j: int, k: int)
    requires
        descends(objs, id, j),
        0 <= j < objs.len(),
        0 <= k < objs[j].children@.len(),
    ensures
        descends(objs, id, objs[j].children@[k].0 as int),
{
    let fuel = choose|fuel: nat| child_reach(objs, id.0 as int, j, fuel);
    lemma_reach_step(objs, id.0 as int, j, fuel, k);
}

/// A flag list that holds at the root and is closed under the children
/// arrays holds at every slot a children path reaches.
proof fn lemma_closed_reach(objs: Seq<SubObject>, seen: Seq<bool>, root: int, j: int, fuel: nat)
    requires
        objs.len() == seen.len(),
        children_coherent(objs),
        0 <= root < objs.len(),
        seen[root],
        forall|x: int, k: int|
            0 <= x < objs.len() && seen[x] && 0 <= k < (#[trigger] objs[x]).children@.len()
                ==> seen[(#[trigger] objs[x].children@[k]).0 as int],
        child_reach(objs, root, j, fuel),
        0 <= j < objs.len(),
    ensures
        seen[j],
    decreases fuel,
{
    if root != j {
        let k = choose|k: int|
            0 <= k < objs[root].children@.len() && child_reach(
                objs,
                (#[trigger] objs[root].children@[k]).0 as int,
                j,
                (fuel - 1) as nat,
            );
        lemma_closed_reach(objs, seen, objs[root].children@[k].0 as int, j, (fuel - 1) as nat);
    }
}

/// With coherent children arrays, every proper descendant has a parent.
pub proof fn lemma_descend_has_parent(objs: Seq<SubObject>, id: ObjectId, j: int)
    requires
        children_coherent(objs),
        id.0 < objs.len(),
        descends(objs, id, j),
        j != id.0 as int,
        0 <= j < objs.len(),
    ensures
        objs[j].parent is Some,
{
    let fuel = choose|fuel: nat| child_reach(objs, id.0 as int, j, fuel);
    lemma_reach_parent(objs, id.0 as int, j, fuel);
}

proof fn lemma_reach_parent(objs: Seq<SubObject>, root: int, j: int, fuel: nat)
    requires
        children_coherent(objs),
        0 <= root < objs.len(),
        child_reach(objs, root, j, fuel),
        j != root,
        0 <= j < objs.len(),
    ensures
        objs[j].parent is Some,
    decreases fuel,
{
    let k = choose|k: int|
        0 <= k < objs[root].children@.len() && child_reach(
            objs,
            (#[trigger] objs[root].children@[k]).0 as int,
            j,
            (fuel - 1) as nat,
        );
    let c = objs[root].children@[k].0 as int;
    if c == j {
        assert(objs[objs[root].children@[k].0 as int].parent is Some);
    } else {
        lemma_reach_parent(objs, c, j, (fuel - 1) as nat);
    }
}

/// How many entries of a flag list are still unset.
pub open spec fn count_unseen(s: Seq<bool>) -> int
    decreases s.len(),
{
    if s.len() == 0 {
        0
    } else {
        count_unseen(s.drop_last()) + if s.last() {
            0int
        } else {
            1int
        }
    }
}

proof fn lemma_count_unseen_set(s: Seq<bool>, i: int)
    requires
        0 <= i < s.len(),
        !s[i],
    ensures
        count_unseen(s.update(i, true)) == count_unseen(s) - 1,
    decreases s.len(),
{
    if i == s.len() - 1 {
        assert(s.update(i, true).drop_last() =~= s.drop_last());
    } else {
        assert(s.update(i, true).drop_last() =~= s.drop_last().update(i, true));
        lemma_count_unseen_set(s.drop_last(), i);
    }
}

proof fn lemma_count_unseen_nonneg(s: Seq<bool>)
    ensures
        count_unseen(s) >= 0,
    decreases s.len(),
{
    if s.len() > 0 {
        lemma_count_unseen_nonneg(s.drop_last());
    }
}

impl Model {
    /// Applies a transform to a subobject and to every descendant reachable
    /// through the derived children arrays: the root with the full matrix
    /// (and the given offset rule), descendants with the translation-free
    /// derivative and their offsets transformed, so scale and rotation
    /// compound down the hierarchy while the translation lands exactly once.
    /// Each object is visited at most once, so a corrupt children graph
    /// cannot make the walk spin. Fails, touching nothing, when the linear
    /// part is singular.
    pub fn apply_subobj_transform(
        &mut self,
        id: ObjectId,
        matrix: &Mat4,
        transform_offset: bool,
    ) -> (r: Result<(), SingularTransform>)
        requires
            id.0 < old(self).sub_objects@.len(),
            old(self).sub_objects@.len() <= u32::MAX,
            geometry_ok(old(self).sub_objects@),
            children_coherent(old(self).sub_objects@),
        ensures
            final(self).sub_objects@.len() == old(self).sub_objects@.len(),
            *final(self) == (Model { sub_objects: final(self).sub_objects, ..*old(self) }),
            (match r {
                Ok(()) => {
                    let nt = Mat4 { linear: matrix.linear, translation: zero_vec() };
                    &&& subobj_xformed(
                        old(self).sub_objects@[id.0 as int],
                        final(self).sub_objects@[id.0 as int],
                        *matrix,
                        transform_offset,
                    )
                    &&& (forall|j: int|
                        0 <= j < old(self).sub_objects@.len() && j != id.0 && descends(
                            old(self).sub_objects@,
                            id,
                            j,
                        ) ==> subobj_xformed(
                            old(self).sub_objects@[j],
                            #[trigger] final(self).sub_objects@[j],
                            nt,
                            true,
                        ))
                    &&& (forall|j: int|
                        0 <= j < old(self).sub_objects@.len() && j != id.0 && !descends(
                            old(self).sub_objects@,
                            id,
                            j,
                        ) ==> #[trigger] final(self).sub_objects@[j] == old(self).sub_objects@[j])
                    &&& (forall|j: int|
                        0 <= j < old(self).sub_objects@.len() ==> structural_preserved(
                            #[trigger] old(self).sub_objects@[j],
                            final(self).sub_objects@[j],
                        ))
                },
                Err(_) => final(self).sub_objects@ == old(self).sub_objects@
                    && crate::vec3d::mat3_inverse_bits(
                    crate::vec3d::mat3_bits_spec(matrix.linear),
                ) is None,
            }),
    {
        let ghost orig = self.sub_objects@;
        let ghost nt_spec = Mat4 { linear: matrix.linear, translation: zero_vec() };
        let n = self.sub_objects.len();
        match transform_subobject(self.sub_objects.at_mut(id), matrix, transform_offset) {
            Ok(()) => {},
            Err(e) => {
                proof {
                    assert(self.sub_objects@ =~= orig);
                }
                return Err(e);
            },
        }
        let nt = matrix.rotation_and_scaling_only();
        let mut seen: Vec<bool> = Vec::new();
        let mut si: usize = 0;
        while si < n
            invariant
                0 <= si <= n,
                n <= u32::MAX,
                seen@.len() == si,
                forall|j: int| 0 <= j < si ==> seen@[j] == (j == id.0 as int),
            decreases n - si,
        {
            seen.push(si as u32 == id.0);
            si += 1;
        }
        let mut stack: Vec<ObjectId> = Vec::new();
        {
            let root = self.sub_objects.at(id);
            let mut ci: usize = 0;
            while ci < root.children.len()
                invariant
                    0 <= ci <= root.children@.len(),
                    stack@ =~= root.children@.take(ci as int),
                decreases root.children@.len() - ci,
            {
                stack.push(root.children[ci]);
                ci += 1;
            }
            proof {
                assert(root.children@.take(root.children@.len() as int) =~= root.children@);
            }
        }
        proof {
            assert(child_reach(orig, id.0 as int, id.0 as int, 0nat));
            assert(descends(orig, id, id.0 as int));
            assert(stack@ == orig[id.0 as int].children@);
            assert forall|j: int| 0 <= j < stack@.len() implies descends(
                orig,
                id,
                (#[trigger] stack@[j]).0 as int,
            ) by {
                lemma_descends_child(orig, id, id.0 as int, j);
            }
            assert forall|x: int, k: int|
                0 <= x < n && seen@[x] && 0 <= k < orig[x].children@.len() implies seen@[(
            #[trigger] orig[x].children@[k]).0 as int] || stack@.contains(
                orig[x].children@[k],
            ) by {
                assert(x == id.0 as int);
                assert(stack@[k] == orig[x].children@[k]);
            }
        }
        while stack.len() > 0
            invariant
                n == orig.len() <= u32::MAX,
                id.0 < n,
                self.sub_objects@.len() == n,
                seen@.len() == n,
                geometry_ok(orig),
                children_coherent(orig),
                seen@[id.0 as int],
                *self == (Model { sub_objects: self.sub_objects, ..*old(self) }),
                subobj_xformed(
                    orig[id.0 as int],
                    self.sub_objects@[id.0 as int],
                    *matrix,
                    transform_offset,
                ),
                forall|j: int|
                    0 <= j < n ==> (#[trigger] self.sub_objects@[j]).children@ == orig[j].children@,
                forall|j: int|
                    0 <= j < n && !seen@[j] ==> (#[trigger] self.sub_objects@[j]) == orig[j],
                forall|j: int|
                    0 <= j < n && seen@[j] && j != id.0 as int ==> subobj_xformed(
                        orig[j],
                        #[trigger] self.sub_objects@[j],
                        nt_spec,
                        true,
                    ) && orig[j].parent is Some,
                forall|j: int|
                    0 <= j < n && seen@[j] ==> descends(orig, id, j),
                forall|j: int| 0 <= j < stack@.len() ==> (#[trigger] stack@[j]).0 < n && orig[(
                stack@[j]).0 as int].parent is Some && descends(orig, id, (stack@[j]).0 as int),
                forall|x: int, k: int|
                    0 <= x < n && seen@[x] && 0 <= k < orig[x].children@.len() ==> seen@[(
                    #[trigger] orig[x].children@[k]).0 as int] || stack@.contains(
                        orig[x].children@[k],
                    ),
                nt == nt_spec,
                nt_spec == (Mat4 { linear: matrix.linear, translation: zero_vec() }),
            decreases count_unseen(seen@), stack@.len(),
        {
            proof {
                lemma_count_unseen_nonneg(seen@);
            }
            let ghost prestack = stack@;
            let id2 = stack.pop().unwrap();
            proof {
                assert(id2 == prestack.last());
                assert(stack@ == prestack.drop_last());
            }
            if !seen[id2.0 as usize] {
                let ghost seen_before = seen@;
                seen.set(id2.0 as usize, true);
                proof {
                    lemma_count_unseen_set(seen_before, id2.0 as int);
                    // every closure obligation met through the popped entry
                    // is now met through the freshly set flag
                    assert forall|x: int, k: int|
                        0 <= x < n && seen@[x] && 0 <= k < orig[x].children@.len() && x != id2.0 as int
                        implies seen@[(#[trigger] orig[x].children@[k]).0 as int]
                            || stack@.contains(orig[x].children@[k]) by {
                        let e = orig[x].children@[k];
                        if !seen_before[e.0 as int] && !seen@[e.0 as int] {
                            assert(prestack.contains(e));
                            let w = choose|w: int| 0 <= w < prestack.len() && prestack[w] == e;
                            assert(e != id2);
                            assert(w < prestack.len() - 1);
                            assert(stack@[w] == e);
                        }
                    }
                }
                match transform_subobject(self.sub_objects.at_mut(id2), &nt, true) {
                    Ok(()) => {},
                    Err(_) => {
                        // the same linear part inverted at the root, so this
                        // cannot happen; treat it as a no-op if it ever did
                        proof {
                            assert(false);
                        }
                    },
                }
                let kid_count = self.sub_objects.at(id2).children.len();
                let ghost objs_snap = self.sub_objects@;
                let ghost seen_snap = seen@;
                let mut ci: usize = 0;
                while ci < kid_count
                    invariant
                        0 <= ci <= kid_count,
                        id2.0 < n,
                        n == orig.len() <= u32::MAX,
                        self.sub_objects@ == objs_snap,
                        seen@ == seen_snap,
                        seen_snap.len() == n,
                        objs_snap.len() == n,
                        kid_count == objs_snap[id2.0 as int].children@.len(),
                        objs_snap[id2.0 as int].children@ == orig[id2.0 as int].children@,
                        children_coherent(orig),
                        descends(orig, id, id2.0 as int),
                        forall|j: int|
                            0 <= j < stack@.len() ==> (#[trigger] stack@[j]).0 < n && orig[(
                            stack@[j]).0 as int].parent is Some && descends(
                                orig,
                                id,
                                (stack@[j]).0 as int,
                            ),
                        forall|x: int, k: int|
                            0 <= x < n && seen_snap[x] && 0 <= k < orig[x].children@.len() && !(x
                                == id2.0 as int && ci <= k) ==> seen_snap[(
                            #[trigger] orig[x].children@[k]).0 as int] || stack@.contains(
                                orig[x].children@[k],
                            ),
                    decreases kid_count - ci,
                {
                    let c = self.sub_objects.at(id2).children[ci];
                    proof {
                        assert(orig[id2.0 as int].children@[ci as int] == c);
                        lemma_descends_child(orig, id, id2.0 as int, ci as int);
                    }
                    let ghost prepush = stack@;
                    stack.push(c);
                    proof {
                        assert forall|x: int, k: int|
                            0 <= x < n && seen_snap[x] && 0 <= k < orig[x].children@.len() && !(x
                                == id2.0 as int && ci + 1 <= k) implies seen_snap[(
                        #[trigger] orig[x].children@[k]).0 as int] || stack@.contains(
                            orig[x].children@[k],
                        ) by {
                            let e = orig[x].children@[k];
                            if x == id2.0 as int && k == ci {
                                assert(stack@[stack@.len() - 1] == c);
                                assert(stack@.contains(e));
                            } else if !seen_snap[e.0 as int] {
                                assert(prepush.contains(e));
                                let w = choose|w: int|
                                    0 <= w < prepush.len() && prepush[w] == e;
                                assert(stack@[w] == e);
                            }
                        }
                    }
                    ci += 1;
                }
            } else {
                proof {
                    assert forall|x: int, k: int|
                        0 <= x < n && seen@[x] && 0 <= k < orig[x].children@.len() implies seen@[(
                    #[trigger] orig[x].children@[k]).0 as int] || stack@.contains(
                        orig[x].children@[k],
                    ) by {
                        let e = orig[x].children@[k];
                        if !seen@[e.0 as int] {
                            assert(prestack.contains(e));
                            let w = choose|w: int| 0 <= w < prestack.len() && prestack[w] == e;
                            assert(e != id2);
                            assert(w < prestack.len() - 1);
                            assert(stack@[w] == e);
                        }
                    }
                }
            }
            proof {
                lemma_count_unseen_nonneg(seen@);
            }
        }
        proof {
            // the flags are closed under the children arrays, so every
            // descendant was visited; everything else is untouched
            assert forall|j: int|
                0 <= j < n && j != id.0 as int && descends(orig, id, j) implies subobj_xformed(
                orig[j],
                #[trigger] self.sub_objects@[j],
                nt_spec,
                true,
            ) by {
                let fuel = choose|fuel: nat| child_reach(orig, id.0 as int, j, fuel);
                lemma_closed_reach(orig, seen@, id.0 as int, j, fuel);
            }
            assert forall|j: int|
                0 <= j < n && j != id.0 as int && !descends(orig, id, j) implies (
            #[trigger] self.sub_objects@[j]) == orig[j] by {
                assert(!seen@[j]);
            }
        }
        Ok(())
    }

    /// Recomputes every object's derived children array from scratch by
    /// scanning all parent fields; nothing else changes. Each parent's array
    /// lists, in table order, the stored ids of the objects naming it.
    pub fn recalc_all_children_ids(&mut self)
        requires
            old(self).sub_objects@.len() <= u32::MAX,
            forall|i: int|
                0 <= i < old(self).sub_objects@.len() ==> (match (
                #[trigger] old(self).sub_objects@[i]).parent {
                    Some(p) => p.0 < old(self).sub_objects@.len(),
                    None => true,
                }),
        ensures
            final(self).sub_objects@.len() == old(self).sub_objects@.len(),
            forall|j: int|
                0 <= j < old(self).sub_objects@.len() ==> same_but_children(
                    #[trigger] old(self).sub_objects@[j],
                    final(self).sub_objects@[j],
                ),
            forall|j: int|
                0 <= j < old(self).sub_objects@.len() ==> (#[trigger] final(self).sub_objects@[j]).children@ == children_spec(
                    old(self).sub_objects@,
                    j,
                    old(self).sub_objects@.len() as int,
                ),
            *final(self) == (Model { sub_objects: final(self).sub_objects, ..*old(self) }),
    {
        let ghost orig = self.sub_objects@;
        let n = self.sub_objects.len();
        let mut i: usize = 0;
        while i < n
            invariant
                0 <= i <= n,
                n == orig.len() <= u32::MAX,
                self.sub_objects@.len() == n,
                *self == (Model { sub_objects: self.sub_objects, ..*old(self) }),
                forall|j: int|
                    0 <= j < n ==> same_but_children(
                        #[trigger] orig[j],
                        self.sub_objects@[j],
                    ),
                forall|j: int|
                    0 <= j < i ==> (#[trigger] self.sub_objects@[j]).children@
                        == Seq::<ObjectId>::empty(),
            decreases n - i,
        {
            let so = self.sub_objects.at_mut(ObjectId(i as u32));
            so.children = Vec::new();
            i += 1;
        }
        let mut i: usize = 0;
        while i < n
            invariant
                0 <= i <= n,
                n == orig.len() <= u32::MAX,
                self.sub_objects@.len() == n,
                *self == (Model { sub_objects: self.sub_objects, ..*old(self) }),
                forall|j: int|
                    0 <= j < n ==> (match (#[trigger] orig[j]).parent {
                        Some(p) => p.0 < n,
                        None => true,
                    }),
                forall|j: int|
                    0 <= j < n ==> same_but_children(
                        #[trigger] orig[j],
                        self.sub_objects@[j],
                    ),
                forall|j: int|
                    0 <= j < n ==> (#[trigger] self.sub_objects@[j]).children@ == children_spec(
                        orig,
                        j,
                        i as int,
                    ),
            decreases n - i,
        {
            let parent_opt = self.sub_objects.at(ObjectId(i as u32)).parent;
            let child_id = self.sub_objects.at(ObjectId(i as u32)).obj_id;
            proof {
                assert(orig[i as int].parent == parent_opt);
                assert(orig[i as int].obj_id == child_id);
            }
            match parent_opt {
                Some(p) => {
                    let pc = self.sub_objects.at_mut(p);
                    pc.children.push(child_id);
                    proof {
                        assert forall|j: int| 0 <= j < n implies (
                        #[trigger] self.sub_objects@[j]).children@ == children_spec(
                            orig,
                            j,
                            i + 1,
                        ) by {
                            if j == p.0 as int {
                                assert(children_spec(orig, j, i + 1) =~= children_spec(
                                    orig,
                                    j,
                                    i as int,
                                ).push(orig[i as int].obj_id));
                            }
                        }
                    }
                },
                None => {
                    proof {
                        assert forall|j: int| 0 <= j < n implies (
                        #[trigger] self.sub_objects@[j]).children@ == children_spec(
                            orig,
                            j,
                            i + 1,
                        ) by {}
                    }
                },
            }
            i += 1;
        }
    }
}

/// Equal in every field except possibly the derived children array.
pub open spec fn same_but_children(a: SubObject, b: SubObject) -> bool {
    b == (SubObject { children: b.children, ..a })
}

/// Equal in every field except possibly the derived name links.
pub open spec fn same_but_links(a: SubObject, b: SubObject) -> bool {
    b == (SubObject { name_links: b.name_links, ..a })
}

/// One text starts with another.
pub open spec fn starts_with_spec(s: Seq<char>, p: Seq<char>) -> bool {
    p.len() <= s.len() && s.take(p.len() as int) == p
}

/// The part of a name after the first occurrence of the debris marker, when
/// the marker occurs at all.
pub open spec fn debris_remainder(name: Seq<char>) -> Option<Seq<char>> {
    if exists|f: int| crate::props::match_at(name, "debris-"@, f) {
        let f = choose|f: int| crate::props::found_first(name, "debris-"@, f);
        Some(name.skip(f + "debris-"@.len()))
    } else {
        None
    }
}

/// Objects `i` (the debris piece) and `j` (its source) form a debris pair:
/// `i`'s name carries the debris marker, and `j` is the first object whose
/// name is a prefix of what follows the marker.
pub open spec fn debris_pair(objs: Seq<SubObject>, i: int, j: int) -> bool {
    &&& 0 <= i < objs.len() && 0 <= j < objs.len()
    &&& debris_remainder(objs[i].name@) matches Some(rem) && starts_with_spec(rem, objs[j].name@)
        && (forall|j2: int| 0 <= j2 < j ==> !starts_with_spec(rem, objs[j2].name@))
}

/// The name with the destroyed suffix removed, when it carries one.
pub open spec fn destroyed_prefix(name: Seq<char>) -> Option<Seq<char>> {
    if name.len() >= "-destroyed"@.len() && name.skip(name.len() - "-destroyed"@.len())
        == "-destroyed"@ {
        Some(name.take(name.len() - "-destroyed"@.len()))
    } else {
        None
    }
}

/// Objects `i` (the destroyed version) and `j` (its intact counterpart) form
/// a destroyed pair: `i`'s name is `j`'s name plus the destroyed suffix, and
/// `j` is the first object with exactly that name.
pub open spec fn destroyed_pair(objs: Seq<SubObject>, i: int, j: int) -> bool {
    &&& 0 <= i < objs.len() && 0 <= j < objs.len()
    &&& destroyed_prefix(objs[i].name@) matches Some(pre) && objs[j].name@ == pre && (forall|
        j2: int,
    |
        0 <= j2 < j ==> (#[trigger] objs[j2]).name@ != pre)
}

/// Two equal-length names differ at exactly position `d`, holding the
/// highest-detail letter and a lower-detail letter there.
pub open spec fn detail_diff(a: Seq<char>, b: Seq<char>, d: int) -> bool {
    &&& a.len() == b.len()
    &&& 0 <= d < a.len()
    &&& a[d] == 'a' && 'b' <= b[d] <= 'h'
    &&& forall|k: int| 0 <= k < a.len() && k != d ==> a[k] == b[k]
}

/// Objects `i` (the highest detail) and `j` (a lower detail) form a
/// detail-level pair at the given level: both have parents, and their names
/// differ only at one position holding `'a'` and the level's letter.
pub open spec fn detail_pair(objs: Seq<SubObject>, i: int, j: int, lvl: u8) -> bool {
    &&& 0 <= i < objs.len() && 0 <= j < objs.len()
    &&& objs[i].parent is Some && objs[j].parent is Some
    &&& exists|d: int|
        #[trigger] detail_diff(objs[i].name@, objs[j].name@, d) && lvl == (objs[j].name@[d] as u32
            - 'a' as u32) as u8
}

proof fn lemma_detail_diff_unique(a: Seq<char>, b: Seq<char>, d1: int, d2: int)
    requires
        detail_diff(a, b, d1),
        detail_diff(a, b, d2),
    ensures
        d1 == d2,
{
    if d1 != d2 {
        assert(a[d1] == b[d1]);
    }
}

/// Whether one text starts with another.
fn starts_with_str(s: &str, p: &str) -> (r: bool)
    ensures
        r == starts_with_spec(s@, p@),
{
    let pn = p.unicode_len();
    if pn > s.unicode_len() {
        return false;
    }
    let mut k: usize = 0;
    while k < pn
        invariant
            0 <= k <= pn,
            pn == p@.len() <= s@.len(),
            forall|j: int| 0 <= j < k ==> s@[j] == p@[j],
        decreases pn - k,
    {
        if s.get_char(k) != p.get_char(k) {
            proof {
                assert(s@.take(p@.len() as int)[k as int] != p@[k as int]);
            }
            return false;
        }
        k += 1;
    }
    proof {
        assert(s@.take(p@.len() as int) =~= p@);
    }
    true
}

/// The remainder of a name after its first debris marker, if any.
fn debris_remainder_exec(name: &str) -> (r: Option<String>)
    ensures
        (match r {
            Some(rem) => debris_remainder(name@) == Some(rem@),
            None => debris_remainder(name@) is None,
        }),
{
    match crate::props::find_str(name, "debris-") {
        Some(f) => {
            let plen = "debris-".unicode_len();
            let n = name.unicode_len();
            proof {
                let c = choose|c: int| crate::props::found_first(name@, "debris-"@, c);
                crate::props::lemma_found_first_unique(name@, "debris-"@, f as int, c);
            }
            let rem = name.substring_char(f + plen, n);
            Some(rem.to_owned())
        },
        None => None,
    }
}

/// The name with its destroyed suffix removed, if it carries one.
fn destroyed_prefix_exec(name: &str) -> (r: Option<String>)
    ensures
        (match r {
            Some(pre) => destroyed_prefix(name@) == Some(pre@),
            None => destroyed_prefix(name@) is None,
        }),
{
    let n = name.unicode_len();
    let sl = "-destroyed".unicode_len();
    if n >= sl {
        let tail = name.substring_char(n - sl, n);
        if str_eq(tail, "-destroyed") {
            let pre = name.substring_char(0, n - sl);
            return Some(pre.to_owned());
        }
    }
    None
}

/// The detail level letter difference between two names: when they differ at
/// exactly one position holding `'a'` and a letter in `'b'..='h'`, the
/// letter's offset from `'a'`.
fn detail_check(a: &str, b: &str) -> (r: Option<u8>)
    ensures
        (match r {
            Some(lvl) => exists|d: int|
                #[trigger] detail_diff(a@, b@, d) && lvl == (b@[d] as u32 - 'a' as u32) as u8,
            None => forall|d: int| !detail_diff(a@, b@, d),
        }),
{
    let n = a.unicode_len();
    if n != b.unicode_len() {
        return None;
    }
    let mut diffs: usize = 0;
    let mut first_d: usize = 0;
    let mut second_d: usize = 0;
    let mut k: usize = 0;
    while k < n
        invariant
            0 <= k <= n,
            n == a@.len() == b@.len(),
            diffs <= k,
            diffs == 0 ==> forall|j: int| 0 <= j < k ==> a@[j] == b@[j],
            diffs > 0 ==> first_d < k && a@[first_d as int] != b@[first_d as int],
            diffs == 1 ==> forall|j: int| 0 <= j < k && j != first_d ==> a@[j] == b@[j],
            diffs >= 2 ==> second_d < k && second_d != first_d && a@[second_d as int]
                != b@[second_d as int],
        decreases n - k,
    {
        if a.get_char(k) != b.get_char(k) {
            if diffs == 0 {
                first_d = k;
            } else if diffs == 1 {
                second_d = k;
            }
            diffs += 1;
        }
        k += 1;
    }
    if diffs == 1 {
        let ca = a.get_char(first_d);
        let cb = b.get_char(first_d);
        if ca == 'a' && (cb as u32) >= ('b' as u32) && (cb as u32) <= ('h' as u32) {
            let lvl = ((cb as u32) - ('a' as u32)) as u8;
            proof {
                assert(detail_diff(a@, b@, first_d as int));
            }
            return Some(lvl);
        }
        proof {
            assert forall|d: int| !detail_diff(a@, b@, d) by {
                if detail_diff(a@, b@, d) {
                    lemma_detail_diff_unique(a@, b@, d, first_d as int);
                }
            }
        }
        None
    } else {
        proof {
            assert forall|d: int| !detail_diff(a@, b@, d) by {
                if detail_diff(a@, b@, d) {
                    if diffs == 0 {
                        assert(a@[d] != b@[d]);
                    } else {
                        if d != first_d {
                            assert(a@[first_d as int] == b@[first_d as int]);
                        } else {
                            assert(a@[second_d as int] == b@[second_d as int]);
                        }
                    }
                }
            }
        }
        None
    }
}

/// Membership in a pushed sequence: the old members plus the new element.
proof fn lemma_contains_push(s: Seq<NameLink>, x: NameLink, l: NameLink)
    ensures
        s.push(x).contains(l) <==> (s.contains(l) || l == x),
{
    if s.push(x).contains(l) {
        let k = choose|k: int| 0 <= k < s.push(x).len() && s.push(x)[k] == l;
        if k < s.len() {
            assert(s[k] == l);
        }
    }
    if s.contains(l) {
        let k = choose|k: int| 0 <= k < s.len() && s[k] == l;
        assert(s.push(x)[k] == l);
    }
    if l == x {
        assert(s.push(x)[s.len() as int] == l);
    }
}

/// Membership in a concatenation: membership in either part.
proof fn lemma_contains_concat(s1: Seq<NameLink>, s2: Seq<NameLink>, l: NameLink)
    ensures
        (s1 + s2).contains(l) <==> (s1.contains(l) || s2.contains(l)),
{
    if (s1 + s2).contains(l) {
        let k = choose|k: int| 0 <= k < (s1 + s2).len() && (s1 + s2)[k] == l;
        if k < s1.len() {
            assert(s1[k] == l);
        } else {
            assert(s2[k - s1.len()] == l);
        }
    }
    if s1.contains(l) {
        let k = choose|k: int| 0 <= k < s1.len() && s1[k] == l;
        assert((s1 + s2)[k] == l);
    }
    if s2.contains(l) {
        let k = choose|k: int| 0 <= k < s2.len() && s2[k] == l;
        assert((s1 + s2)[s1.len() + k] == l);
    }
}

/// The first object whose name is a prefix of the remainder, if any.
fn first_prefix_source(objs: &ObjVec<SubObject>, rem: &str) -> (r: Option<usize>)
    requires
        objs@.len() <= u32::MAX,
    ensures
        (match r {
            Some(j) => j < objs@.len() && starts_with_spec(rem@, objs@[j as int].name@) && (forall|
                j2: int,
            |
                0 <= j2 < j ==> !starts_with_spec(rem@, (#[trigger] objs@[j2]).name@)),
            None => forall|j2: int|
                0 <= j2 < objs@.len() ==> !starts_with_spec(rem@, (#[trigger] objs@[j2]).name@),
        }),
{
    let n = objs.len();
    let mut j: usize = 0;
    while j < n
        invariant
            0 <= j <= n,
            n == objs@.len() <= u32::MAX,
            forall|j2: int|
                0 <= j2 < j ==> !starts_with_spec(rem@, (#[trigger] objs@[j2]).name@),
        decreases n - j,
    {
        if starts_with_str(rem, objs.at(ObjectId(j as u32)).name.as_str()) {
            return Some(j);
        }
        j += 1;
    }
    None
}

/// The first object with exactly the given name, if any.
fn first_exact_source(objs: &ObjVec<SubObject>, pre: &str) -> (r: Option<usize>)
    requires
        objs@.len() <= u32::MAX,
    ensures
        (match r {
            Some(j) => j < objs@.len() && objs@[j as int].name@ == pre@ && (forall|j2: int|
                0 <= j2 < j ==> (#[trigger] objs@[j2]).name@ != pre@),
            None => forall|j2: int|
                0 <= j2 < objs@.len() ==> (#[trigger] objs@[j2]).name@ != pre@,
        }),
{
    let n = objs.len();
    let mut j: usize = 0;
    while j < n
        invariant
            0 <= j <= n,
            n == objs@.len() <= u32::MAX,
            forall|j2: int| 0 <= j2 < j ==> (#[trigger] objs@[j2]).name@ != pre@,
        decreases n - j,
    {
        if str_eq(objs.at(ObjectId(j as u32)).name.as_str(), pre) {
            return Some(j);
        }
        j += 1;
    }
    None
}

/// The debris back-link of one object, when its name carries the marker and
/// a source exists.
fn debris_of_links(objs: &ObjVec<SubObject>, x: usize) -> (r: Vec<NameLink>)
    requires
        x < objs@.len(),
        objs@.len() <= u32::MAX,
    ensures
        forall|k: int| 0 <= k < r@.len() ==> (#[trigger] r@[k]) is LiveDebrisOf,
        forall|j: int|
            0 <= j < objs@.len() ==> (#[trigger] r@.contains(
                NameLink::LiveDebrisOf(ObjectId(j as u32)),
            ) <==> debris_pair(objs@, x as int, j)),
{
    let mut out: Vec<NameLink> = Vec::new();
    match debris_remainder_exec(objs.at(ObjectId(x as u32)).name.as_str()) {
        Some(rem) => {
            match first_prefix_source(objs, rem.as_str()) {
                Some(j) => {
                    out.push(NameLink::LiveDebrisOf(ObjectId(j as u32)));
                },
                None => {},
            }
        },
        None => {},
    }
    proof {
        assert forall|j: int|
            0 <= j < objs@.len() implies (#[trigger] out@.contains(
            NameLink::LiveDebrisOf(ObjectId(j as u32)),
        ) <==> debris_pair(objs@, x as int, j)) by {
            if out@.contains(NameLink::LiveDebrisOf(ObjectId(j as u32))) {
                let k = choose|k: int|
                    0 <= k < out@.len() && out@[k] == NameLink::LiveDebrisOf(ObjectId(j as u32));
                assert(k == 0);
            }
            if debris_pair(objs@, x as int, j) {
                assert(out@.len() == 1);
                assert(out@[0] == NameLink::LiveDebrisOf(ObjectId(j as u32)));
                assert(out@.contains(out@[0]));
            }
        }
    }
    out
}

/// The debris forward links of one object: one per piece whose source it is.
fn debris_src_links(objs: &ObjVec<SubObject>, x: usize) -> (r: Vec<NameLink>)
    requires
        x < objs@.len(),
        objs@.len() <= u32::MAX,
    ensures
        forall|k: int| 0 <= k < r@.len() ==> (#[trigger] r@[k]) is LiveDebris,
        forall|i: int|
            0 <= i < objs@.len() ==> (#[trigger] r@.contains(
                NameLink::LiveDebris(ObjectId(i as u32)),
            ) <==> debris_pair(objs@, i, x as int)),
{
    let n = objs.len();
    let mut out: Vec<NameLink> = Vec::new();
    let mut i: usize = 0;
    while i < n
        invariant
            0 <= i <= n,
            x < n == objs@.len() <= u32::MAX,
            forall|k: int| 0 <= k < out@.len() ==> (#[trigger] out@[k]) is LiveDebris,
            forall|i2: int|
                0 <= i2 < i ==> (#[trigger] out@.contains(NameLink::LiveDebris(ObjectId(i2 as u32)))
                    <==> debris_pair(objs@, i2, x as int)),
            forall|i2: int|
                i <= i2 < n ==> !(#[trigger] out@.contains(
                    NameLink::LiveDebris(ObjectId(i2 as u32)),
                )),
        decreases n - i,
    {
        let ghost before = out@;
        let mut pushed: bool = false;
        match debris_remainder_exec(objs.at(ObjectId(i as u32)).name.as_str()) {
            Some(rem) => {
                match first_prefix_source(objs, rem.as_str()) {
                    Some(j) => {
                        if j == x {
                            out.push(NameLink::LiveDebris(ObjectId(i as u32)));
                            pushed = true;
                        }
                    },
                    None => {},
                }
            },
            None => {},
        }
        proof {
            let new_l = NameLink::LiveDebris(ObjectId(i as u32));
            assert forall|i2: int|
                0 <= i2 < i + 1 implies ((#[trigger] out@.contains(
                NameLink::LiveDebris(ObjectId(i2 as u32)),
            )) <==> debris_pair(objs@, i2, x as int)) by {
                if pushed {
                    lemma_contains_push(before, new_l, NameLink::LiveDebris(ObjectId(i2 as u32)));
                } else {
                    assert(out@ == before);
                }
            }
            assert forall|i2: int|
                i + 1 <= i2 < n implies !(#[trigger] out@.contains(
                NameLink::LiveDebris(ObjectId(i2 as u32)),
            )) by {
                if pushed {
                    lemma_contains_push(before, new_l, NameLink::LiveDebris(ObjectId(i2 as u32)));
                } else {
                    assert(out@ == before);
                }
            }
        }
        i += 1;
    }
    out
}

/// The destroyed back-link of one object, when its name carries the suffix
/// and an intact counterpart exists.
fn destroyed_of_links(objs: &ObjVec<SubObject>, x: usize) -> (r: Vec<NameLink>)
    requires
        x < objs@.len(),
        objs@.len() <= u32::MAX,
    ensures
        forall|k: int| 0 <= k < r@.len() ==> (#[trigger] r@[k]) is DestroyedVersionOf,
        forall|j: int|
            0 <= j < objs@.len() ==> (#[trigger] r@.contains(
                NameLink::DestroyedVersionOf(ObjectId(j as u32)),
            ) <==> destroyed_pair(objs@, x as int, j)),
{
    let mut out: Vec<NameLink> = Vec::new();
    match destroyed_prefix_exec(objs.at(ObjectId(x as u32)).name.as_str()) {
        Some(pre) => {
            match first_exact_source(objs, pre.as_str()) {
                Some(j) => {
                    out.push(NameLink::DestroyedVersionOf(ObjectId(j as u32)));
                },
                None => {},
            }
        },
        None => {},
    }
    proof {
        assert forall|j: int|
            0 <= j < objs@.len() implies (#[trigger] out@.contains(
            NameLink::DestroyedVersionOf(ObjectId(j as u32)),
        ) <==> destroyed_pair(objs@, x as int, j)) by {
            if out@.contains(NameLink::DestroyedVersionOf(ObjectId(j as u32))) {
                let k = choose|k: int|
                    0 <= k < out@.len() && out@[k] == NameLink::DestroyedVersionOf(
                        ObjectId(j as u32),
                    );
                assert(k == 0);
            }
            if destroyed_pair(objs@, x as int, j) {
                assert(out@.len() == 1);
                assert(out@[0] == NameLink::DestroyedVersionOf(ObjectId(j as u32)));
                assert(out@.contains(out@[0]));
            }
        }
    }
    out
}

/// The destroyed forward links of one object: one per destroyed version of
/// it.
fn destroyed_src_links(objs: &ObjVec<SubObject>, x: usize) -> (r: Vec<NameLink>)
    requires
        x < objs@.len(),
        objs@.len() <= u32::MAX,
    ensures
        forall|k: int| 0 <= k < r@.len() ==> (#[trigger] r@[k]) is DestroyedVersion,
        forall|i: int|
            0 <= i < objs@.len() ==> (#[trigger] r@.contains(
                NameLink::DestroyedVersion(ObjectId(i as u32)),
            ) <==> destroyed_pair(objs@, i, x as int)),
{
    let n = objs.len();
    let mut out: Vec<NameLink> = Vec::new();
    let mut i: usize = 0;
    while i < n
        invariant
            0 <= i <= n,
            x < n == objs@.len() <= u32::MAX,
            forall|k: int| 0 <= k < out@.len() ==> (#[trigger] out@[k]) is DestroyedVersion,
            forall|i2: int|
                0 <= i2 < i ==> (#[trigger] out@.contains(
                    NameLink::DestroyedVersion(ObjectId(i2 as u32)),
                ) <==> destroyed_pair(objs@, i2, x as int)),
            forall|i2: int|
                i <= i2 < n ==> !(#[trigger] out@.contains(
                    NameLink::DestroyedVersion(ObjectId(i2 as u32)),
                )),
        decreases n - i,
    {
        let ghost before = out@;
        let mut pushed: bool = false;
        match destroyed_prefix_exec(objs.at(ObjectId(i as u32)).name.as_str()) {
            Some(pre) => {
                match first_exact_source(objs, pre.as_str()) {
                    Some(j) => {
                        if j == x {
                            out.push(NameLink::DestroyedVersion(ObjectId(i as u32)));
                            pushed = true;
                        }
                    },
                    None => {},
                }
            },
            None => {},
        }
        proof {
            let new_l = NameLink::DestroyedVersion(ObjectId(i as u32));
            assert forall|i2: int|
                0 <= i2 < i + 1 implies ((#[trigger] out@.contains(
                NameLink::DestroyedVersion(ObjectId(i2 as u32)),
            )) <==> destroyed_pair(objs@, i2, x as int)) by {
                if pushed {
                    lemma_contains_push(
                        before,
                        new_l,
                        NameLink::DestroyedVersion(ObjectId(i2 as u32)),
                    );
                } else {
                    assert(out@ == before);
                }
            }
            assert forall|i2: int|
                i + 1 <= i2 < n implies !(#[trigger] out@.contains(
                NameLink::DestroyedVersion(ObjectId(i2 as u32)),
            )) by {
                if pushed {
                    lemma_contains_push(
                        before,
                        new_l,
                        NameLink::DestroyedVersion(ObjectId(i2 as u32)),
                    );
                } else {
                    assert(out@ == before);
                }
            }
        }
        i += 1;
    }
    out
}

/// The detail-level links of one object, in both directions.
fn detail_links(objs: &ObjVec<SubObject>, x: usize) -> (r: Vec<NameLink>)
    requires
        x < objs@.len(),
        objs@.len() <= u32::MAX,
    ensures
        forall|k: int|
            0 <= k < r@.len() ==> (#[trigger] r@[k]) is DetailLevel || r@[k] is DetailLevelOf,
        forall|y: int, lvl: u8|
            0 <= y < objs@.len() ==> (#[trigger] r@.contains(
                NameLink::DetailLevel(ObjectId(y as u32), lvl),
            ) <==> detail_pair(objs@, x as int, y, lvl)),
        forall|y: int, lvl: u8|
            0 <= y < objs@.len() ==> (#[trigger] r@.contains(
                NameLink::DetailLevelOf(ObjectId(y as u32), lvl),
            ) <==> detail_pair(objs@, y, x as int, lvl)),
{
    let n = objs.len();
    let mut out: Vec<NameLink> = Vec::new();
    let x_has_parent = objs.at(ObjectId(x as u32)).parent.is_some();
    let mut y: usize = 0;
    while y < n
        invariant
            0 <= y <= n,
            x < n == objs@.len() <= u32::MAX,
            x_has_parent == (objs@[x as int].parent is Some),
            forall|k: int|
                0 <= k < out@.len() ==> (#[trigger] out@[k]) is DetailLevel || out@[k]
                    is DetailLevelOf,
            forall|y2: int, lvl: u8|
                0 <= y2 < y ==> (#[trigger] out@.contains(
                    NameLink::DetailLevel(ObjectId(y2 as u32), lvl),
                ) <==> detail_pair(objs@, x as int, y2, lvl)),
            forall|y2: int, lvl: u8|
                y <= y2 < n ==> !(#[trigger] out@.contains(
                    NameLink::DetailLevel(ObjectId(y2 as u32), lvl),
                )),
            forall|y2: int, lvl: u8|
                0 <= y2 < y ==> (#[trigger] out@.contains(
                    NameLink::DetailLevelOf(ObjectId(y2 as u32), lvl),
                ) <==> detail_pair(objs@, y2, x as int, lvl)),
            forall|y2: int, lvl: u8|
                y <= y2 < n ==> !(#[trigger] out@.contains(
                    NameLink::DetailLevelOf(ObjectId(y2 as u32), lvl),
                )),
        decreases n - y,
    {
        let ghost before = out@;
        let mut pushed_down: Option<u8> = None;
        let mut pushed_up: Option<u8> = None;
        if x_has_parent && objs.at(ObjectId(y as u32)).parent.is_some() {
            match detail_check(
                objs.at(ObjectId(x as u32)).name.as_str(),
                objs.at(ObjectId(y as u32)).name.as_str(),
            ) {
                Some(lvl) => {
                    out.push(NameLink::DetailLevel(ObjectId(y as u32), lvl));
                    pushed_down = Some(lvl);
                },
                None => {},
            }
        }
        let ghost mid = out@;
        if x_has_parent && objs.at(ObjectId(y as u32)).parent.is_some() {
            match detail_check(
                objs.at(ObjectId(y as u32)).name.as_str(),
                objs.at(ObjectId(x as u32)).name.as_str(),
            ) {
                Some(lvl) => {
                    out.push(NameLink::DetailLevelOf(ObjectId(y as u32), lvl));
                    pushed_up = Some(lvl);
                },
                None => {},
            }
        }
        proof {
            assert forall|y2: int, lvl: u8|
                0 <= y2 < y + 1 implies (#[trigger] out@.contains(
                NameLink::DetailLevel(ObjectId(y2 as u32), lvl),
            ) <==> detail_pair(objs@, x as int, y2, lvl)) by {
                let l = NameLink::DetailLevel(ObjectId(y2 as u32), lvl);
                match pushed_down {
                    Some(lv) => {
                        lemma_contains_push(before, NameLink::DetailLevel(ObjectId(y as u32), lv), l);
                    },
                    None => {
                        assert(mid == before);
                    },
                }
                match pushed_up {
                    Some(lv) => {
                        lemma_contains_push(mid, NameLink::DetailLevelOf(ObjectId(y as u32), lv), l);
                    },
                    None => {
                        assert(out@ == mid);
                    },
                }
                if y2 == y {
                    match pushed_down {
                        Some(lv) => {
                            if lvl == lv {
                                assert(detail_pair(objs@, x as int, y2, lvl));
                            } else {
                                if detail_pair(objs@, x as int, y2, lvl) {
                                    let d1 = choose|d: int|
                                        #[trigger] detail_diff(
                                            objs@[x as int].name@,
                                            objs@[y2].name@,
                                            d,
                                        ) && lvl == (objs@[y2].name@[d] as u32 - 'a' as u32) as u8;
                                    let d2 = choose|d: int|
                                        #[trigger] detail_diff(
                                            objs@[x as int].name@,
                                            objs@[y2].name@,
                                            d,
                                        ) && lv == (objs@[y2].name@[d] as u32 - 'a' as u32) as u8;
                                    lemma_detail_diff_unique(
                                        objs@[x as int].name@,
                                        objs@[y2].name@,
                                        d1,
                                        d2,
                                    );
                                }
                            }
                        },
                        None => {
                            if detail_pair(objs@, x as int, y2, lvl) {
                                assert(false);
                            }
                        },
                    }
                }
            }
            assert forall|y2: int, lvl: u8|
                0 <= y2 < y + 1 implies (#[trigger] out@.contains(
                NameLink::DetailLevelOf(ObjectId(y2 as u32), lvl),
            ) <==> detail_pair(objs@, y2, x as int, lvl)) by {
                let l = NameLink::DetailLevelOf(ObjectId(y2 as u32), lvl);
                match pushed_down {
                    Some(lv) => {
                        lemma_contains_push(before, NameLink::DetailLevel(ObjectId(y as u32), lv), l);
                    },
                    None => {
                        assert(mid == before);
                    },
                }
                match pushed_up {
                    Some(lv) => {
                        lemma_contains_push(mid, NameLink::DetailLevelOf(ObjectId(y as u32), lv), l);
                    },
                    None => {
                        assert(out@ == mid);
                    },
                }
                if y2 == y {
                    match pushed_up {
                        Some(lv) => {
                            if lvl == lv {
                                assert(detail_pair(objs@, y2, x as int, lvl));
                            } else {
                                if detail_pair(objs@, y2, x as int, lvl) {
                                    let d1 = choose|d: int|
                                        #[trigger] detail_diff(
                                            objs@[y2].name@,
                                            objs@[x as int].name@,
                                            d,
                                        ) && lvl == (objs@[x as int].name@[d] as u32
                                            - 'a' as u32) as u8;
                                    let d2 = choose|d: int|
                                        #[trigger] detail_diff(
                                            objs@[y2].name@,
                                            objs@[x as int].name@,
                                            d,
                                        ) && lv == (objs@[x as int].name@[d] as u32
                                            - 'a' as u32) as u8;
                                    lemma_detail_diff_unique(
                                        objs@[y2].name@,
                                        objs@[x as int].name@,
                                        d1,
                                        d2,
                                    );
                                }
                            }
                        },
                        None => {
                            if detail_pair(objs@, y2, x as int, lvl) {
                                assert(false);
                            }
                        },
                    }
                }
            }
            assert forall|y2: int, lvl: u8|
                y + 1 <= y2 < n implies !(#[trigger] out@.contains(
                NameLink::DetailLevel(ObjectId(y2 as u32), lvl),
            )) by {
                let l = NameLink::DetailLevel(ObjectId(y2 as u32), lvl);
                match pushed_down {
                    Some(lv) => {
                        lemma_contains_push(before, NameLink::DetailLevel(ObjectId(y as u32), lv), l);
                    },
                    None => {
                        assert(mid == before);
                    },
                }
                match pushed_up {
                    Some(lv) => {
                        lemma_contains_push(mid, NameLink::DetailLevelOf(ObjectId(y as u32), lv), l);
                    },
                    None => {
                        assert(out@ == mid);
                    },
                }
            }
            assert forall|y2: int, lvl: u8|
                y + 1 <= y2 < n implies !(#[trigger] out@.contains(
                NameLink::DetailLevelOf(ObjectId(y2 as u32), lvl),
            )) by {
                let l = NameLink::DetailLevelOf(ObjectId(y2 as u32), lvl);
                match pushed_down {
                    Some(lv) => {
                        lemma_contains_push(before, NameLink::DetailLevel(ObjectId(y as u32), lv), l);
                    },
                    None => {
                        assert(mid == before);
                    },
                }
                match pushed_up {
                    Some(lv) => {
                        lemma_contains_push(mid, NameLink::DetailLevelOf(ObjectId(y as u32), lv), l);
                    },
                    None => {
                        assert(out@ == mid);
                    },
                }
            }
        }
        y += 1;
    }
    out
}

/// The complete set of name links one object should carry.
fn compute_links_for(objs: &ObjVec<SubObject>, x: usize) -> (r: Vec<NameLink>)
    requires
        x < objs@.len(),
        objs@.len() <= u32::MAX,
    ensures
        forall|i: int|
            0 <= i < objs@.len() ==> (#[trigger] r@.contains(
                NameLink::LiveDebris(ObjectId(i as u32)),
            ) <==> debris_pair(objs@, i, x as int)),
        forall|j: int|
            0 <= j < objs@.len() ==> (#[trigger] r@.contains(
                NameLink::LiveDebrisOf(ObjectId(j as u32)),
            ) <==> debris_pair(objs@, x as int, j)),
        forall|i: int|
            0 <= i < objs@.len() ==> (#[trigger] r@.contains(
                NameLink::DestroyedVersion(ObjectId(i as u32)),
            ) <==> destroyed_pair(objs@, i, x as int)),
        forall|j: int|
            0 <= j < objs@.len() ==> (#[trigger] r@.contains(
                NameLink::DestroyedVersionOf(ObjectId(j as u32)),
            ) <==> destroyed_pair(objs@, x as int, j)),
        forall|y: int, lvl: u8|
            0 <= y < objs@.len() ==> (#[trigger] r@.contains(
                NameLink::DetailLevel(ObjectId(y as u32), lvl),
            ) <==> detail_pair(objs@, x as int, y, lvl)),
        forall|y: int, lvl: u8|
            0 <= y < objs@.len() ==> (#[trigger] r@.contains(
                NameLink::DetailLevelOf(ObjectId(y as u32), lvl),
            ) <==> detail_pair(objs@, y, x as int, lvl)),
{
    let mut out = debris_of_links(objs, x);
    let ghost s1 = out@;
    let mut part = debris_src_links(objs, x);
    let ghost s2 = part@;
    out.append(&mut part);
    let mut part = destroyed_of_links(objs, x);
    let ghost s3 = part@;
    out.append(&mut part);
    let mut part = destroyed_src_links(objs, x);
    let ghost s4 = part@;
    out.append(&mut part);
    let mut part = detail_links(objs, x);
    let ghost s5 = part@;
    out.append(&mut part);
    proof {
        assert(out@ == s1 + s2 + s3 + s4 + s5);
        assert forall|l: NameLink| #[trigger] out@.contains(l) implies (s1.contains(l)
            || s2.contains(l) || s3.contains(l) || s4.contains(l) || s5.contains(l)) by {
            lemma_contains_concat(s1 + s2 + s3 + s4, s5, l);
            lemma_contains_concat(s1 + s2 + s3, s4, l);
            lemma_contains_concat(s1 + s2, s3, l);
            lemma_contains_concat(s1, s2, l);
        }
        assert forall|l: NameLink|
            s1.contains(l) || s2.contains(l) || s3.contains(l) || s4.contains(l) || s5.contains(
                l,
            ) implies #[trigger] out@.contains(l) by {
            lemma_contains_concat(s1 + s2 + s3 + s4, s5, l);
            lemma_contains_concat(s1 + s2 + s3, s4, l);
            lemma_contains_concat(s1 + s2, s3, l);
            lemma_contains_concat(s1, s2, l);
        }
    }
    out
}

impl Model {
    /// Recomputes every object's derived name links wholesale from the
    /// objects' names and parents: debris/source pairs, destroyed/intact
    /// pairs, and detail-level pairs, each with its reciprocal back-link.
    /// Nothing but the name links changes.
    pub fn recalc_semantic_name_links(&mut self)
        requires
            old(self).sub_objects@.len() <= u32::MAX,
        ensures
            final(self).sub_objects@.len() == old(self).sub_objects@.len(),
            forall|j: int|
                0 <= j < old(self).sub_objects@.len() ==> same_but_links(
                    #[trigger] old(self).sub_objects@[j],
                    final(self).sub_objects@[j],
                ),
            forall|x: int, i: int|
                0 <= x < old(self).sub_objects@.len() && 0 <= i < old(self).sub_objects@.len()
                    ==> (#[trigger] final(self).sub_objects@[x].name_links@.contains(
                    NameLink::LiveDebris(ObjectId(i as u32)),
                ) <==> debris_pair(old(self).sub_objects@, i, x)),
            forall|x: int, j: int|
                0 <= x < old(self).sub_objects@.len() && 0 <= j < old(self).sub_objects@.len()
                    ==> (#[trigger] final(self).sub_objects@[x].name_links@.contains(
                    NameLink::LiveDebrisOf(ObjectId(j as u32)),
                ) <==> debris_pair(old(self).sub_objects@, x, j)),
            forall|x: int, i: int|
                0 <= x < old(self).sub_objects@.len() && 0 <= i < old(self).sub_objects@.len()
                    ==> (#[trigger] final(self).sub_objects@[x].name_links@.contains(
                    NameLink::DestroyedVersion(ObjectId(i as u32)),
                ) <==> destroyed_pair(old(self).sub_objects@, i, x)),
            forall|x: int, j: int|
                0 <= x < old(self).sub_objects@.len() && 0 <= j < old(self).sub_objects@.len()
                    ==> (#[trigger] final(self).sub_objects@[x].name_links@.contains(
                    NameLink::DestroyedVersionOf(ObjectId(j as u32)),
                ) <==> destroyed_pair(old(self).sub_objects@, x, j)),
            forall|x: int, y: int, lvl: u8|
                0 <= x < old(self).sub_objects@.len() && 0 <= y < old(self).sub_objects@.len()
                    ==> (#[trigger] final(self).sub_objects@[x].name_links@.contains(
                    NameLink::DetailLevel(ObjectId(y as u32), lvl),
                ) <==> detail_pair(old(self).sub_objects@, x, y, lvl)),
            forall|x: int, y: int, lvl: u8|
                0 <= x < old(self).sub_objects@.len() && 0 <= y < old(self).sub_objects@.len()
                    ==> (#[trigger] final(self).sub_objects@[x].name_links@.contains(
                    NameLink::DetailLevelOf(ObjectId(y as u32), lvl),
                ) <==> detail_pair(old(self).sub_objects@, y, x, lvl)),
            // the name-link symmetry law: a detail-level link is always
            // mirrored by the reciprocal back-link at the same level
            forall|x: int, y: int, lvl: u8|
                0 <= x < old(self).sub_objects@.len() && 0 <= y < old(self).sub_objects@.len()
                    ==> ((#[trigger] final(self).sub_objects@[x].name_links@.contains(
                    NameLink::DetailLevel(ObjectId(y as u32), lvl),
                )) <==> final(self).sub_objects@[y].name_links@.contains(
                    NameLink::DetailLevelOf(ObjectId(x as u32), lvl),
                )),
            *final(self) == (Model { sub_objects: final(self).sub_objects, ..*old(self) }),
    {
        let ghost orig = self.sub_objects@;
        let n = self.sub_objects.len();
        let mut all: Vec<Vec<NameLink>> = Vec::new();
        let mut x: usize = 0;
        while x < n
            invariant
                0 <= x <= n,
                n == self.sub_objects@.len() <= u32::MAX,
                self.sub_objects@ == orig,
                *self == *old(self),
                all@.len() == x,
                forall|x2: int, i: int|
                    0 <= x2 < x && 0 <= i < n ==> (#[trigger] all@[x2]@.contains(
                        NameLink::LiveDebris(ObjectId(i as u32)),
                    ) <==> debris_pair(orig, i, x2)),
                forall|x2: int, j: int|
                    0 <= x2 < x && 0 <= j < n ==> (#[trigger] all@[x2]@.contains(
                        NameLink::LiveDebrisOf(ObjectId(j as u32)),
                    ) <==> debris_pair(orig, x2, j)),
                forall|x2: int, i: int|
                    0 <= x2 < x && 0 <= i < n ==> (#[trigger] all@[x2]@.contains(
                        NameLink::DestroyedVersion(ObjectId(i as u32)),
                    ) <==> destroyed_pair(orig, i, x2)),
                forall|x2: int, j: int|
                    0 <= x2 < x && 0 <= j < n ==> (#[trigger] all@[x2]@.contains(
                        NameLink::DestroyedVersionOf(ObjectId(j as u32)),
                    ) <==> destroyed_pair(orig, x2, j)),
                forall|x2: int, y: int, lvl: u8|
                    0 <= x2 < x && 0 <= y < n ==> (#[trigger] all@[x2]@.contains(
                        NameLink::DetailLevel(ObjectId(y as u32), lvl),
                    ) <==> detail_pair(orig, x2, y, lvl)),
                forall|x2: int, y: int, lvl: u8|
                    0 <= x2 < x && 0 <= y < n ==> (#[trigger] all@[x2]@.contains(
                        NameLink::DetailLevelOf(ObjectId(y as u32), lvl),
                    ) <==> detail_pair(orig, y, x2, lvl)),
            decreases n - x,
        {
            let links = compute_links_for(&self.sub_objects, x);
            all.push(links);
            x += 1;
        }
        let mut x: usize = 0;
        let mut all = all;
        while x < n
            invariant
                0 <= x <= n,
                n == self.sub_objects@.len() <= u32::MAX,
                all@.len() == n - x,
                *self == (Model { sub_objects: self.sub_objects, ..*old(self) }),
                forall|j: int| 0 <= j < n ==> same_but_links(#[trigger] orig[j], self.sub_objects@[j]),
                forall|x2: int|
                    x <= x2 < n ==> (#[trigger] self.sub_objects@[x2]).name_links@
                        == orig[x2].name_links@,
                forall|x2: int, i: int|
                    0 <= x2 < x && 0 <= i < n ==> (#[trigger] self.sub_objects@[x2].name_links@.contains(
                        NameLink::LiveDebris(ObjectId(i as u32)),
                    ) <==> debris_pair(orig, i, x2)),
                forall|x2: int, j: int|
                    0 <= x2 < x && 0 <= j < n ==> (#[trigger] self.sub_objects@[x2].name_links@.contains(
                        NameLink::LiveDebrisOf(ObjectId(j as u32)),
                    ) <==> debris_pair(orig, x2, j)),
                forall|x2: int, i: int|
                    0 <= x2 < x && 0 <= i < n ==> (#[trigger] self.sub_objects@[x2].name_links@.contains(
                        NameLink::DestroyedVersion(ObjectId(i as u32)),
                    ) <==> destroyed_pair(orig, i, x2)),
                forall|x2: int, j: int|
                    0 <= x2 < x && 0 <= j < n ==> (#[trigger] self.sub_objects@[x2].name_links@.contains(
                        NameLink::DestroyedVersionOf(ObjectId(j as u32)),
                    ) <==> destroyed_pair(orig, x2, j)),
                forall|x2: int, y: int, lvl: u8|
                    0 <= x2 < x && 0 <= y < n ==> (#[trigger] self.sub_objects@[x2].name_links@.contains(
                        NameLink::DetailLevel(ObjectId(y as u32), lvl),
                    ) <==> detail_pair(orig, x2, y, lvl)),
                forall|x2: int, y: int, lvl: u8|
                    0 <= x2 < x && 0 <= y < n ==> (#[trigger] self.sub_objects@[x2].name_links@.contains(
                        NameLink::DetailLevelOf(ObjectId(y as u32), lvl),
                    ) <==> detail_pair(orig, y, x2, lvl)),
                forall|x2: int, i: int|
                    x <= x2 < n && 0 <= i < n ==> (#[trigger] all@[x2 - x]@.contains(
                        NameLink::LiveDebris(ObjectId(i as u32)),
                    ) <==> debris_pair(orig, i, x2)),
                forall|x2: int, j: int|
                    x <= x2 < n && 0 <= j < n ==> (#[trigger] all@[x2 - x]@.contains(
                        NameLink::LiveDebrisOf(ObjectId(j as u32)),
                    ) <==> debris_pair(orig, x2, j)),
                forall|x2: int, i: int|
                    x <= x2 < n && 0 <= i < n ==> (#[trigger] all@[x2 - x]@.contains(
                        NameLink::DestroyedVersion(ObjectId(i as u32)),
                    ) <==> destroyed_pair(orig, i, x2)),
                forall|x2: int, j: int|
                    x <= x2 < n && 0 <= j < n ==> (#[trigger] all@[x2 - x]@.contains(
                        NameLink::DestroyedVersionOf(ObjectId(j as u32)),
                    ) <==> destroyed_pair(orig, x2, j)),
                forall|x2: int, y: int, lvl: u8|
                    x <= x2 < n && 0 <= y < n ==> (#[trigger] all@[x2 - x]@.contains(
                        NameLink::DetailLevel(ObjectId(y as u32), lvl),
                    ) <==> detail_pair(orig, x2, y, lvl)),
                forall|x2: int, y: int, lvl: u8|
                    x <= x2 < n && 0 <= y < n ==> (#[trigger] all@[x2 - x]@.contains(
                        NameLink::DetailLevelOf(ObjectId(y as u32), lvl),
                    ) <==> detail_pair(orig, y, x2, lvl)),
            decreases n - x,
        {
            let ghost old_all = all@;
            let links = all.remove(0);
            let so = self.sub_objects.at_mut(ObjectId(x as u32));
            so.name_links = links;
            proof {
                assert(all@ =~= old_all.skip(1));
                assert forall|k: int| 0 <= k < all@.len() implies all@[k] == old_all[k + 1] by {}
                assert(self.sub_objects@[x as int].name_links == old_all[0]);
                let nl = self.sub_objects@[x as int].name_links@;
                assert forall|i: int| 0 <= i < n implies ((#[trigger] nl.contains(
                    NameLink::LiveDebris(ObjectId(i as u32)),
                )) <==> debris_pair(orig, i, x as int)) by {
                    assert(old_all[x - x]@.contains(NameLink::LiveDebris(ObjectId(i as u32)))
                        <==> debris_pair(orig, i, x as int));
                }
                assert forall|j: int| 0 <= j < n implies ((#[trigger] nl.contains(
                    NameLink::LiveDebrisOf(ObjectId(j as u32)),
                )) <==> debris_pair(orig, x as int, j)) by {
                    assert(old_all[x - x]@.contains(NameLink::LiveDebrisOf(ObjectId(j as u32)))
                        <==> debris_pair(orig, x as int, j));
                }
                assert forall|i: int| 0 <= i < n implies ((#[trigger] nl.contains(
                    NameLink::DestroyedVersion(ObjectId(i as u32)),
                )) <==> destroyed_pair(orig, i, x as int)) by {
                    assert(old_all[x - x]@.contains(
                        NameLink::DestroyedVersion(ObjectId(i as u32)),
                    ) <==> destroyed_pair(orig, i, x as int));
                }
                assert forall|j: int| 0 <= j < n implies ((#[trigger] nl.contains(
                    NameLink::DestroyedVersionOf(ObjectId(j as u32)),
                )) <==> destroyed_pair(orig, x as int, j)) by {
                    assert(old_all[x - x]@.contains(
                        NameLink::DestroyedVersionOf(ObjectId(j as u32)),
                    ) <==> destroyed_pair(orig, x as int, j));
                }
                assert forall|y: int, lvl: u8| 0 <= y < n implies ((#[trigger] nl.contains(
                    NameLink::DetailLevel(ObjectId(y as u32), lvl),
                )) <==> detail_pair(orig, x as int, y, lvl)) by {
                    assert(old_all[x - x]@.contains(
                        NameLink::DetailLevel(ObjectId(y as u32), lvl),
                    ) <==> detail_pair(orig, x as int, y, lvl));
                }
                assert forall|y: int, lvl: u8| 0 <= y < n implies ((#[trigger] nl.contains(
                    NameLink::DetailLevelOf(ObjectId(y as u32), lvl),
                )) <==> detail_pair(orig, y, x as int, lvl)) by {
                    assert(old_all[x - x]@.contains(
                        NameLink::DetailLevelOf(ObjectId(y as u32), lvl),
                    ) <==> detail_pair(orig, y, x as int, lvl));
                }
                assert forall|x2: int, i: int|
                    x + 1 <= x2 < n && 0 <= i < n implies ((#[trigger] all@[x2 - (x + 1)]@.contains(
                    NameLink::LiveDebris(ObjectId(i as u32)),
                )) <==> debris_pair(orig, i, x2)) by {
                    assert(all@[x2 - (x + 1)] == old_all[x2 - x]);
                    assert(old_all[x2 - x]@.contains(NameLink::LiveDebris(ObjectId(i as u32)))
                        <==> debris_pair(orig, i, x2));
                }
                assert forall|x2: int, j: int|
                    x + 1 <= x2 < n && 0 <= j < n implies ((#[trigger] all@[x2 - (x + 1)]@.contains(
                    NameLink::LiveDebrisOf(ObjectId(j as u32)),
                )) <==> debris_pair(orig, x2, j)) by {
                    assert(all@[x2 - (x + 1)] == old_all[x2 - x]);
                    assert(old_all[x2 - x]@.contains(NameLink::LiveDebrisOf(ObjectId(j as u32)))
                        <==> debris_pair(orig, x2, j));
                }
                assert forall|x2: int, i: int|
                    x + 1 <= x2 < n && 0 <= i < n implies ((#[trigger] all@[x2 - (x + 1)]@.contains(
                    NameLink::DestroyedVersion(ObjectId(i as u32)),
                )) <==> destroyed_pair(orig, i, x2)) by {
                    assert(all@[x2 - (x + 1)] == old_all[x2 - x]);
                    assert(old_all[x2 - x]@.contains(
                        NameLink::DestroyedVersion(ObjectId(i as u32)),
                    ) <==> destroyed_pair(orig, i, x2));
                }
                assert forall|x2: int, j: int|
                    x + 1 <= x2 < n && 0 <= j < n implies ((#[trigger] all@[x2 - (x + 1)]@.contains(
                    NameLink::DestroyedVersionOf(ObjectId(j as u32)),
                )) <==> destroyed_pair(orig, x2, j)) by {
                    assert(all@[x2 - (x + 1)] == old_all[x2 - x]);
                    assert(old_all[x2 - x]@.contains(
                        NameLink::DestroyedVersionOf(ObjectId(j as u32)),
                    ) <==> destroyed_pair(orig, x2, j));
                }
                assert forall|x2: int, y: int, lvl: u8|
                    x + 1 <= x2 < n && 0 <= y < n implies ((#[trigger] all@[x2 - (x + 1)]@.contains(
                    NameLink::DetailLevel(ObjectId(y as u32), lvl),
                )) <==> detail_pair(orig, x2, y, lvl)) by {
                    assert(all@[x2 - (x + 1)] == old_all[x2 - x]);
                    assert(old_all[x2 - x]@.contains(
                        NameLink::DetailLevel(ObjectId(y as u32), lvl),
                    ) <==> detail_pair(orig, x2, y, lvl));
                }
                assert forall|x2: int, y: int, lvl: u8|
                    x + 1 <= x2 < n && 0 <= y < n implies ((#[trigger] all@[x2 - (x + 1)]@.contains(
                    NameLink::DetailLevelOf(ObjectId(y as u32), lvl),
                )) <==> detail_pair(orig, y, x2, lvl)) by {
                    assert(all@[x2 - (x + 1)] == old_all[x2 - x]);
                    assert(old_all[x2 - x]@.contains(
                        NameLink::DetailLevelOf(ObjectId(y as u32), lvl),
                    ) <==> detail_pair(orig, y, x2, lvl));
                }
            }
            x += 1;
        }
    }
}

/// The derived children of table slot `p`, scanning the first `n` objects in
/// order: the stored ids of those whose parent names slot `p`.
pub open spec fn children_spec(objs: Seq<SubObject>, p: int, n: int) -> Seq<ObjectId>
    decreases n,
{
    if n <= 0 {
        Seq::empty()
    } else {
        let prev = children_spec(objs, p, n - 1);
        if objs[n - 1].parent == Some(ObjectId(p as u32)) {
            prev.push(objs[n - 1].obj_id)
        } else {
            prev
        }
    }
}

impl Model {
    /// Re-estimates the mass from the header box volume by the empirical
    /// scaling law: the coefficient times the volume raised to two thirds.
    pub fn recalc_mass(&mut self)
        ensures
            final(self).header.mass.0 == crate::scalar::mul_bits(
                crate::scalar::MASS_COEFF_BITS,
                crate::scalar::pow_bits(
                    crate::bbox::volume_spec(old(self).header.bbox),
                    crate::scalar::TWO_THIRDS_BITS,
                ),
            ),
            final(self).header == (ObjHeader { mass: final(self).header.mass, ..old(self).header }),
            *final(self) == (Model { header: final(self).header, ..*old(self) }),
    {
        let vol = self.header.bbox.volume();
        self.header.mass = Scalar(crate::scalar::MASS_COEFF_BITS).fmul(
            vol.fpow(Scalar(crate::scalar::TWO_THIRDS_BITS)),
        );
    }
}

/// The running radius after folding one subobject's vertices, each taken at
/// the object's total offset; a vertex's offset magnitude replaces the
/// running value only when it strictly exceeds it.
pub open spec fn offset_radius_fold(verts: Seq<Vec3d>, off: Vec3d, init: u32) -> u32
    decreases verts.len(),
{
    if verts.len() == 0 {
        init
    } else {
        let prev = offset_radius_fold(verts.drop_last(), off, init);
        let mag = magnitude_spec(vadd_spec(verts.last(), off));
        if lt_bits(prev, mag) {
            mag
        } else {
            prev
        }
    }
}

/// One step of the model radius pass over table slot `i`: objects outside
/// the first detail level's hierarchy are skipped; a looping parent chain is
/// the cycle fault.
pub open spec fn model_radius_step(
    objs: Seq<SubObject>,
    d0: ObjectId,
    i: int,
    acc: u32,
) -> Result<u32, CycleDetected> {
    match is_ancestor_spec(objs, objs[i].obj_id, d0) {
        Err(e) => Err(e),
        Ok(false) => Ok(acc),
        Ok(true) => match total_offset_spec(objs, objs[i].obj_id) {
            Err(e) => Err(e),
            Ok(off) => Ok(offset_radius_fold(objs[i].bsp_data.verts@, off, acc)),
        },
    }
}

/// The model radius fold over the first `k` table slots, from the fixed
/// positive floor.
pub open spec fn model_radius_fold(objs: Seq<SubObject>, d0: ObjectId, k: int) -> Result<
    u32,
    CycleDetected,
>
    decreases k,
{
    if k <= 0 {
        Ok(RADIUS_FLOOR_BITS)
    } else {
        match model_radius_fold(objs, d0, k - 1) {
            Err(e) => Err(e),
            Ok(acc) => model_radius_step(objs, d0, k - 1, acc),
        }
    }
}

/// The recomputed header radius: the floor, grown over every vertex of every
/// subobject reachable from the first detail level (each at its total
/// offset), then over the shield vertices when a shield exists.
pub open spec fn model_radius_spec(m: Model) -> Result<u32, CycleDetected> {
    let base = if m.header.detail_levels@.len() == 0 {
        Ok(RADIUS_FLOOR_BITS)
    } else {
        model_radius_fold(m.sub_objects@, m.header.detail_levels@[0], m.sub_objects@.len() as int)
    };
    match base {
        Err(e) => Err(e),
        Ok(b) => Ok(
            match m.shield_data {
                Some(sd) => radius_fold(sd.verts@, b),
                None => b,
            },
        ),
    }
}

/// Both corners of a running box grown once: the minimum against a candidate
/// low corner, the maximum against a candidate high corner (NaN candidates
/// never replace).
pub open spec fn bbox_grow_corners(b: BoundingBox, lo: Vec3d, hi: Vec3d) -> BoundingBox {
    BoundingBox {
        min: Vec3d {
            x: Scalar(fmin_bits(b.min.x.0, lo.x.0)),
            y: Scalar(fmin_bits(b.min.y.0, lo.y.0)),
            z: Scalar(fmin_bits(b.min.z.0, lo.z.0)),
        },
        max: Vec3d {
            x: Scalar(fmax_bits(b.max.x.0, hi.x.0)),
            y: Scalar(fmax_bits(b.max.y.0, hi.y.0)),
            z: Scalar(fmax_bits(b.max.z.0, hi.z.0)),
        },
    }
}

/// One step of the model box pass over table slot `i`: the object's box
/// corners, taken at its total offset, grow the running box; objects outside
/// the first detail level's hierarchy are skipped.
pub open spec fn model_bbox_step(
    objs: Seq<SubObject>,
    d0: ObjectId,
    i: int,
    b: BoundingBox,
) -> Result<BoundingBox, CycleDetected> {
    match is_ancestor_spec(objs, objs[i].obj_id, d0) {
        Err(e) => Err(e),
        Ok(false) => Ok(b),
        Ok(true) => match total_offset_spec(objs, objs[i].obj_id) {
            Err(e) => Err(e),
            Ok(off) => Ok(
                bbox_grow_corners(
                    b,
                    vadd_spec(off, objs[i].bbox.min),
                    vadd_spec(off, objs[i].bbox.max),
                ),
            ),
        },
    }
}

/// The symmetric epsilon box the header box recompute starts from.
pub open spec fn eps_bbox() -> BoundingBox {
    BoundingBox {
        min: Vec3d {
            x: Scalar(NEG_RADIUS_FLOOR_BITS),
            y: Scalar(NEG_RADIUS_FLOOR_BITS),
            z: Scalar(NEG_RADIUS_FLOOR_BITS),
        },
        max: Vec3d {
            x: Scalar(RADIUS_FLOOR_BITS),
            y: Scalar(RADIUS_FLOOR_BITS),
            z: Scalar(RADIUS_FLOOR_BITS),
        },
    }
}

/// The model box fold over the first `k` table slots, from the epsilon box.
pub open spec fn model_bbox_fold(objs: Seq<SubObject>, d0: ObjectId, k: int) -> Result<
    BoundingBox,
    CycleDetected,
>
    decreases k,
{
    if k <= 0 {
        Ok(eps_bbox())
    } else {
        match model_bbox_fold(objs, d0, k - 1) {
            Err(e) => Err(e),
            Ok(b) => model_bbox_step(objs, d0, k - 1, b),
        }
    }
}

/// The recomputed header box: the epsilon box, grown over the offset box
/// corners of every subobject reachable from the first detail level.
pub open spec fn model_bbox_spec(m: Model) -> Result<BoundingBox, CycleDetected> {
    if m.header.detail_levels@.len() == 0 {
        Ok(eps_bbox())
    } else {
        model_bbox_fold(m.sub_objects@, m.header.detail_levels@[0], m.sub_objects@.len() as int)
    }
}

/// Every stored subobject id indexes the table.
pub open spec fn stored_ids_in_range(objs: Seq<SubObject>) -> bool {
    forall|i: int| 0 <= i < objs.len() ==> (#[trigger] objs[i]).obj_id.0 < objs.len()
}

/// Once one step of the radius fold fails, every longer fold fails.
proof fn lemma_radius_fold_err(objs: Seq<SubObject>, d0: ObjectId, i: int, k: int)
    requires
        0 <= i < k,
        model_radius_fold(objs, d0, i) matches Ok(acc) && model_radius_step(objs, d0, i, acc)
            is Err,
    ensures
        model_radius_fold(objs, d0, k) is Err,
    decreases k,
{
    if k > i + 1 {
        lemma_radius_fold_err(objs, d0, i, k - 1);
    }
}

/// Once one step of the box fold fails, every longer fold fails.
proof fn lemma_bbox_fold_err(objs: Seq<SubObject>, d0: ObjectId, i: int, k: int)
    requires
        0 <= i < k,
        model_bbox_fold(objs, d0, i) matches Ok(b) && model_bbox_step(objs, d0, i, b) is Err,
    ensures
        model_bbox_fold(objs, d0, k) is Err,
    decreases k,
{
    if k > i + 1 {
        lemma_bbox_fold_err(objs, d0, i, k - 1);
    }
}

impl Model {
    /// Recomputes the header radius from scratch: the fixed floor, grown over
    /// every vertex (at its object's total offset) of every subobject
    /// reachable from the first detail level, then over the shield vertices.
    /// A looping parent chain is the fatal cycle fault, and nothing changes.
    pub fn recalc_radius(&mut self) -> (r: Result<(), CycleDetected>)
        requires
            old(self).sub_objects@.len() < usize::MAX,
            old(self).sub_objects@.len() <= u32::MAX,
            stored_ids_in_range(old(self).sub_objects@),
        ensures
            r is Ok ==> *final(self) == (Model { header: final(self).header, ..*old(self) })
                && final(self).header == (ObjHeader {
                max_radius: final(self).header.max_radius,
                ..old(self).header
            }) && (model_radius_spec(*old(self)) matches Ok(b) && final(self).header.max_radius.0
                == b),
            r is Err ==> *final(self) == *old(self) && model_radius_spec(*old(self)) is Err,
    {
        let ghost objs = self.sub_objects@;
        let mut radius = Scalar(RADIUS_FLOOR_BITS);
        if self.header.detail_levels.len() > 0 {
            let detail0 = self.header.detail_levels[0];
            let n = self.sub_objects.len();
            let mut i: usize = 0;
            while i < n
                invariant
                    0 <= i <= n,
                    n == objs.len() < usize::MAX,
                    n <= u32::MAX,
                    self.sub_objects@ == objs,
                    *self == *old(self),
                    stored_ids_in_range(objs),
                    self.header.detail_levels@.len() > 0,
                    detail0 == self.header.detail_levels@[0],
                    model_radius_fold(objs, detail0, i as int) == Ok::<u32, CycleDetected>(
                        radius.0,
                    ),
                decreases n - i,
            {
                let so_id = self.sub_objects.at(ObjectId(i as u32)).obj_id;
                let anc = match self.is_obj_id_ancestor(so_id, detail0) {
                    Ok(b) => b,
                    Err(e) => {
                        proof {
                            lemma_radius_fold_err(objs, detail0, i as int, n as int);
                        }
                        return Err(e);
                    },
                };
                if anc {
                    let off = match self.get_total_subobj_offset(so_id) {
                        Ok(o) => o,
                        Err(e) => {
                            proof {
                                lemma_radius_fold_err(objs, detail0, i as int, n as int);
                            }
                            return Err(e);
                        },
                    };
                    let ghost acc0 = radius.0;
                    let so = self.sub_objects.at(ObjectId(i as u32));
                    let nv = so.bsp_data.verts.len();
                    let mut t: usize = 0;
                    while t < nv
                        invariant
                            0 <= t <= nv,
                            i < objs.len(),
                            objs.len() <= u32::MAX,
                            self.sub_objects@ == objs,
                            nv == objs[i as int].bsp_data.verts@.len(),
                            radius.0 == offset_radius_fold(
                                objs[i as int].bsp_data.verts@.take(t as int),
                                off,
                                acc0,
                            ),
                        decreases nv - t,
                    {
                        proof {
                            assert(objs[i as int].bsp_data.verts@.take(t + 1 as int).drop_last()
                                =~= objs[i as int].bsp_data.verts@.take(t as int));
                        }
                        let v = self.sub_objects.at(ObjectId(i as u32)).bsp_data.verts[t];
                        let mag = v.vadd(off).magnitude();
                        if radius.lt(mag) {
                            radius = mag;
                        }
                        t += 1;
                    }
                    proof {
                        assert(objs[i as int].bsp_data.verts@.take(nv as int) =~= objs[
                            i as int
                        ].bsp_data.verts@);
                    }
                }
                proof {
                    assert(model_radius_fold(objs, detail0, i + 1 as int) == model_radius_step(
                        objs,
                        detail0,
                        i as int,
                        model_radius_fold(objs, detail0, i as int)->Ok_0,
                    ));
                }
                i += 1;
            }
        }
        // the shield vertices count toward the radius as well
        match &self.shield_data {
            Some(sd) => {
                let ghost base = radius.0;
                let nv = sd.verts.len();
                let mut t: usize = 0;
                while t < nv
                    invariant
                        0 <= t <= nv,
                        nv == sd.verts@.len(),
                        radius.0 == radius_fold(sd.verts@.take(t as int), base),
                    decreases nv - t,
                {
                    proof {
                        assert(sd.verts@.take(t + 1 as int).drop_last() =~= sd.verts@.take(
                            t as int,
                        ));
                    }
                    let mag = sd.verts[t].magnitude();
                    if radius.lt(mag) {
                        radius = mag;
                    }
                    t += 1;
                }
                proof {
                    assert(sd.verts@.take(nv as int) =~= sd.verts@);
                }
            },
            None => {},
        }
        self.header.max_radius = radius;
        Ok(())
    }

    /// Recomputes the header bounding box from scratch: the epsilon box,
    /// grown over the offset box corners of every subobject reachable from
    /// the first detail level. A looping parent chain is the fatal cycle
    /// fault, and nothing changes.
    pub fn recalc_bbox(&mut self) -> (r: Result<(), CycleDetected>)
        requires
            old(self).sub_objects@.len() < usize::MAX,
            old(self).sub_objects@.len() <= u32::MAX,
            stored_ids_in_range(old(self).sub_objects@),
        ensures
            r is Ok ==> *final(self) == (Model { header: final(self).header, ..*old(self) })
                && final(self).header == (ObjHeader {
                bbox: final(self).header.bbox,
                ..old(self).header
            }) && (model_bbox_spec(*old(self)) matches Ok(b) && final(self).header.bbox == b),
            r is Err ==> *final(self) == *old(self) && model_bbox_spec(*old(self)) is Err,
    {
        let ghost objs = self.sub_objects@;
        let mut bbox = BoundingBox {
            min: Vec3d {
                x: Scalar(NEG_RADIUS_FLOOR_BITS),
                y: Scalar(NEG_RADIUS_FLOOR_BITS),
                z: Scalar(NEG_RADIUS_FLOOR_BITS),
            },
            max: Vec3d {
                x: Scalar(RADIUS_FLOOR_BITS),
                y: Scalar(RADIUS_FLOOR_BITS),
                z: Scalar(RADIUS_FLOOR_BITS),
            },
        };
        if self.header.detail_levels.len() > 0 {
            let detail0 = self.header.detail_levels[0];
            let n = self.sub_objects.len();
            let mut i: usize = 0;
            while i < n
                invariant
                    0 <= i <= n,
                    n == objs.len() < usize::MAX,
                    n <= u32::MAX,
                    self.sub_objects@ == objs,
                    *self == *old(self),
                    stored_ids_in_range(objs),
                    self.header.detail_levels@.len() > 0,
                    detail0 == self.header.detail_levels@[0],
                    model_bbox_fold(objs, detail0, i as int) == Ok::<BoundingBox, CycleDetected>(
                        bbox,
                    ),
                decreases n - i,
            {
                let so_id = self.sub_objects.at(ObjectId(i as u32)).obj_id;
                let anc = match self.is_obj_id_ancestor(so_id, detail0) {
                    Ok(b) => b,
                    Err(e) => {
                        proof {
                            lemma_bbox_fold_err(objs, detail0, i as int, n as int);
                        }
                        return Err(e);
                    },
                };
                if anc {
                    let off = match self.get_total_subobj_offset(so_id) {
                        Ok(o) => o,
                        Err(e) => {
                            proof {
                                lemma_bbox_fold_err(objs, detail0, i as int, n as int);
                            }
                            return Err(e);
                        },
                    };
                    let so = self.sub_objects.at(ObjectId(i as u32));
                    let lo = off.vadd(so.bbox.min);
                    let hi = off.vadd(so.bbox.max);
                    bbox = BoundingBox {
                        min: Vec3d {
                            x: bbox.min.x.fmin(lo.x),
                            y: bbox.min.y.fmin(lo.y),
                            z: bbox.min.z.fmin(lo.z),
                        },
                        max: Vec3d {
                            x: bbox.max.x.fmax(hi.x),
                            y: bbox.max.y.fmax(hi.y),
                            z: bbox.max.z.fmax(hi.z),
                        },
                    };
                }
                proof {
                    assert(model_bbox_fold(objs, detail0, i + 1 as int) == model_bbox_step(
                        objs,
                        detail0,
                        i as int,
                        model_bbox_fold(objs, detail0, i as int)->Ok_0,
                    ));
                }
                i += 1;
            }
        }
        self.header.bbox = bbox;
        Ok(())
    }

    /// Applies a transform to the whole model: every top-level subobject and
    /// its subtree through the per-subobject pipeline, then the header box
    /// and radius recomputed from the moved geometry (the shield still in
    /// place), then every auxiliary entity and finally the shield itself
    /// through the matrix or its derived forms. Each subobject is
    /// transformed at most once, even if the derived children arrays are
    /// corrupt. Fails, touching nothing, when the linear part is singular.
    #[verifier::rlimit(100)]
    pub fn apply_transform(&mut self, matrix: &Mat4) -> (r: Result<(), SingularTransform>)
        requires
            old(self).sub_objects@.len() <= u32::MAX,
            old(self).sub_objects@.len() < usize::MAX,
            geometry_ok(old(self).sub_objects@),
            children_coherent(old(self).sub_objects@),
            stored_ids_in_range(old(self).sub_objects@),
            model_radius_spec(*old(self)) is Ok,
            model_bbox_spec(*old(self)) is Ok,
            (match old(self).shield_data {
                Some(sd) => (sd.collision_tree matches Some(t)
                    ==> crate::shield::sh_node_ids_ok(t, sd.polygons@.len())) && (forall|i: int|
                    0 <= i < sd.polygons@.len() ==> crate::shield::sp_ids_ok(
                        #[trigger] sd.polygons@[i],
                        sd.verts@.len(),
                    )),
                None => true,
            }),
        ensures
            (match r {
                Ok(()) => ({
                    let objs = old(self).sub_objects@;
                    let mid = final(self).sub_objects@;
                    let nt = Mat4 { linear: matrix.linear, translation: zero_vec() };
                    let m1 = Model { sub_objects: final(self).sub_objects, ..*old(self) };
                    &&& mid.len() == objs.len()
                    &&& (forall|j: int|
                        0 <= j < objs.len() && (#[trigger] objs[j]).parent is None
                            ==> subobj_xformed(objs[j], mid[j], *matrix, true))
                    &&& (forall|j: int|
                        0 <= j < objs.len() && (#[trigger] objs[j]).parent is Some && from_root(
                            objs,
                            j,
                        ) ==> subobj_xformed(objs[j], mid[j], nt, true))
                    &&& (forall|j: int|
                        0 <= j < objs.len() && (#[trigger] objs[j]).parent is Some && !from_root(
                            objs,
                            j,
                        ) ==> mid[j] == objs[j])
                    &&& (forall|j: int|
                        0 <= j < objs.len() ==> structural_preserved(
                            #[trigger] objs[j],
                            mid[j],
                        ))
                    &&& (model_bbox_spec(m1) matches Ok(b) && final(self).header.bbox == b)
                    &&& (model_radius_spec(m1) matches Ok(rad) && final(self).header.max_radius.0
                        == rad)
                    &&& final(self).header == (ObjHeader {
                        bbox: final(self).header.bbox,
                        max_radius: final(self).header.max_radius,
                        ..old(self).header
                    })
                    &&& final(self).paths@.len() == old(self).paths@.len()
                    &&& (forall|i: int|
                        0 <= i < old(self).paths@.len() ==> path_xformed(
                            *matrix,
                            old(self).paths@[i],
                            #[trigger] final(self).paths@[i],
                        ))
                    &&& final(self).special_points@.len() == old(self).special_points@.len()
                    &&& (forall|i: int|
                        0 <= i < old(self).special_points@.len() ==> special_xformed(
                            *matrix,
                            old(self).special_points@[i],
                            #[trigger] final(self).special_points@[i],
                        ))
                    &&& final(self).eye_points@.len() == old(self).eye_points@.len()
                    &&& (forall|i: int|
                        0 <= i < old(self).eye_points@.len() ==> eye_xformed(
                            *matrix,
                            old(self).eye_points@[i],
                            #[trigger] final(self).eye_points@[i],
                        ))
                    &&& weps_xformed(*matrix, old(self).primary_weps@, final(self).primary_weps@)
                    &&& weps_xformed(
                        *matrix,
                        old(self).secondary_weps@,
                        final(self).secondary_weps@,
                    )
                    &&& final(self).thruster_banks@.len() == old(self).thruster_banks@.len()
                    &&& (forall|i: int|
                        0 <= i < old(self).thruster_banks@.len() ==> thruster_bank_xformed(
                            *matrix,
                            old(self).thruster_banks@[i],
                            #[trigger] final(self).thruster_banks@[i],
                        ))
                    &&& final(self).glow_banks@.len() == old(self).glow_banks@.len()
                    &&& (forall|i: int|
                        0 <= i < old(self).glow_banks@.len() ==> glow_bank_xformed(
                            *matrix,
                            old(self).glow_banks@[i],
                            #[trigger] final(self).glow_banks@[i],
                        ))
                    &&& final(self).docking_bays@.len() == old(self).docking_bays@.len()
                    &&& (forall|i: int|
                        0 <= i < old(self).docking_bays@.len() ==> dock_xformed(
                            *matrix,
                            old(self).docking_bays@[i],
                            #[trigger] final(self).docking_bays@[i],
                        ))
                    &&& final(self).turrets@.len() == old(self).turrets@.len()
                    &&& (forall|i: int|
                        0 <= i < old(self).turrets@.len() ==> turret_xformed(
                            *matrix,
                            old(self).turrets@[i],
                            #[trigger] final(self).turrets@[i],
                        ))
                    &&& final(self).insignias@.len() == old(self).insignias@.len()
                    &&& (forall|i: int|
                        0 <= i < old(self).insignias@.len() ==> insignia_xformed(
                            *matrix,
                            old(self).insignias@[i],
                            #[trigger] final(self).insignias@[i],
                        ))
                    &&& (match old(self).shield_data {
                        Some(sd) => final(self).shield_data matches Some(sd2)
                            && crate::shield::shield_xformed(sd, sd2, *matrix),
                        None => final(self).shield_data is None,
                    })
                    &&& final(self).version == old(self).version
                    &&& final(self).textures == old(self).textures
                    &&& final(self).visual_center == old(self).visual_center
                    &&& final(self).comments == old(self).comments
                    &&& final(self).untextured_idx == old(self).untextured_idx
                    &&& final(self).warnings == old(self).warnings
                    &&& final(self).errors == old(self).errors
                }),
                Err(_) => *final(self) == *old(self) && crate::vec3d::mat3_inverse_bits(
                    crate::vec3d::mat3_bits_spec(matrix.linear),
                ) is None,
            }),
    {
        let ghost orig = self.sub_objects@;
        let ghost nt_spec = Mat4 { linear: matrix.linear, translation: zero_vec() };
        // refuse a singular linear part before touching anything
        match matrix.linear.inverse_transpose() {
            Some(_) => {},
            None => {
                return Err(SingularTransform);
            },
        }
        let n = self.sub_objects.len();
        let nt = matrix.rotation_and_scaling_only();
        let mut seen: Vec<bool> = Vec::new();
        let mut si: usize = 0;
        while si < n
            invariant
                0 <= si <= n,
                seen@.len() == si,
                forall|j: int| 0 <= j < si ==> !seen@[j],
            decreases n - si,
        {
            seen.push(false);
            si += 1;
        }
        let mut stack: Vec<ObjectId> = Vec::new();
        // every top-level subobject through the full matrix, its children
        // collected for the walk below
        let mut i: usize = 0;
        while i < n
            invariant
                0 <= i <= n,
                n == orig.len() <= u32::MAX,
                self.sub_objects@.len() == n,
                seen@.len() == n,
                geometry_ok(orig),
                children_coherent(orig),
                *self == (Model { sub_objects: self.sub_objects, ..*old(self) }),
                forall|j: int| 0 <= j < n ==> (seen@[j] <==> (j < i && orig[j].parent is None)),
                forall|j: int|
                    0 <= j < n && !seen@[j] ==> (#[trigger] self.sub_objects@[j]) == orig[j],
                forall|j: int|
                    0 <= j < n && seen@[j] ==> subobj_xformed(
                        orig[j],
                        #[trigger] self.sub_objects@[j],
                        *matrix,
                        true,
                    ),
                forall|j: int|
                    0 <= j < n ==> (#[trigger] self.sub_objects@[j]).children@ == orig[j].children@,
                forall|j: int| 0 <= j < stack@.len() ==> (#[trigger] stack@[j]).0 < n && orig[(
                stack@[j]).0 as int].parent is Some && from_root(orig, (stack@[j]).0 as int),
                forall|x: int, k: int|
                    0 <= x < n && seen@[x] && 0 <= k < orig[x].children@.len() ==> seen@[(
                    #[trigger] orig[x].children@[k]).0 as int] || stack@.contains(
                        orig[x].children@[k],
                    ),
                crate::vec3d::mat3_inverse_bits(
                    crate::vec3d::mat3_bits_spec(matrix.linear),
                ) is Some,
                nt == nt_spec,
                nt_spec == (Mat4 { linear: matrix.linear, translation: zero_vec() }),
            decreases n - i,
        {
            let is_root = self.sub_objects.at(ObjectId(i as u32)).parent.is_none();
            if is_root {
                match transform_subobject(
                    self.sub_objects.at_mut(ObjectId(i as u32)),
                    matrix,
                    true,
                ) {
                    Ok(()) => {},
                    Err(_) => {
                        proof {
                            assert(false);
                        }
                    },
                }
                seen.set(i, true);
                proof {
                    assert(child_reach(orig, i as int, i as int, 0nat));
                    assert(descends(orig, ObjectId(i as u32), i as int));
                    assert(from_root(orig, i as int));
                }
                let kid_count = self.sub_objects.at(ObjectId(i as u32)).children.len();
                let ghost objs_snap = self.sub_objects@;
                let ghost seen_snap = seen@;
                let mut ci: usize = 0;
                while ci < kid_count
                    invariant
                        0 <= ci <= kid_count,
                        i < n,
                        n == orig.len() <= u32::MAX,
                        self.sub_objects@ == objs_snap,
                        seen@ == seen_snap,
                        seen_snap.len() == n,
                        objs_snap.len() == n,
                        kid_count == objs_snap[i as int].children@.len(),
                        objs_snap[i as int].children@ == orig[i as int].children@,
                        children_coherent(orig),
                        from_root(orig, i as int),
                        descends(orig, ObjectId(i as u32), i as int),
                        orig[i as int].parent is None,
                        forall|j: int|
                            0 <= j < stack@.len() ==> (#[trigger] stack@[j]).0 < n && orig[(
                            stack@[j]).0 as int].parent is Some && from_root(
                                orig,
                                (stack@[j]).0 as int,
                            ),
                        forall|x: int, k: int|
                            0 <= x < n && seen_snap[x] && 0 <= k < orig[x].children@.len() && !(x
                                == i as int && ci <= k) ==> seen_snap[(
                            #[trigger] orig[x].children@[k]).0 as int] || stack@.contains(
                                orig[x].children@[k],
                            ),
                    decreases kid_count - ci,
                {
                    let c = self.sub_objects.at(ObjectId(i as u32)).children[ci];
                    proof {
                        assert(orig[i as int].children@[ci as int] == c);
                        lemma_descends_child(orig, ObjectId(i as u32), i as int, ci as int);
                    }
                    let ghost prepush = stack@;
                    stack.push(c);
                    proof {
                        assert forall|x: int, k: int|
                            0 <= x < n && seen_snap[x] && 0 <= k < orig[x].children@.len() && !(x
                                == i as int && ci + 1 <= k) implies seen_snap[(
                        #[trigger] orig[x].children@[k]).0 as int] || stack@.contains(
                            orig[x].children@[k],
                        ) by {
                            let e = orig[x].children@[k];
                            if x == i as int && k == ci {
                                assert(stack@[stack@.len() - 1] == c);
                                assert(stack@.contains(e));
                            } else if !seen_snap[e.0 as int] {
                                assert(prepush.contains(e));
                                let w = choose|w: int|
                                    0 <= w < prepush.len() && prepush[w] == e;
                                assert(stack@[w] == e);
                            }
                        }
                    }
                    ci += 1;
                }
            }
            i += 1;
        }
        // the walk: every object reachable from a root through the children
        // arrays, each at most once, through the translation-free derivative
        while stack.len() > 0
            invariant
                n == orig.len() <= u32::MAX,
                self.sub_objects@.len() == n,
                seen@.len() == n,
                geometry_ok(orig),
                children_coherent(orig),
                *self == (Model { sub_objects: self.sub_objects, ..*old(self) }),
                forall|j: int| 0 <= j < n && orig[j].parent is None ==> seen@[j],
                forall|j: int|
                    0 <= j < n && !seen@[j] ==> (#[trigger] self.sub_objects@[j]) == orig[j],
                forall|j: int|
                    0 <= j < n && seen@[j] && (#[trigger] orig[j]).parent is None
                        ==> subobj_xformed(orig[j], self.sub_objects@[j], *matrix, true),
                forall|j: int|
                    0 <= j < n && seen@[j] && (#[trigger] orig[j]).parent is Some
                        ==> subobj_xformed(orig[j], self.sub_objects@[j], nt_spec, true)
                        && from_root(orig, j),
                forall|j: int|
                    0 <= j < n ==> (#[trigger] self.sub_objects@[j]).children@ == orig[j].children@,
                forall|j: int| 0 <= j < stack@.len() ==> (#[trigger] stack@[j]).0 < n && orig[(
                stack@[j]).0 as int].parent is Some && from_root(orig, (stack@[j]).0 as int),
                forall|x: int, k: int|
                    0 <= x < n && seen@[x] && 0 <= k < orig[x].children@.len() ==> seen@[(
                    #[trigger] orig[x].children@[k]).0 as int] || stack@.contains(
                        orig[x].children@[k],
                    ),
                crate::vec3d::mat3_inverse_bits(
                    crate::vec3d::mat3_bits_spec(matrix.linear),
                ) is Some,
                nt == nt_spec,
                nt_spec == (Mat4 { linear: matrix.linear, translation: zero_vec() }),
            decreases count_unseen(seen@), stack@.len(),
        {
            proof {
                lemma_count_unseen_nonneg(seen@);
            }
            let ghost prestack = stack@;
            let id2 = stack.pop().unwrap();
            proof {
                assert(id2 == prestack.last());
                assert(stack@ == prestack.drop_last());
            }
            if !seen[id2.0 as usize] {
                let ghost seen_before = seen@;
                seen.set(id2.0 as usize, true);
                proof {
                    lemma_count_unseen_set(seen_before, id2.0 as int);
                    lemma_closure_after_pop(orig, seen@, prestack, stack@, id2);
                }
                match transform_subobject(self.sub_objects.at_mut(id2), &nt, true) {
                    Ok(()) => {},
                    Err(_) => {
                        // the same linear part inverted up front, so this
                        // cannot happen
                        proof {
                            assert(false);
                        }
                    },
                }
                let kid_count = self.sub_objects.at(id2).children.len();
                let ghost objs_snap = self.sub_objects@;
                let ghost seen_snap = seen@;
                let mut ci: usize = 0;
                while ci < kid_count
                    invariant
                        0 <= ci <= kid_count,
                        id2.0 < n,
                        n == orig.len() <= u32::MAX,
                        self.sub_objects@ == objs_snap,
                        seen@ == seen_snap,
                        seen_snap.len() == n,
                        objs_snap.len() == n,
                        kid_count == objs_snap[id2.0 as int].children@.len(),
                        objs_snap[id2.0 as int].children@ == orig[id2.0 as int].children@,
                        children_coherent(orig),
                        from_root(orig, id2.0 as int),
                        forall|j: int|
                            0 <= j < stack@.len() ==> (#[trigger] stack@[j]).0 < n && orig[(
                            stack@[j]).0 as int].parent is Some && from_root(
                                orig,
                                (stack@[j]).0 as int,
                            ),
                        forall|x: int, k: int|
                            0 <= x < n && seen_snap[x] && 0 <= k < orig[x].children@.len() && !(x
                                == id2.0 as int && ci <= k) ==> seen_snap[(
                            #[trigger] orig[x].children@[k]).0 as int] || stack@.contains(
                                orig[x].children@[k],
                            ),
                    decreases kid_count - ci,
                {
                    let c = self.sub_objects.at(id2).children[ci];
                    proof {
                        assert(orig[id2.0 as int].children@[ci as int] == c);
                        let rt = choose|rt: int|
                            0 <= rt < orig.len() && (#[trigger] orig[rt]).parent is None
                                && descends(orig, ObjectId(rt as u32), id2.0 as int);
                        lemma_descends_child(
                            orig,
                            ObjectId(rt as u32),
                            id2.0 as int,
                            ci as int,
                        );
                        assert(from_root(orig, c.0 as int));
                    }
                    let ghost prepush = stack@;
                    stack.push(c);
                    proof {
                        assert forall|x: int, k: int|
                            0 <= x < n && seen_snap[x] && 0 <= k < orig[x].children@.len() && !(x
                                == id2.0 as int && ci + 1 <= k) implies seen_snap[(
                        #[trigger] orig[x].children@[k]).0 as int] || stack@.contains(
                            orig[x].children@[k],
                        ) by {
                            let e = orig[x].children@[k];
                            if x == id2.0 as int && k == ci {
                                assert(stack@[stack@.len() - 1] == c);
                                assert(stack@.contains(e));
                            } else if !seen_snap[e.0 as int] {
                                assert(prepush.contains(e));
                                let w = choose|w: int|
                                    0 <= w < prepush.len() && prepush[w] == e;
                                assert(stack@[w] == e);
                            }
                        }
                    }
                    ci += 1;
                }
            } else {
                proof {
                    lemma_closure_after_pop_all(orig, seen@, prestack, stack@, id2);
                }
            }
            proof {
                lemma_count_unseen_nonneg(seen@);
            }
        }
        let ghost mid = self.sub_objects@;
        proof {
            // the flags are closed, so every slot a root reaches was visited
            assert forall|j: int|
                0 <= j < n && (#[trigger] orig[j]).parent is Some && from_root(orig, j)
                implies subobj_xformed(orig[j], mid[j], nt_spec, true) by {
                let rt = choose|rt: int|
                    0 <= rt < orig.len() && (#[trigger] orig[rt]).parent is None && descends(
                        orig,
                        ObjectId(rt as u32),
                        j,
                    );
                let fuel = choose|fuel: nat| child_reach(orig, rt, j, fuel);
                lemma_closed_reach(orig, seen@, rt, j, fuel);
            }
            assert forall|j: int|
                0 <= j < n && (#[trigger] orig[j]).parent is Some && !from_root(orig, j)
                implies mid[j] == orig[j] by {
                assert(!seen@[j]);
            }
            assert forall|j: int| 0 <= j < n implies structural_preserved(
                #[trigger] orig[j],
                mid[j],
            ) by {
                if !seen@[j] {
                    assert(mid[j] == orig[j]);
                }
            }
        }
        // the header box and radius, from the moved geometry (the shield
        // still in place)
        let ghost m1 = Model { sub_objects: self.sub_objects, ..*old(self) };
        proof {
            assert(*self == m1);
            assert forall|j: int| 0 <= j < n implies (#[trigger] mid[j]).obj_id == orig[j].obj_id
                && mid[j].parent == orig[j].parent by {}
            if old(self).header.detail_levels@.len() > 0 {
                let d0 = old(self).header.detail_levels@[0];
                lemma_bbox_fold_ok_parents(orig, mid, d0, n as int);
                lemma_radius_fold_ok_parents(orig, mid, d0, n as int);
            }
            assert(model_bbox_spec(m1) is Ok);
            assert(model_radius_spec(m1) is Ok);
        }
        match self.recalc_bbox() {
            Ok(()) => {},
            Err(_) => {
                proof {
                    assert(false);
                }
            },
        }
        let ghost m2 = *self;
        proof {
            assert(model_radius_spec(m2) == model_radius_spec(m1));
        }
        match self.recalc_radius() {
            Ok(()) => {},
            Err(_) => {
                proof {
                    assert(false);
                }
            },
        }
        // the auxiliary entities
        let mut paths: Vec<Path> = Vec::new();
        core::mem::swap(&mut self.paths, &mut paths);
        let paths = xform_paths(paths, matrix);
        self.paths = paths;
        let mut specials: Vec<SpecialPoint> = Vec::new();
        core::mem::swap(&mut self.special_points, &mut specials);
        let specials = xform_specials(specials, matrix);
        self.special_points = specials;
        let mut pweps: Vec<Vec<WeaponHardpoint>> = Vec::new();
        core::mem::swap(&mut self.primary_weps, &mut pweps);
        let pweps = xform_wep_banks(pweps, matrix);
        self.primary_weps = pweps;
        let mut sweps: Vec<Vec<WeaponHardpoint>> = Vec::new();
        core::mem::swap(&mut self.secondary_weps, &mut sweps);
        let sweps = xform_wep_banks(sweps, matrix);
        self.secondary_weps = sweps;
        let mut tbanks: Vec<ThrusterBank> = Vec::new();
        core::mem::swap(&mut self.thruster_banks, &mut tbanks);
        let tbanks = xform_thruster_banks(tbanks, matrix);
        self.thruster_banks = tbanks;
        let mut gbanks: Vec<GlowPointBank> = Vec::new();
        core::mem::swap(&mut self.glow_banks, &mut gbanks);
        let gbanks = xform_glow_banks(gbanks, matrix);
        self.glow_banks = gbanks;
        let mut docks: Vec<Dock> = Vec::new();
        core::mem::swap(&mut self.docking_bays, &mut docks);
        let docks = xform_docks(docks, matrix);
        self.docking_bays = docks;
        let mut eyes: Vec<EyePoint> = Vec::new();
        core::mem::swap(&mut self.eye_points, &mut eyes);
        let eyes = xform_eyes(eyes, matrix);
        self.eye_points = eyes;
        let mut insignias: Vec<Insignia> = Vec::new();
        core::mem::swap(&mut self.insignias, &mut insignias);
        let insignias = xform_insignias(insignias, matrix);
        self.insignias = insignias;
        let mut turrets: Vec<Turret> = Vec::new();
        core::mem::swap(&mut self.turrets, &mut turrets);
        let turrets = xform_turrets(turrets, matrix);
        self.turrets = turrets;
        // the shield last, as the original pipeline orders it
        match &mut self.shield_data {
            Some(sd) => {
                sd.apply_transform(matrix);
            },
            None => {},
        }
        Ok(())
    }

    /// Moves a subobject's local origin without moving its geometry in world
    /// space: the children's offsets absorb the inverse delta, the box
    /// corners shift, and the whole subtree is re-run through a
    /// zero-rotation, delta-translation transform with the offset anchored;
    /// the radius is then refolded. Fails only if the identity linear part
    /// fails to invert, leaving the pre-transform table in place.
    pub fn subobj_move_only_offset(&mut self, id: ObjectId, new_offset: Vec3d) -> (r: Result<
        (),
        SingularTransform,
    >)
        requires
            id.0 < old(self).sub_objects@.len(),
            old(self).sub_objects@.len() <= u32::MAX,
            geometry_ok(old(self).sub_objects@),
            children_coherent(old(self).sub_objects@),
        ensures
            *final(self) == (Model { sub_objects: final(self).sub_objects, ..*old(self) }),
            final(self).sub_objects@.len() == old(self).sub_objects@.len(),
            (match r {
                Ok(()) => moved_only_offset_rel(
                    old(self).sub_objects@,
                    final(self).sub_objects@,
                    id,
                    new_offset,
                ),
                Err(_) => final(self).sub_objects@ == moved_offset_mid(
                    old(self).sub_objects@,
                    id,
                    new_offset,
                ) && crate::vec3d::mat3_inverse_bits(
                    crate::vec3d::mat3_bits_spec(crate::vec3d::mat3_identity()),
                ) is None,
            }),
    {
        let ghost orig = self.sub_objects@;
        let diff = new_offset.vsub(self.sub_objects.at(id).offset);
        let ghost kids = orig[id.0 as int].children@;
        proof {
            lemma_kids_shift_fields(orig, kids, diff);
        }
        // pull every child back by the delta
        let kid_count = self.sub_objects.at(id).children.len();
        let mut ci: usize = 0;
        while ci < kid_count
            invariant
                0 <= ci <= kid_count,
                id.0 < orig.len() <= u32::MAX,
                children_coherent(orig),
                kids == orig[id.0 as int].children@,
                kid_count == kids.len(),
                *self == (Model { sub_objects: self.sub_objects, ..*old(self) }),
                self.sub_objects@ == kids_offsets_shifted(orig, kids.take(ci as int), diff),
                diff == vsub_spec(new_offset, orig[id.0 as int].offset),
            decreases kid_count - ci,
        {
            proof {
                lemma_kids_shift_fields(orig, kids.take(ci as int), diff);
                assert(self.sub_objects@[id.0 as int].children@ == kids);
            }
            let c = self.sub_objects.at(id).children[ci];
            let so = self.sub_objects.at_mut(c);
            so.offset = so.offset.vsub(diff);
            proof {
                assert(kids.take(ci + 1 as int).drop_last() =~= kids.take(ci as int));
                assert(kids.take(ci + 1 as int).last() == kids[ci as int]);
                assert(self.sub_objects@ =~= kids_offsets_shifted(
                    orig,
                    kids.take(ci + 1 as int),
                    diff,
                ));
            }
            ci += 1;
        }
        proof {
            assert(kids.take(kids.len() as int) =~= kids);
        }
        // the object's own box and offset
        let so = self.sub_objects.at_mut(id);
        so.bbox.max = so.bbox.max.vsub(diff);
        so.bbox.min = so.bbox.min.vsub(diff);
        so.offset = new_offset;
        let ghost mid = self.sub_objects@;
        proof {
            assert(mid =~= moved_offset_mid(orig, id, new_offset));
            assert forall|j: int| 0 <= j < orig.len() implies (#[trigger] mid[j]).children@
                == orig[j].children@ && mid[j].parent == orig[j].parent && mid[j].bsp_data
                == orig[j].bsp_data by {}
            assert(geometry_ok(mid));
            assert(children_coherent(mid));
        }
        // the zero-rotation, delta-translation pass, offset anchored
        let m = Mat4::translation_mat(diff.vneg());
        match self.apply_subobj_transform(id, &m, false) {
            Ok(()) => {},
            Err(e) => {
                return Err(e);
            },
        }
        // refold the radius from the floor, as the offset move ends
        let so = self.sub_objects.at_mut(id);
        so.recalc_radius();
        proof {
            let fin = self.sub_objects@;
            let tso = SubObject {
                radius: Scalar(radius_fold(fin[id.0 as int].bsp_data.verts@, ZERO_BITS)),
                ..fin[id.0 as int]
            };
            assert(subobj_xformed(mid[id.0 as int], tso, m, false));
            assert forall|j: int|
                0 <= j < orig.len() && j != id.0 as int implies descends(orig, id, j) == descends(
                mid,
                id,
                j,
            ) by {
                lemma_descends_same_children(orig, mid, id, j);
            }
        }
        Ok(())
    }

    /// Re-anchors a subobject's origin at the mean of its vertices' world
    /// positions (each vertex plus the current offset), by the offset-only
    /// move above.
    pub fn recalc_subobj_offset(&mut self, id: ObjectId) -> (r: Result<(), SingularTransform>)
        requires
            id.0 < old(self).sub_objects@.len(),
            old(self).sub_objects@.len() <= u32::MAX,
            geometry_ok(old(self).sub_objects@),
            children_coherent(old(self).sub_objects@),
        ensures
            *final(self) == (Model { sub_objects: final(self).sub_objects, ..*old(self) }),
            final(self).sub_objects@.len() == old(self).sub_objects@.len(),
            ({
                let objs = old(self).sub_objects@;
                let avg = crate::vec3d::average_spec(
                    objs[id.0 as int].bsp_data.verts@.map_values(
                        |v: Vec3d| vadd_spec(v, objs[id.0 as int].offset),
                    ),
                );
                match r {
                    Ok(()) => moved_only_offset_rel(objs, final(self).sub_objects@, id, avg),
                    Err(_) => final(self).sub_objects@ == moved_offset_mid(objs, id, avg)
                        && crate::vec3d::mat3_inverse_bits(
                        crate::vec3d::mat3_bits_spec(crate::vec3d::mat3_identity()),
                    ) is None,
                }
            }),
    {
        let so = self.sub_objects.at(id);
        let off = so.offset;
        let n = so.bsp_data.verts.len();
        let mut shifted: Vec<Vec3d> = Vec::new();
        let mut i: usize = 0;
        while i < n
            invariant
                0 <= i <= n,
                id.0 < self.sub_objects@.len(),
                n == self.sub_objects@[id.0 as int].bsp_data.verts@.len(),
                off == self.sub_objects@[id.0 as int].offset,
                shifted@.len() == i,
                forall|j: int|
                    0 <= j < i ==> #[trigger] shifted@[j] == vadd_spec(
                        self.sub_objects@[id.0 as int].bsp_data.verts@[j],
                        off,
                    ),
            decreases n - i,
        {
            shifted.push(self.sub_objects.at(id).bsp_data.verts[i].vadd(off));
            i += 1;
        }
        proof {
            assert(shifted@ =~= self.sub_objects@[id.0 as int].bsp_data.verts@.map_values(
                |v: Vec3d| vadd_spec(v, off),
            ));
        }
        let avg = Vec3d::average(&shifted);
        self.subobj_move_only_offset(id, avg)
    }

    /// Re-estimates the inverse moment-of-inertia tensor: every vertex
    /// reachable from the first detail level counts as a unit point mass,
    /// the accumulated tensor (in binary64) is scaled by the per-point mass,
    /// inverted, and narrowed into the header; with no detail level the
    /// tensor is zeroed. A children cycle or a singular tensor is reported
    /// as a fault, and nothing changes.
    pub fn recalc_moi(&mut self) -> (r: Result<(), MoiFault>)
        requires
            old(self).sub_objects@.len() < usize::MAX,
            children_coherent(old(self).sub_objects@),
            old(self).header.detail_levels@.len() > 0 ==> old(self).header.detail_levels@[0].0
                < old(self).sub_objects@.len(),
        ensures
            r is Ok ==> *final(self) == (Model { header: final(self).header, ..*old(self) })
                && final(self).header == (ObjHeader {
                moment_of_inertia: final(self).header.moment_of_inertia,
                ..old(self).header
            }) && (moi_spec(*old(self)) matches Ok(t) && final(self).header.moment_of_inertia
                == t),
            r matches Err(f) ==> *final(self) == *old(self) && moi_spec(*old(self)) == Err::<
                Mat3d,
                MoiFault,
            >(f),
    {
        if self.header.detail_levels.len() == 0 {
            self.header.moment_of_inertia = Mat3d {
                rvec: Vec3d::zero(),
                uvec: Vec3d::zero(),
                fvec: Vec3d::zero(),
            };
            return Ok(());
        }
        let d0 = self.header.detail_levels[0];
        let fuel = self.sub_objects.len() + 1;
        let vs = match moi_verts_exec(&self.sub_objects, d0, fuel) {
            Ok(v) => v,
            Err(_) => {
                return Err(MoiFault::Cycle);
            },
        };
        // accumulate the point-mass tensor in binary64
        let mut m0 = Scalar64::zero();
        let mut m1 = Scalar64::zero();
        let mut m2 = Scalar64::zero();
        let mut m3 = Scalar64::zero();
        let mut m4 = Scalar64::zero();
        let mut m5 = Scalar64::zero();
        let mut m6 = Scalar64::zero();
        let mut m7 = Scalar64::zero();
        let mut m8 = Scalar64::zero();
        proof {
            assert(seq![m0.0, m1.0, m2.0, m3.0, m4.0, m5.0, m6.0, m7.0, m8.0] =~= moi_fold(
                vs@.take(0int),
                zero9(),
            ));
        }
        let nv = vs.len();
        let mut t: usize = 0;
        while t < nv
            invariant
                0 <= t <= nv,
                nv == vs@.len(),
                *self == *old(self),
                seq![m0.0, m1.0, m2.0, m3.0, m4.0, m5.0, m6.0, m7.0, m8.0] == moi_fold(
                    vs@.take(t as int),
                    zero9(),
                ),
            decreases nv - t,
        {
            let ghost prev = moi_fold(vs@.take(t as int), zero9());
            let p = vs[t];
            let xy = Scalar64::widen(p.x.fmul(p.y));
            let xz = Scalar64::widen(p.x.fmul(p.z));
            let yz = Scalar64::widen(p.y.fmul(p.z));
            m0 = m0.fadd(Scalar64::widen(p.y.fmul(p.y).fadd(p.z.fmul(p.z))));
            m1 = m1.fsub(xy);
            m2 = m2.fsub(xz);
            m3 = m3.fsub(xy);
            m4 = m4.fadd(Scalar64::widen(p.x.fmul(p.x).fadd(p.z.fmul(p.z))));
            m5 = m5.fsub(yz);
            m6 = m6.fsub(xz);
            m7 = m7.fsub(yz);
            m8 = m8.fadd(Scalar64::widen(p.x.fmul(p.x).fadd(p.y.fmul(p.y))));
            proof {
                assert(vs@.take(t + 1 as int).drop_last() =~= vs@.take(t as int));
                assert(vs@.take(t + 1 as int).last() == vs@[t as int]);
                assert(seq![m0.0, m1.0, m2.0, m3.0, m4.0, m5.0, m6.0, m7.0, m8.0] =~= moi_step(
                    prev,
                    vs@[t as int],
                ));
            }
            t += 1;
        }
        proof {
            assert(vs@.take(nv as int) =~= vs@);
        }
        // scale by the per-point mass and invert
        let pm = Scalar64::widen(self.header.mass).fdiv(Scalar64::of_count(nv));
        let ghost acc = moi_fold(vs@, zero9());
        let mut scaled: Vec<u64> = Vec::new();
        scaled.push(m0.fmul(pm).0);
        scaled.push(m1.fmul(pm).0);
        scaled.push(m2.fmul(pm).0);
        scaled.push(m3.fmul(pm).0);
        scaled.push(m4.fmul(pm).0);
        scaled.push(m5.fmul(pm).0);
        scaled.push(m6.fmul(pm).0);
        scaled.push(m7.fmul(pm).0);
        scaled.push(m8.fmul(pm).0);
        proof {
            assert(scaled@ =~= Seq::new(
                9,
                |i: int| crate::scalar::mul64_bits(acc[i], pm.0),
            ));
        }
        let inv = match crate::vec3d::mat3d64_try_inverse(&scaled) {
            Some(v) => v,
            None => {
                return Err(MoiFault::Singular);
            },
        };
        self.header.moment_of_inertia = Mat3d {
            rvec: Vec3d {
                x: Scalar64(inv[0]).narrow(),
                y: Scalar64(inv[1]).narrow(),
                z: Scalar64(inv[2]).narrow(),
            },
            uvec: Vec3d {
                x: Scalar64(inv[3]).narrow(),
                y: Scalar64(inv[4]).narrow(),
                z: Scalar64(inv[5]).narrow(),
            },
            fvec: Vec3d {
                x: Scalar64(inv[6]).narrow(),
                y: Scalar64(inv[7]).narrow(),
                z: Scalar64(inv[8]).narrow(),
            },
        };
        Ok(())
    }
}

/// A children-path depends only on the children arrays, so two coherent
/// tables with equal arrays reach the same slots.
proof fn lemma_reach_same_children(
    objs1: Seq<SubObject>,
    objs2: Seq<SubObject>,
    root: int,
    j: int,
    fuel: nat,
)
    requires
        objs2.len() == objs1.len(),
        children_coherent(objs1),
        forall|i: int| 0 <= i < objs1.len() ==> (#[trigger] objs2[i]).children@ == objs1[i].children@,
        0 <= root < objs1.len(),
        child_reach(objs1, root, j, fuel),
    ensures
        child_reach(objs2, root, j, fuel),
    decreases fuel,
{
    if root != j {
        let k = choose|k: int|
            0 <= k < objs1[root].children@.len() && child_reach(
                objs1,
                (#[trigger] objs1[root].children@[k]).0 as int,
                j,
                (fuel - 1) as nat,
            );
        let c = objs1[root].children@[k].0 as int;
        lemma_reach_same_children(objs1, objs2, c, j, (fuel - 1) as nat);
        assert(0 <= k < objs2[root].children@.len() && child_reach(
            objs2,
            objs2[root].children@[k].0 as int,
            j,
            (fuel - 1) as nat,
        ));
    }
}

/// Descent from an in-range slot depends only on the children arrays.
pub proof fn lemma_descends_same_children(
    objs1: Seq<SubObject>,
    objs2: Seq<SubObject>,
    id: ObjectId,
    j: int,
)
    requires
        objs2.len() == objs1.len(),
        children_coherent(objs1),
        id.0 < objs1.len(),
        forall|i: int|
            0 <= i < objs1.len() ==> (#[trigger] objs2[i]).children@ == objs1[i].children@
                && objs2[i].parent == objs1[i].parent,
    ensures
        descends(objs1, id, j) == descends(objs2, id, j),
{
    assert(children_coherent(objs2));
    if descends(objs1, id, j) {
        let fuel = choose|fuel: nat| child_reach(objs1, id.0 as int, j, fuel);
        lemma_reach_same_children(objs1, objs2, id.0 as int, j, fuel);
    }
    if descends(objs2, id, j) {
        let fuel = choose|fuel: nat| child_reach(objs2, id.0 as int, j, fuel);
        lemma_reach_same_children(objs2, objs1, id.0 as int, j, fuel);
    }
}

/// Popping the stack keeps the children-closure of the flag list, as long as
/// the popped slot's flag is set.
proof fn lemma_closure_after_pop(
    objs: Seq<SubObject>,
    seen: Seq<bool>,
    prestack: Seq<ObjectId>,
    stack: Seq<ObjectId>,
    id2: ObjectId,
)
    requires
        seen.len() == objs.len(),
        children_coherent(objs),
        prestack.len() > 0,
        id2 == prestack.last(),
        stack == prestack.drop_last(),
        seen[id2.0 as int],
        forall|x: int, k: int|
            0 <= x < objs.len() && seen[x] && 0 <= k < (#[trigger] objs[x]).children@.len() && x
                != id2.0 as int ==> seen[(#[trigger] objs[x].children@[k]).0 as int]
                || prestack.contains(objs[x].children@[k]),
    ensures
        forall|x: int, k: int|
            0 <= x < objs.len() && seen[x] && 0 <= k < (#[trigger] objs[x]).children@.len() && x
                != id2.0 as int ==> seen[(#[trigger] objs[x].children@[k]).0 as int]
                || stack.contains(objs[x].children@[k]),
{
    assert forall|x: int, k: int|
        0 <= x < objs.len() && seen[x] && 0 <= k < (#[trigger] objs[x]).children@.len() && x
            != id2.0 as int implies seen[(#[trigger] objs[x].children@[k]).0 as int]
        || stack.contains(objs[x].children@[k]) by {
        let e = objs[x].children@[k];
        if !seen[e.0 as int] {
            assert(prestack.contains(e));
            let w = choose|w: int| 0 <= w < prestack.len() && prestack[w] == e;
            assert(e != id2);
            assert(w < prestack.len() - 1);
            assert(stack[w] == e);
        }
    }
}

/// The same, with the obligations of the popped slot itself already met.
proof fn lemma_closure_after_pop_all(
    objs: Seq<SubObject>,
    seen: Seq<bool>,
    prestack: Seq<ObjectId>,
    stack: Seq<ObjectId>,
    id2: ObjectId,
)
    requires
        seen.len() == objs.len(),
        children_coherent(objs),
        prestack.len() > 0,
        id2 == prestack.last(),
        stack == prestack.drop_last(),
        seen[id2.0 as int],
        forall|x: int, k: int|
            0 <= x < objs.len() && seen[x] && 0 <= k < (#[trigger] objs[x]).children@.len()
                ==> seen[(#[trigger] objs[x].children@[k]).0 as int] || prestack.contains(
                objs[x].children@[k],
            ),
    ensures
        forall|x: int, k: int|
            0 <= x < objs.len() && seen[x] && 0 <= k < (#[trigger] objs[x]).children@.len()
                ==> seen[(#[trigger] objs[x].children@[k]).0 as int] || stack.contains(
                objs[x].children@[k],
            ),
{
    assert forall|x: int, k: int|
        0 <= x < objs.len() && seen[x] && 0 <= k < (#[trigger] objs[x]).children@.len()
        implies seen[(#[trigger] objs[x].children@[k]).0 as int] || stack.contains(
        objs[x].children@[k],
    ) by {
        let e = objs[x].children@[k];
        if !seen[e.0 as int] {
            assert(prestack.contains(e));
            let w = choose|w: int| 0 <= w < prestack.len() && prestack[w] == e;
            assert(e != id2);
            assert(w < prestack.len() - 1);
            assert(stack[w] == e);
        }
    }
}

/// Whether slot `j` lies in the subtree of some top-level (parentless)
/// subobject, through the derived children arrays.
pub open spec fn from_root(objs: Seq<SubObject>, j: int) -> bool {
    exists|rt: int|
        0 <= rt < objs.len() && (#[trigger] objs[rt]).parent is None && descends(
            objs,
            ObjectId(rt as u32),
            j,
        )
}

/// An ancestry walk reads only the parent links, so two tables with equal
/// parents walk identically.
proof fn lemma_ancestor_walk_parents(
    objs1: Seq<SubObject>,
    objs2: Seq<SubObject>,
    cur: Option<ObjectId>,
    anc: ObjectId,
    fuel: nat,
)
    requires
        objs2.len() == objs1.len(),
        forall|i: int| 0 <= i < objs1.len() ==> (#[trigger] objs2[i]).parent == objs1[i].parent,
    ensures
        ancestor_walk(objs2, cur, anc, fuel) == ancestor_walk(objs1, cur, anc, fuel),
    decreases fuel,
{
    match cur {
        None => {},
        Some(p) => {
            if p != anc && (p.0 as int) < objs1.len() && fuel > 0 {
                lemma_ancestor_walk_parents(
                    objs1,
                    objs2,
                    objs1[p.0 as int].parent,
                    anc,
                    (fuel - 1) as nat,
                );
            }
        },
    }
}

/// An offset walk runs out of fuel (or not) depending only on the parent
/// links, whatever the offsets hold.
proof fn lemma_offset_walk_ok_parents(
    objs1: Seq<SubObject>,
    objs2: Seq<SubObject>,
    acc1: Vec3d,
    acc2: Vec3d,
    cur: Option<ObjectId>,
    fuel: nat,
)
    requires
        objs2.len() == objs1.len(),
        forall|i: int| 0 <= i < objs1.len() ==> (#[trigger] objs2[i]).parent == objs1[i].parent,
    ensures
        (offset_walk(objs1, acc1, cur, fuel) is Ok) == (offset_walk(objs2, acc2, cur, fuel) is Ok),
    decreases fuel,
{
    match cur {
        None => {},
        Some(p) => {
            if (p.0 as int) < objs1.len() && fuel > 0 {
                lemma_offset_walk_ok_parents(
                    objs1,
                    objs2,
                    vadd_spec(acc1, objs1[p.0 as int].offset),
                    vadd_spec(acc2, objs2[p.0 as int].offset),
                    objs1[p.0 as int].parent,
                    (fuel - 1) as nat,
                );
            }
        },
    }
}

/// The radius fold succeeds or fails depending only on the parent links and
/// stored ids, which a transform preserves.
proof fn lemma_radius_fold_ok_parents(
    objs1: Seq<SubObject>,
    objs2: Seq<SubObject>,
    d0: ObjectId,
    k: int,
)
    requires
        objs2.len() == objs1.len(),
        stored_ids_in_range(objs1),
        forall|i: int|
            0 <= i < objs1.len() ==> (#[trigger] objs2[i]).parent == objs1[i].parent && objs2[i].obj_id
                == objs1[i].obj_id,
        0 <= k <= objs1.len(),
    ensures
        (model_radius_fold(objs1, d0, k) is Ok) == (model_radius_fold(objs2, d0, k) is Ok),
    decreases k,
{
    if k > 0 {
        lemma_radius_fold_ok_parents(objs1, objs2, d0, k - 1);
        let i = k - 1;
        let id = objs1[i].obj_id;
        if id != d0 && (id.0 as int) < objs1.len() {
            lemma_ancestor_walk_parents(
                objs1,
                objs2,
                objs1[id.0 as int].parent,
                d0,
                (objs1.len() + 1) as nat,
            );
        }
        assert(is_ancestor_spec(objs2, id, d0) == is_ancestor_spec(objs1, id, d0));
        if is_ancestor_spec(objs1, id, d0) == Ok::<bool, CycleDetected>(true) {
            lemma_offset_walk_ok_parents(
                objs1,
                objs2,
                objs1[id.0 as int].offset,
                objs2[id.0 as int].offset,
                objs1[id.0 as int].parent,
                (objs1.len() + 1) as nat,
            );
        }
    }
}

/// The box fold succeeds or fails depending only on the parent links and
/// stored ids, which a transform preserves.
proof fn lemma_bbox_fold_ok_parents(
    objs1: Seq<SubObject>,
    objs2: Seq<SubObject>,
    d0: ObjectId,
    k: int,
)
    requires
        objs2.len() == objs1.len(),
        stored_ids_in_range(objs1),
        forall|i: int|
            0 <= i < objs1.len() ==> (#[trigger] objs2[i]).parent == objs1[i].parent && objs2[i].obj_id
                == objs1[i].obj_id,
        0 <= k <= objs1.len(),
    ensures
        (model_bbox_fold(objs1, d0, k) is Ok) == (model_bbox_fold(objs2, d0, k) is Ok),
    decreases k,
{
    if k > 0 {
        lemma_bbox_fold_ok_parents(objs1, objs2, d0, k - 1);
        let i = k - 1;
        let id = objs1[i].obj_id;
        if id != d0 && (id.0 as int) < objs1.len() {
            lemma_ancestor_walk_parents(
                objs1,
                objs2,
                objs1[id.0 as int].parent,
                d0,
                (objs1.len() + 1) as nat,
            );
        }
        assert(is_ancestor_spec(objs2, id, d0) == is_ancestor_spec(objs1, id, d0));
        if is_ancestor_spec(objs1, id, d0) == Ok::<bool, CycleDetected>(true) {
            lemma_offset_walk_ok_parents(
                objs1,
                objs2,
                objs1[id.0 as int].offset,
                objs2[id.0 as int].offset,
                objs1[id.0 as int].parent,
                (objs1.len() + 1) as nat,
            );
        }
    }
}

/// The moment-of-inertia vertex walk: a subobject's own vertices, then each
/// child's walk in array order, depth first (an object listed under two
/// parents contributes once per listing, as the scan would have it); fuel
/// bounds the path depth, and running out marks a children cycle.
pub open spec fn moi_verts_walk(objs: Seq<SubObject>, id: int, fuel: nat) -> Result<
    Seq<Vec3d>,
    CycleDetected,
>
    decreases fuel, 0int, 0int,
{
    if fuel == 0 {
        Err(CycleDetected)
    } else {
        match moi_kids_walk(objs, objs[id].children@, (fuel - 1) as nat) {
            Err(e) => Err(e),
            Ok(s) => Ok(objs[id].bsp_data.verts@ + s),
        }
    }
}

pub open spec fn moi_kids_walk(objs: Seq<SubObject>, kids: Seq<ObjectId>, fuel: nat) -> Result<
    Seq<Vec3d>,
    CycleDetected,
>
    decreases fuel, kids.len(), 1int,
{
    if kids.len() == 0 {
        Ok(Seq::empty())
    } else {
        match moi_kids_walk(objs, kids.drop_last(), fuel) {
            Err(e) => Err(e),
            Ok(s) => match moi_verts_walk(objs, kids.last().0 as int, fuel) {
                Err(e) => Err(e),
                Ok(s2) => Ok(s + s2),
            },
        }
    }
}

/// Once a prefix of the children fails the walk, the whole list fails.
proof fn lemma_moi_kids_err_persists(
    objs: Seq<SubObject>,
    kids: Seq<ObjectId>,
    i: int,
    k: int,
    fuel: nat,
)
    requires
        0 <= i <= k <= kids.len(),
        moi_kids_walk(objs, kids.take(i), fuel) is Err,
    ensures
        moi_kids_walk(objs, kids.take(k), fuel) is Err,
    decreases k - i,
{
    if k > i {
        assert(kids.take(i + 1).drop_last() =~= kids.take(i));
        lemma_moi_kids_err_persists(objs, kids, i + 1, k, fuel);
    }
}

/// The faults a moment-of-inertia recomputation can hit: a cycle in the
/// children arrays, or an accumulated tensor with no inverse.
#[derive(Clone, Copy, Debug, PartialEq, Eq, Structural)]
pub enum MoiFault {
    Cycle,
    Singular,
}

/// Nine binary64 zeros: the flat column-major form of the zero tensor.
pub open spec fn zero9() -> Seq<u64> {
    seq![0u64, 0u64, 0u64, 0u64, 0u64, 0u64, 0u64, 0u64, 0u64]
}

/// One vertex's unit point mass folded into the running inertia tensor
/// (column-major): the products are formed in binary32, as the scan forms
/// them, then widened and accumulated in binary64.
pub open spec fn moi_step(acc: Seq<u64>, p: Vec3d) -> Seq<u64> {
    let xx = crate::scalar::mul_bits(p.x.0, p.x.0);
    let yy = crate::scalar::mul_bits(p.y.0, p.y.0);
    let zz = crate::scalar::mul_bits(p.z.0, p.z.0);
    let xy = crate::scalar::widen_bits(crate::scalar::mul_bits(p.x.0, p.y.0));
    let xz = crate::scalar::widen_bits(crate::scalar::mul_bits(p.x.0, p.z.0));
    let yz = crate::scalar::widen_bits(crate::scalar::mul_bits(p.y.0, p.z.0));
    seq![
        crate::scalar::add64_bits(acc[0], crate::scalar::widen_bits(crate::scalar::add_bits(yy, zz))),
        crate::scalar::sub64_bits(acc[1], xy),
        crate::scalar::sub64_bits(acc[2], xz),
        crate::scalar::sub64_bits(acc[3], xy),
        crate::scalar::add64_bits(acc[4], crate::scalar::widen_bits(crate::scalar::add_bits(xx, zz))),
        crate::scalar::sub64_bits(acc[5], yz),
        crate::scalar::sub64_bits(acc[6], xz),
        crate::scalar::sub64_bits(acc[7], yz),
        crate::scalar::add64_bits(acc[8], crate::scalar::widen_bits(crate::scalar::add_bits(xx, yy))),
    ]
}

/// The point-mass tensor accumulated over the walked vertices, front to
/// back.
pub open spec fn moi_fold(vs: Seq<Vec3d>, acc: Seq<u64>) -> Seq<u64>
    decreases vs.len(),
{
    if vs.len() == 0 {
        acc
    } else {
        moi_step(moi_fold(vs.drop_last(), acc), vs.last())
    }
}

/// The recomputed inverse moment-of-inertia tensor: every vertex reachable
/// from the first detail level as a unit point mass, scaled by the per-point
/// mass, inverted, and narrowed back to binary32; the zero tensor when there
/// is no detail level.
pub open spec fn moi_spec(m: Model) -> Result<Mat3d, MoiFault> {
    if m.header.detail_levels@.len() == 0 {
        Ok(Mat3d { rvec: zero_vec(), uvec: zero_vec(), fvec: zero_vec() })
    } else {
        let objs = m.sub_objects@;
        match moi_verts_walk(
            objs,
            m.header.detail_levels@[0].0 as int,
            (objs.len() + 1) as nat,
        ) {
            Err(_) => Err(MoiFault::Cycle),
            Ok(vs) => {
                let acc = moi_fold(vs, zero9());
                let pm = crate::scalar::div64_bits(
                    crate::scalar::widen_bits(m.header.mass.0),
                    crate::scalar::scalar64_of_count(vs.len() as usize),
                );
                let scaled = Seq::new(9, |i: int| crate::scalar::mul64_bits(acc[i], pm));
                match crate::vec3d::mat3d64_inverse_bits(scaled) {
                    None => Err(MoiFault::Singular),
                    Some(inv) => Ok(
                        Mat3d {
                            rvec: Vec3d {
                                x: Scalar(crate::scalar::narrow_bits(inv[0])),
                                y: Scalar(crate::scalar::narrow_bits(inv[1])),
                                z: Scalar(crate::scalar::narrow_bits(inv[2])),
                            },
                            uvec: Vec3d {
                                x: Scalar(crate::scalar::narrow_bits(inv[3])),
                                y: Scalar(crate::scalar::narrow_bits(inv[4])),
                                z: Scalar(crate::scalar::narrow_bits(inv[5])),
                            },
                            fvec: Vec3d {
                                x: Scalar(crate::scalar::narrow_bits(inv[6])),
                                y: Scalar(crate::scalar::narrow_bits(inv[7])),
                                z: Scalar(crate::scalar::narrow_bits(inv[8])),
                            },
                        },
                    ),
                }
            },
        }
    }
}

fn moi_verts_exec(objs: &ObjVec<SubObject>, id: ObjectId, fuel: usize) -> (r: Result<
    Vec<Vec3d>,
    CycleDetected,
>)
    requires
        id.0 < objs@.len(),
        children_coherent(objs@),
    ensures
        (match r {
            Ok(vs) => moi_verts_walk(objs@, id.0 as int, fuel as nat) == Ok::<
                Seq<Vec3d>,
                CycleDetected,
            >(vs@),
            Err(_) => moi_verts_walk(objs@, id.0 as int, fuel as nat) is Err,
        }),
    decreases fuel,
{
    if fuel == 0 {
        return Err(CycleDetected);
    }
    let mut out: Vec<Vec3d> = Vec::new();
    let nv = objs.at(id).bsp_data.verts.len();
    let mut t: usize = 0;
    while t < nv
        invariant
            0 <= t <= nv,
            id.0 < objs@.len(),
            nv == objs@[id.0 as int].bsp_data.verts@.len(),
            out@ =~= objs@[id.0 as int].bsp_data.verts@.take(t as int),
        decreases nv - t,
    {
        out.push(objs.at(id).bsp_data.verts[t]);
        t += 1;
    }
    proof {
        assert(objs@[id.0 as int].bsp_data.verts@.take(nv as int) =~= objs@[
            id.0 as int
        ].bsp_data.verts@);
    }
    let ghost kids = objs@[id.0 as int].children@;
    let kid_count = objs.at(id).children.len();
    let mut ci: usize = 0;
    while ci < kid_count
        invariant
            0 <= ci <= kid_count,
            id.0 < objs@.len(),
            fuel >= 1,
            children_coherent(objs@),
            kids == objs@[id.0 as int].children@,
            kid_count == kids.len(),
            moi_kids_walk(objs@, kids.take(ci as int), (fuel - 1) as nat) matches Ok(s) && out@
                == objs@[id.0 as int].bsp_data.verts@ + s,
        decreases kid_count - ci,
    {
        let c = objs.at(id).children[ci];
        let ghost pre = moi_kids_walk(objs@, kids.take(ci as int), (fuel - 1) as nat)->Ok_0;
        match moi_verts_exec(objs, c, fuel - 1) {
            Ok(mut vs) => {
                let ghost vsv = vs@;
                out.append(&mut vs);
                proof {
                    assert(kids.take(ci + 1).drop_last() =~= kids.take(ci as int));
                    assert(kids.take(ci + 1).last() == kids[ci as int]);
                    assert(moi_kids_walk(objs@, kids.take(ci + 1), (fuel - 1) as nat) == Ok::<
                        Seq<Vec3d>,
                        CycleDetected,
                    >(pre + vsv));
                    assert(out@ =~= objs@[id.0 as int].bsp_data.verts@ + (pre + vsv));
                }
            },
            Err(e) => {
                proof {
                    assert(kids.take(ci + 1).drop_last() =~= kids.take(ci as int));
                    assert(kids.take(ci + 1).last() == kids[ci as int]);
                    assert(moi_kids_walk(objs@, kids.take(ci + 1), (fuel - 1) as nat) is Err);
                    lemma_moi_kids_err_persists(
                        objs@,
                        kids,
                        ci + 1,
                        kids.len() as int,
                        (fuel - 1) as nat,
                    );
                    assert(kids.take(kids.len() as int) =~= kids);
                }
                return Err(e);
            },
        }
        ci += 1;
    }
    proof {
        assert(kids.take(kids.len() as int) =~= kids);
    }
    Ok(out)
}

/// The children's offsets each pulled back by the delta, in array order (a
/// duplicated entry is pulled back twice, as the scan would have it).
pub open spec fn kids_offsets_shifted(
    objs: Seq<SubObject>,
    kids: Seq<ObjectId>,
    diff: Vec3d,
) -> Seq<SubObject>
    decreases kids.len(),
{
    if kids.len() == 0 {
        objs
    } else {
        let prev = kids_offsets_shifted(objs, kids.drop_last(), diff);
        let c = kids.last().0 as int;
        prev.update(c, SubObject { offset: vsub_spec(prev[c].offset, diff), ..prev[c] })
    }
}

/// The shift touches only the offsets of the listed slots.
proof fn lemma_kids_shift_fields(objs: Seq<SubObject>, kids: Seq<ObjectId>, diff: Vec3d)
    requires
        forall|k: int| 0 <= k < kids.len() ==> (#[trigger] kids[k]).0 < objs.len(),
    ensures
        kids_offsets_shifted(objs, kids, diff).len() == objs.len(),
        forall|j: int|
            0 <= j < objs.len() ==> #[trigger] kids_offsets_shifted(objs, kids, diff)[j]
                == (SubObject {
                offset: kids_offsets_shifted(objs, kids, diff)[j].offset,
                ..objs[j]
            }),
        forall|j: int|
            0 <= j < objs.len() && !kids.contains(ObjectId(j as u32))
                ==> #[trigger] kids_offsets_shifted(objs, kids, diff)[j] == objs[j],
    decreases kids.len(),
{
    if kids.len() > 0 {
        lemma_kids_shift_fields(objs, kids.drop_last(), diff);
        assert forall|j: int|
            0 <= j < objs.len() && !kids.contains(ObjectId(j as u32))
            implies #[trigger] kids_offsets_shifted(objs, kids, diff)[j] == objs[j] by {
            assert(!kids.drop_last().contains(ObjectId(j as u32))) by {
                if kids.drop_last().contains(ObjectId(j as u32)) {
                    let w = choose|w: int|
                        0 <= w < kids.drop_last().len() && kids.drop_last()[w] == ObjectId(
                            j as u32,
                        );
                    assert(kids[w] == ObjectId(j as u32));
                }
            }
            assert(kids.last() != ObjectId(j as u32));
            assert(kids.last().0 != j as u32);
        }
    }
}

/// The table as it stands right before the zero-rotation translation pass of
/// an offset move: the children pulled back by the delta, the object's box
/// corners pulled back, its offset replaced.
pub open spec fn moved_offset_mid(
    objs: Seq<SubObject>,
    id: ObjectId,
    new_offset: Vec3d,
) -> Seq<SubObject> {
    let diff = vsub_spec(new_offset, objs[id.0 as int].offset);
    let s1 = kids_offsets_shifted(objs, objs[id.0 as int].children@, diff);
    s1.update(
        id.0 as int,
        SubObject {
            bbox: BoundingBox {
                min: vsub_spec(s1[id.0 as int].bbox.min, diff),
                max: vsub_spec(s1[id.0 as int].bbox.max, diff),
            },
            offset: new_offset,
            ..s1[id.0 as int]
        },
    )
}

/// What an offset-only move guarantees: the mid table above, then the
/// zero-rotation delta-translation pass through the subtree with the offset
/// anchored, then the object's radius refolded from the fixed floor.
pub open spec fn moved_only_offset_rel(
    objs: Seq<SubObject>,
    fin: Seq<SubObject>,
    id: ObjectId,
    new_offset: Vec3d,
) -> bool {
    let diff = vsub_spec(new_offset, objs[id.0 as int].offset);
    let m = Mat4 {
        linear: crate::vec3d::mat3_identity(),
        translation: crate::vec3d::vneg_spec(diff),
    };
    let nt = Mat4 { linear: crate::vec3d::mat3_identity(), translation: zero_vec() };
    let mid = moved_offset_mid(objs, id, new_offset);
    &&& fin.len() == objs.len()
    &&& subobj_xformed(
        mid[id.0 as int],
        SubObject {
            radius: Scalar(radius_fold(fin[id.0 as int].bsp_data.verts@, ZERO_BITS)),
            ..fin[id.0 as int]
        },
        m,
        false,
    )
    &&& fin[id.0 as int].radius.0 == radius_fold(
        fin[id.0 as int].bsp_data.verts@,
        RADIUS_FLOOR_BITS,
    )
    &&& (forall|j: int|
        0 <= j < objs.len() && j != id.0 as int && descends(objs, id, j) ==> subobj_xformed(
            mid[j],
            #[trigger] fin[j],
            nt,
            true,
        ))
    &&& (forall|j: int|
        0 <= j < objs.len() && j != id.0 as int && !descends(objs, id, j)
            ==> #[trigger] fin[j] == mid[j])
}

/// The rotation-only derivative of a transform, as the normal maps use it.
pub open spec fn rot_mat4(m: Mat4) -> Mat4 {
    Mat4 { linear: crate::vec3d::rot_only_linear(m), translation: zero_vec() }
}

/// A path transformed: waypoints through the matrix, names untouched.
pub open spec fn path_xformed(m: Mat4, a: Path, b: Path) -> bool {
    &&& b == (Path { points: b.points, ..a })
    &&& b.points@.len() == a.points@.len()
    &&& (forall|i: int|
        0 <= i < a.points@.len() ==> crate::entities::path_point_xformed(
            m,
            a.points@[i],
            #[trigger] b.points@[i],
        ))
}

/// A special point transformed: position through the matrix, radius by the
/// uniform length-scale.
pub open spec fn special_xformed(m: Mat4, a: SpecialPoint, b: SpecialPoint) -> bool {
    b == (SpecialPoint {
        position: transform_point_spec(m, a.position),
        radius: a.radius.fmul_spec(Scalar(crate::vec3d::uniform_scale_spec(m))),
        ..a
    })
}

/// An eye point transformed: position through the matrix, view normal
/// through the rotation-only derivative.
pub open spec fn eye_xformed(m: Mat4, a: EyePoint, b: EyePoint) -> bool {
    b == (EyePoint {
        position: transform_point_spec(m, a.position),
        normal: crate::vec3d::transformed_normal_spec(rot_mat4(m), a.normal),
        ..a
    })
}

/// A weapon hardpoint transformed: position through the matrix, firing
/// normal through the rotation-only derivative, offset untouched.
pub open spec fn weapon_xformed(m: Mat4, a: WeaponHardpoint, b: WeaponHardpoint) -> bool {
    b == (WeaponHardpoint {
        position: transform_point_spec(m, a.position),
        normal: crate::vec3d::transformed_normal_spec(rot_mat4(m), a.normal),
        ..a
    })
}

/// Every bank of hardpoints transformed pointwise.
pub open spec fn weps_xformed(
    m: Mat4,
    a: Seq<Vec<WeaponHardpoint>>,
    b: Seq<Vec<WeaponHardpoint>>,
) -> bool {
    &&& b.len() == a.len()
    &&& (forall|i: int, k: int|
        0 <= i < a.len() && 0 <= k < a[i]@.len() ==> weapon_xformed(
            m,
            a[i]@[k],
            #[trigger] b[i]@[k],
        ))
    &&& (forall|i: int| 0 <= i < a.len() ==> (#[trigger] b[i])@.len() == a[i]@.len())
}

/// A thruster glow transformed: position, scaled radius, rotated normal.
pub open spec fn tglow_xformed(m: Mat4, a: ThrusterGlow, b: ThrusterGlow) -> bool {
    b == (ThrusterGlow {
        position: transform_point_spec(m, a.position),
        radius: a.radius.fmul_spec(Scalar(crate::vec3d::uniform_scale_spec(m))),
        normal: crate::vec3d::transformed_normal_spec(rot_mat4(m), a.normal),
    })
}

/// A thruster bank transformed: its glows pointwise, its properties kept.
pub open spec fn thruster_bank_xformed(m: Mat4, a: ThrusterBank, b: ThrusterBank) -> bool {
    &&& b == (ThrusterBank { glows: b.glows, ..a })
    &&& b.glows@.len() == a.glows@.len()
    &&& (forall|i: int|
        0 <= i < a.glows@.len() ==> tglow_xformed(m, a.glows@[i], #[trigger] b.glows@[i]))
}

/// A glow point transformed: position, scaled radius, and the unconstrained
/// normal rotated then re-normalized.
pub open spec fn gpoint_xformed(m: Mat4, a: GlowPoint, b: GlowPoint) -> bool {
    b == (GlowPoint {
        position: transform_point_spec(m, a.position),
        radius: a.radius.fmul_spec(Scalar(crate::vec3d::uniform_scale_spec(m))),
        normal: crate::vec3d::normalize_spec(transform_point_spec(rot_mat4(m), a.normal)),
    })
}

/// A glow bank transformed: its points pointwise, everything else kept.
pub open spec fn glow_bank_xformed(m: Mat4, a: GlowPointBank, b: GlowPointBank) -> bool {
    &&& b == (GlowPointBank { glow_points: b.glow_points, ..a })
    &&& b.glow_points@.len() == a.glow_points@.len()
    &&& (forall|i: int|
        0 <= i < a.glow_points@.len() ==> gpoint_xformed(
            m,
            a.glow_points@[i],
            #[trigger] b.glow_points@[i],
        ))
}

/// A docking port transformed: position through the matrix, both frame
/// vectors through the rotation-only derivative.
pub open spec fn dock_xformed(m: Mat4, a: Dock, b: Dock) -> bool {
    b == (Dock {
        position: transform_point_spec(m, a.position),
        fvec: crate::vec3d::transformed_normal_spec(rot_mat4(m), a.fvec),
        uvec: crate::vec3d::transformed_normal_spec(rot_mat4(m), a.uvec),
        ..a
    })
}

/// A turret transformed: fire points through the translation-free
/// derivative, the firing normal through the rotation-only one.
pub open spec fn turret_xformed(m: Mat4, a: Turret, b: Turret) -> bool {
    &&& b == (Turret {
        fire_points: b.fire_points,
        normal: crate::vec3d::transformed_normal_spec(rot_mat4(m), a.normal),
        ..a
    })
    &&& b.fire_points@.len() == a.fire_points@.len()
    &&& (forall|i: int|
        0 <= i < a.fire_points@.len() ==> #[trigger] b.fire_points@[i] == transform_point_spec(
            Mat4 { linear: m.linear, translation: zero_vec() },
            a.fire_points@[i],
        ))
}

/// An insignia transformed: every vertex and the offset through the matrix.
pub open spec fn insignia_xformed(m: Mat4, a: Insignia, b: Insignia) -> bool {
    &&& b == (Insignia {
        vertices: b.vertices,
        offset: transform_point_spec(m, a.offset),
        ..a
    })
    &&& b.vertices@.len() == a.vertices@.len()
    &&& (forall|i: int|
        0 <= i < a.vertices@.len() ==> #[trigger] b.vertices@[i] == transform_point_spec(
            m,
            a.vertices@[i],
        ))
}

fn xform_paths(v: Vec<Path>, matrix: &Mat4) -> (r: Vec<Path>)
    ensures
        r@.len() == v@.len(),
        forall|i: int| 0 <= i < v@.len() ==> path_xformed(*matrix, v@[i], #[trigger] r@[i]),
{
    let ghost orig = v@;
    let mut v = v;
    let mut out: Vec<Path> = Vec::new();
    while v.len() > 0
        invariant
            out@.len() + v@.len() == orig.len(),
            v@ =~= orig.skip(out@.len() as int),
            forall|j: int| 0 <= j < out@.len() ==> path_xformed(*matrix, orig[j], #[trigger] out@[j]),
        decreases v@.len(),
    {
        let mut p = v.remove(0);
        proof {
            assert(orig.skip(out@.len() as int)[0] == p);
        }
        p.apply_transform(matrix);
        out.push(p);
        proof {
            assert(v@ =~= orig.skip(out@.len() as int));
        }
    }
    out
}

fn xform_specials(v: Vec<SpecialPoint>, matrix: &Mat4) -> (r: Vec<SpecialPoint>)
    ensures
        r@.len() == v@.len(),
        forall|i: int| 0 <= i < v@.len() ==> special_xformed(*matrix, v@[i], #[trigger] r@[i]),
{
    let ghost orig = v@;
    let mut v = v;
    let mut out: Vec<SpecialPoint> = Vec::new();
    while v.len() > 0
        invariant
            out@.len() + v@.len() == orig.len(),
            v@ =~= orig.skip(out@.len() as int),
            forall|j: int|
                0 <= j < out@.len() ==> special_xformed(*matrix, orig[j], #[trigger] out@[j]),
        decreases v@.len(),
    {
        let mut p = v.remove(0);
        proof {
            assert(orig.skip(out@.len() as int)[0] == p);
        }
        p.apply_transform(matrix);
        out.push(p);
        proof {
            assert(v@ =~= orig.skip(out@.len() as int));
        }
    }
    out
}

fn xform_eyes(v: Vec<EyePoint>, matrix: &Mat4) -> (r: Vec<EyePoint>)
    ensures
        r@.len() == v@.len(),
        forall|i: int| 0 <= i < v@.len() ==> eye_xformed(*matrix, v@[i], #[trigger] r@[i]),
{
    let ghost orig = v@;
    let mut v = v;
    let mut out: Vec<EyePoint> = Vec::new();
    while v.len() > 0
        invariant
            out@.len() + v@.len() == orig.len(),
            v@ =~= orig.skip(out@.len() as int),
            forall|j: int| 0 <= j < out@.len() ==> eye_xformed(*matrix, orig[j], #[trigger] out@[j]),
        decreases v@.len(),
    {
        let mut p = v.remove(0);
        proof {
            assert(orig.skip(out@.len() as int)[0] == p);
        }
        p.apply_transform(matrix);
        out.push(p);
        proof {
            assert(v@ =~= orig.skip(out@.len() as int));
        }
    }
    out
}

fn xform_wep_bank(v: Vec<WeaponHardpoint>, matrix: &Mat4) -> (r: Vec<WeaponHardpoint>)
    ensures
        r@.len() == v@.len(),
        forall|i: int| 0 <= i < v@.len() ==> weapon_xformed(*matrix, v@[i], #[trigger] r@[i]),
{
    let ghost orig = v@;
    let mut v = v;
    let mut out: Vec<WeaponHardpoint> = Vec::new();
    while v.len() > 0
        invariant
            out@.len() + v@.len() == orig.len(),
            v@ =~= orig.skip(out@.len() as int),
            forall|j: int|
                0 <= j < out@.len() ==> weapon_xformed(*matrix, orig[j], #[trigger] out@[j]),
        decreases v@.len(),
    {
        let mut p = v.remove(0);
        proof {
            assert(orig.skip(out@.len() as int)[0] == p);
        }
        p.apply_transform(matrix);
        out.push(p);
        proof {
            assert(v@ =~= orig.skip(out@.len() as int));
        }
    }
    out
}

fn xform_wep_banks(v: Vec<Vec<WeaponHardpoint>>, matrix: &Mat4) -> (r: Vec<Vec<WeaponHardpoint>>)
    ensures
        weps_xformed(*matrix, v@, r@),
{
    let ghost orig = v@;
    let mut v = v;
    let mut out: Vec<Vec<WeaponHardpoint>> = Vec::new();
    while v.len() > 0
        invariant
            out@.len() + v@.len() == orig.len(),
            v@ =~= orig.skip(out@.len() as int),
            forall|j: int|
                0 <= j < out@.len() ==> (#[trigger] out@[j])@.len() == orig[j]@.len(),
            forall|j: int, k: int|
                0 <= j < out@.len() && 0 <= k < orig[j]@.len() ==> weapon_xformed(
                    *matrix,
                    orig[j]@[k],
                    #[trigger] out@[j]@[k],
                ),
        decreases v@.len(),
    {
        let bank = v.remove(0);
        proof {
            assert(orig.skip(out@.len() as int)[0] == bank);
        }
        let nb = xform_wep_bank(bank, matrix);
        out.push(nb);
        proof {
            assert(v@ =~= orig.skip(out@.len() as int));
        }
    }
    out
}

fn xform_tglows(v: Vec<ThrusterGlow>, matrix: &Mat4) -> (r: Vec<ThrusterGlow>)
    ensures
        r@.len() == v@.len(),
        forall|i: int| 0 <= i < v@.len() ==> tglow_xformed(*matrix, v@[i], #[trigger] r@[i]),
{
    let ghost orig = v@;
    let mut v = v;
    let mut out: Vec<ThrusterGlow> = Vec::new();
    while v.len() > 0
        invariant
            out@.len() + v@.len() == orig.len(),
            v@ =~= orig.skip(out@.len() as int),
            forall|j: int|
                0 <= j < out@.len() ==> tglow_xformed(*matrix, orig[j], #[trigger] out@[j]),
        decreases v@.len(),
    {
        let mut p = v.remove(0);
        proof {
            assert(orig.skip(out@.len() as int)[0] == p);
        }
        p.apply_transform(matrix);
        out.push(p);
        proof {
            assert(v@ =~= orig.skip(out@.len() as int));
        }
    }
    out
}

fn xform_thruster_banks(v: Vec<ThrusterBank>, matrix: &Mat4) -> (r: Vec<ThrusterBank>)
    ensures
        r@.len() == v@.len(),
        forall|i: int|
            0 <= i < v@.len() ==> thruster_bank_xformed(*matrix, v@[i], #[trigger] r@[i]),
{
    let ghost orig = v@;
    let mut v = v;
    let mut out: Vec<ThrusterBank> = Vec::new();
    while v.len() > 0
        invariant
            out@.len() + v@.len() == orig.len(),
            v@ =~= orig.skip(out@.len() as int),
            forall|j: int|
                0 <= j < out@.len() ==> thruster_bank_xformed(
                    *matrix,
                    orig[j],
                    #[trigger] out@[j],
                ),
        decreases v@.len(),
    {
        let mut b = v.remove(0);
        proof {
            assert(orig.skip(out@.len() as int)[0] == b);
        }
        let mut glows: Vec<ThrusterGlow> = Vec::new();
        core::mem::swap(&mut b.glows, &mut glows);
        let glows = xform_tglows(glows, matrix);
        b.glows = glows;
        out.push(b);
        proof {
            assert(v@ =~= orig.skip(out@.len() as int));
        }
    }
    out
}

fn xform_gpoints(v: Vec<GlowPoint>, matrix: &Mat4) -> (r: Vec<GlowPoint>)
    ensures
        r@.len() == v@.len(),
        forall|i: int| 0 <= i < v@.len() ==> gpoint_xformed(*matrix, v@[i], #[trigger] r@[i]),
{
    let ghost orig = v@;
    let mut v = v;
    let mut out: Vec<GlowPoint> = Vec::new();
    while v.len() > 0
        invariant
            out@.len() + v@.len() == orig.len(),
            v@ =~= orig.skip(out@.len() as int),
            forall|j: int|
                0 <= j < out@.len() ==> gpoint_xformed(*matrix, orig[j], #[trigger] out@[j]),
        decreases v@.len(),
    {
        let mut p = v.remove(0);
        proof {
            assert(orig.skip(out@.len() as int)[0] == p);
        }
        p.apply_transform(matrix);
        out.push(p);
        proof {
            assert(v@ =~= orig.skip(out@.len() as int));
        }
    }
    out
}

fn xform_glow_banks(v: Vec<GlowPointBank>, matrix: &Mat4) -> (r: Vec<GlowPointBank>)
    ensures
        r@.len() == v@.len(),
        forall|i: int| 0 <= i < v@.len() ==> glow_bank_xformed(*matrix, v@[i], #[trigger] r@[i]),
{
    let ghost orig = v@;
    let mut v = v;
    let mut out: Vec<GlowPointBank> = Vec::new();
    while v.len() > 0
        invariant
            out@.len() + v@.len() == orig.len(),
            v@ =~= orig.skip(out@.len() as int),
            forall|j: int|
                0 <= j < out@.len() ==> glow_bank_xformed(*matrix, orig[j], #[trigger] out@[j]),
        decreases v@.len(),
    {
        let mut b = v.remove(0);
        proof {
            assert(orig.skip(out@.len() as int)[0] == b);
        }
        let mut pts: Vec<GlowPoint> = Vec::new();
        core::mem::swap(&mut b.glow_points, &mut pts);
        let pts = xform_gpoints(pts, matrix);
        b.glow_points = pts;
        out.push(b);
        proof {
            assert(v@ =~= orig.skip(out@.len() as int));
        }
    }
    out
}

fn xform_docks(v: Vec<Dock>, matrix: &Mat4) -> (r: Vec<Dock>)
    ensures
        r@.len() == v@.len(),
        forall|i: int| 0 <= i < v@.len() ==> dock_xformed(*matrix, v@[i], #[trigger] r@[i]),
{
    let ghost orig = v@;
    let mut v = v;
    let mut out: Vec<Dock> = Vec::new();
    while v.len() > 0
        invariant
            out@.len() + v@.len() == orig.len(),
            v@ =~= orig.skip(out@.len() as int),
            forall|j: int| 0 <= j < out@.len() ==> dock_xformed(*matrix, orig[j], #[trigger] out@[j]),
        decreases v@.len(),
    {
        let mut p = v.remove(0);
        proof {
            assert(orig.skip(out@.len() as int)[0] == p);
        }
        p.apply_transform(matrix);
        out.push(p);
        proof {
            assert(v@ =~= orig.skip(out@.len() as int));
        }
    }
    out
}

fn xform_turrets(v: Vec<Turret>, matrix: &Mat4) -> (r: Vec<Turret>)
    ensures
        r@.len() == v@.len(),
        forall|i: int| 0 <= i < v@.len() ==> turret_xformed(*matrix, v@[i], #[trigger] r@[i]),
{
    let ghost orig = v@;
    let mut v = v;
    let mut out: Vec<Turret> = Vec::new();
    while v.len() > 0
        invariant
            out@.len() + v@.len() == orig.len(),
            v@ =~= orig.skip(out@.len() as int),
            forall|j: int|
                0 <= j < out@.len() ==> turret_xformed(*matrix, orig[j], #[trigger] out@[j]),
        decreases v@.len(),
    {
        let mut p = v.remove(0);
        proof {
            assert(orig.skip(out@.len() as int)[0] == p);
        }
        p.apply_transform(matrix);
        out.push(p);
        proof {
            assert(v@ =~= orig.skip(out@.len() as int));
        }
    }
    out
}

fn xform_insignias(v: Vec<Insignia>, matrix: &Mat4) -> (r: Vec<Insignia>)
    ensures
        r@.len() == v@.len(),
        forall|i: int| 0 <= i < v@.len() ==> insignia_xformed(*matrix, v@[i], #[trigger] r@[i]),
{
    let ghost orig = v@;
    let mut v = v;
    let mut out: Vec<Insignia> = Vec::new();
    while v.len() > 0
        invariant
            out@.len() + v@.len() == orig.len(),
            v@ =~= orig.skip(out@.len() as int),
            forall|j: int|
                0 <= j < out@.len() ==> insignia_xformed(*matrix, orig[j], #[trigger] out@[j]),
        decreases v@.len(),
    {
        let mut p = v.remove(0);
        proof {
            assert(orig.skip(out@.len() as int)[0] == p);
        }
        p.apply_transform(matrix);
        out.push(p);
        proof {
            assert(v@ =~= orig.skip(out@.len() as int));
        }
    }
    out
}

impl Default for Model {
    /// An empty model at the newest revision.
    fn default() -> (r: Self)
        ensures
            r.version == Version::V23_01,
            r.sub_objects@.len() == 0,
            r.textures@.len() == 0,
            r.paths@.len() == 0,
            r.warnings@.len() == 0,
            r.errors@.len() == 0,
            r.shield_data is None,
            r.untextured_idx is None,
    {
        Model {
            version: Version::V23_01,
            header: ObjHeader::default(),
            sub_objects: ObjVec::new(),
            textures: Vec::new(),
            paths: Vec::new(),
            special_points: Vec::new(),
            eye_points: Vec::new(),
            primary_weps: Vec::new(),
            secondary_weps: Vec::new(),
            turrets: Vec::new(),
            thruster_banks: Vec::new(),
            glow_banks: Vec::new(),
            visual_center: Vec3d::zero(),
            comments: String::new(),
            docking_bays: Vec::new(),
            insignias: Vec::new(),
            shield_data: None,
            untextured_idx: None,
            warnings: Vec::new(),
            errors: Vec::new(),
        }
    }
}

/// Equality of findings, comparing any carried name by its characters.
pub open spec fn error_matches(a: Error, b: Error) -> bool {
    match (a, b) {
        (Error::InvalidTurretGunSubobject(x), Error::InvalidTurretGunSubobject(y)) => x == y,
        (Error::TooManyDebrisObjects, Error::TooManyDebrisObjects) => true,
        (Error::DetailObjWithParent(x), Error::DetailObjWithParent(y)) => x == y,
        (Error::DetailAndDebrisObj(x), Error::DetailAndDebrisObj(y)) => x == y,
        (Error::TooManyVerts(x), Error::TooManyVerts(y)) => x == y,
        (Error::TooManyNorms(x), Error::TooManyNorms(y)) => x == y,
        (Error::UnnamedSubObject(x), Error::UnnamedSubObject(y)) => x == y,
        (Error::DuplicateSubobjectName(x), Error::DuplicateSubobjectName(y)) => x@ == y@,
        _ => false,
    }
}

/// Whether a finding list holds an entry matching the finding.
pub open spec fn errors_has(s: Seq<Error>, e: Error) -> bool {
    exists|k: int| 0 <= k < s.len() && error_matches(#[trigger] s[k], e)
}

/// How many objects bear the given name.
pub open spec fn name_count(objs: Seq<SubObject>, name: Seq<char>) -> int
    decreases objs.len(),
{
    if objs.len() == 0 {
        0
    } else {
        name_count(objs.drop_last(), name) + if objs.last().name@ == name {
            1int
        } else {
            0int
        }
    }
}

/// A turret whose gun object is neither its base object nor one of the
/// base's immediate children (an out-of-table base can vouch for nothing).
pub open spec fn turret_gun_invalid(objs: Seq<SubObject>, t: Turret) -> bool {
    t.base_obj != t.gun_obj && (!(t.base_obj.0 < objs.len())
        || !objs[t.base_obj.0 as int].children@.contains(t.gun_obj))
}

/// Whether one fatal finding currently holds of the model's data.
pub open spec fn error_active_spec(m: Model, e: Error) -> bool {
    let objs = m.sub_objects@;
    match e {
        Error::InvalidTurretGunSubobject(t) => t < m.turrets@.len() && turret_gun_invalid(
            objs,
            m.turrets@[t as int],
        ),
        Error::TooManyDebrisObjects => debris_count(objs) > crate::entities::MAX_DEBRIS_OBJECTS,
        Error::DetailObjWithParent(id) => m.header.detail_levels@.contains(id) && id.0 < objs.len()
            && objs[id.0 as int].parent is Some,
        Error::DetailAndDebrisObj(id) => m.header.detail_levels@.contains(id) && id.0 < objs.len()
            && objs[id.0 as int].is_debris_model,
        Error::TooManyVerts(id) => id.0 < objs.len() && objs[id.0 as int].bsp_data.verts@.len()
            > max_verts_limit(m.version),
        Error::TooManyNorms(id) => id.0 < objs.len() && objs[id.0 as int].bsp_data.norms@.len()
            > max_verts_limit(m.version),
        Error::UnnamedSubObject(id) => id.0 < objs.len() && objs[id.0 as int].name@.len() == 0,
        Error::DuplicateSubobjectName(name) => name_count(objs, name@) > 1,
    }
}

impl Model {
    /// Whether one fatal finding currently holds: the single source of truth
    /// both recheck modes consult.
    pub fn error_check(&self, e: &Error) -> (r: bool)
        requires
            self.sub_objects@.len() <= u32::MAX,
        ensures
            r == error_active_spec(*self, *e),
    {
        let n = self.sub_objects.len();
        match e {
            Error::InvalidTurretGunSubobject(t) => {
                if !(*t < self.turrets.len()) {
                    return false;
                }
                let tr = &self.turrets[*t];
                if tr.base_obj == tr.gun_obj {
                    return false;
                }
                let base = tr.base_obj;
                let gun = tr.gun_obj;
                if !((base.0 as usize) < n) {
                    return true;
                }
                let kids = &self.sub_objects.at(base).children;
                let mut k: usize = 0;
                while k < kids.len()
                    invariant
                        0 <= k <= kids@.len(),
                        *t < self.turrets@.len(),
                        self.turrets@[*t as int].base_obj == base,
                        self.turrets@[*t as int].gun_obj == gun,
                        base != gun,
                        base.0 < self.sub_objects@.len(),
                        kids@ == self.sub_objects@[base.0 as int].children@,
                        *e == Error::InvalidTurretGunSubobject(*t),
                        forall|j: int| 0 <= j < k ==> kids@[j] != gun,
                    decreases kids@.len() - k,
                {
                    if kids[k] == gun {
                        proof {
                            assert(kids@[k as int] == gun);
                            assert(kids@.contains(gun));
                        }
                        return false;
                    }
                    k += 1;
                }
                proof {
                    assert(!kids@.contains(gun));
                }
                true
            },
            Error::TooManyDebrisObjects => self.num_debris_objects()
                > crate::entities::MAX_DEBRIS_OBJECTS,
            Error::DetailObjWithParent(id) => self.detail_level_listed(*id) && (id.0 as usize) < n
                && self.sub_objects.at(*id).parent.is_some(),
            Error::DetailAndDebrisObj(id) => self.detail_level_listed(*id) && (id.0 as usize) < n
                && self.sub_objects.at(*id).is_debris_model,
            Error::TooManyVerts(id) => (id.0 as usize) < n && self.sub_objects.at(
                *id,
            ).bsp_data.verts.len() > self.max_verts_norms_per_subobj(),
            Error::TooManyNorms(id) => (id.0 as usize) < n && self.sub_objects.at(
                *id,
            ).bsp_data.norms.len() > self.max_verts_norms_per_subobj(),
            Error::UnnamedSubObject(id) => (id.0 as usize) < n && self.sub_objects.at(
                *id,
            ).name.as_str().unicode_len() == 0,
            Error::DuplicateSubobjectName(name) => self.count_named(name.as_str()) > 1,
        }
    }

    /// Whether an id appears in the header's detail-level list.
    fn detail_level_listed(&self, id: ObjectId) -> (r: bool)
        ensures
            r == self.header.detail_levels@.contains(id),
    {
        let mut k: usize = 0;
        while k < self.header.detail_levels.len()
            invariant
                0 <= k <= self.header.detail_levels@.len(),
                forall|j: int| 0 <= j < k ==> self.header.detail_levels@[j] != id,
            decreases self.header.detail_levels@.len() - k,
        {
            if self.header.detail_levels[k] == id {
                return true;
            }
            k += 1;
        }
        false
    }

    /// How many subobjects bear the given name.
    fn count_named(&self, name: &str) -> (r: usize)
        requires
            self.sub_objects@.len() <= u32::MAX,
        ensures
            r == name_count(self.sub_objects@, name@),
    {
        let n = self.sub_objects.len();
        let mut count: usize = 0;
        let mut k: usize = 0;
        while k < n
            invariant
                0 <= k <= n,
                n == self.sub_objects@.len() <= u32::MAX,
                count <= k,
                count == name_count(self.sub_objects@.take(k as int), name@),
            decreases n - k,
        {
            proof {
                assert(self.sub_objects@.take(k + 1 as int).drop_last() =~= self.sub_objects@.take(
                    k as int,
                ));
            }
            if str_eq(self.sub_objects.at(ObjectId(k as u32)).name.as_str(), name) {
                count += 1;
            }
            k += 1;
        }
        proof {
            assert(self.sub_objects@.take(n as int) =~= self.sub_objects@);
        }
        count
    }

    /// Rechecks one fatal finding: adds it when its condition holds and it
    /// is absent, removes it when the condition fails; other findings are
    /// untouched.
    pub fn recheck_error(&mut self, error_to_check: &Error)
        requires
            old(self).sub_objects@.len() <= u32::MAX,
        ensures
            *final(self) == (Model { errors: final(self).errors, ..*old(self) }),
            errors_has(final(self).errors@, *error_to_check) == error_active_spec(
                *old(self),
                *error_to_check,
            ),
            forall|e2: Error|
                !error_matches(e2, *error_to_check) ==> (errors_has(final(self).errors@, e2)
                    <==> errors_has(old(self).errors@, e2)),
    {
        let failed_check = self.error_check(error_to_check);
        let ghost before = self.errors@;
        if failed_check {
            if !self.errors_contains(error_to_check) {
                self.errors.push(error_to_check.clone_error());
                proof {
                    let k = self.errors@.len() - 1;
                    assert(error_matches(self.errors@[k], *error_to_check));
                    assert forall|e2: Error|
                        !error_matches(e2, *error_to_check) implies (errors_has(
                        self.errors@,
                        e2,
                    ) <==> errors_has(before, e2)) by {
                        if errors_has(self.errors@, e2) {
                            let k2 = choose|k2: int|
                                0 <= k2 < self.errors@.len() && error_matches(
                                    #[trigger] self.errors@[k2],
                                    e2,
                                );
                            if k2 < before.len() {
                                assert(errors_has(before, e2));
                            } else {
                                lemma_error_matches_sym(self.errors@[k2], e2, *error_to_check);
                            }
                        }
                        if errors_has(before, e2) {
                            let k2 = choose|k2: int|
                                0 <= k2 < before.len() && error_matches(
                                    #[trigger] before[k2],
                                    e2,
                                );
                            assert(error_matches(self.errors@[k2], e2));
                        }
                    }
                }
            }
        } else {
            self.errors_remove(error_to_check);
        }
    }

    /// Whether the finding list already holds a matching entry.
    fn errors_contains(&self, e: &Error) -> (r: bool)
        ensures
            r == errors_has(self.errors@, *e),
    {
        let mut k: usize = 0;
        while k < self.errors.len()
            invariant
                0 <= k <= self.errors@.len(),
                forall|j: int| 0 <= j < k ==> !error_matches(#[trigger] self.errors@[j], *e),
            decreases self.errors@.len() - k,
        {
            if error_eq(&self.errors[k], e) {
                return true;
            }
            k += 1;
        }
        false
    }

    /// Removes every entry matching the finding.
    fn errors_remove(&mut self, e: &Error)
        ensures
            *final(self) == (Model { errors: final(self).errors, ..*old(self) }),
            !errors_has(final(self).errors@, *e),
            forall|e2: Error|
                !error_matches(e2, *e) ==> (errors_has(final(self).errors@, e2) <==> errors_has(
                    old(self).errors@,
                    e2,
                )),
    {
        let ghost before = self.errors@;
        let mut kept: Vec<Error> = Vec::new();
        let n = self.errors.len();
        let mut k: usize = 0;
        while k < n
            invariant
                0 <= k <= n,
                n == self.errors@.len(),
                self.errors@ == before,
                forall|j: int|
                    0 <= j < kept@.len() ==> !error_matches(#[trigger] kept@[j], *e),
                forall|j: int|
                    0 <= j < kept@.len() ==> exists|j2: int|
                        0 <= j2 < k && #[trigger] kept@[j] == before[j2],
                forall|j2: int|
                    0 <= j2 < k && !error_matches(#[trigger] before[j2], *e) ==> exists|j: int|
                        0 <= j < kept@.len() && kept@[j] == before[j2],
            decreases n - k,
        {
            let ghost old_kept = kept@;
            if !error_eq(&self.errors[k], e) {
                kept.push(self.errors[k].clone_error());
                proof {
                    assert(kept@[kept@.len() - 1] == before[k as int]);
                }
            }
            proof {
                assert forall|j2: int|
                    0 <= j2 < k + 1 && !error_matches(#[trigger] before[j2], *e) implies exists|
                    j: int,
                |
                    0 <= j < kept@.len() && kept@[j] == before[j2] by {
                    if j2 < k {
                        let j = choose|j: int|
                            0 <= j < old_kept.len() && #[trigger] old_kept[j] == before[j2];
                        assert(kept@[j] == before[j2]);
                    } else {
                        assert(kept@[kept@.len() - 1] == before[k as int]);
                    }
                }
            }
            k += 1;
        }
        self.errors = kept;
        proof {
            assert forall|e2: Error|
                !error_matches(e2, *e) implies (errors_has(self.errors@, e2) <==> errors_has(
                before,
                e2,
            )) by {
                if errors_has(self.errors@, e2) {
                    let j = choose|j: int|
                        0 <= j < self.errors@.len() && error_matches(
                            #[trigger] self.errors@[j],
                            e2,
                        );
                    let j2 = choose|j2: int|
                        0 <= j2 < n && #[trigger] self.errors@[j] == before[j2];
                    assert(error_matches(before[j2], e2));
                }
                if errors_has(before, e2) {
                    let j2 = choose|j2: int|
                        0 <= j2 < before.len() && error_matches(#[trigger] before[j2], e2);
                    assert(!error_matches(before[j2], *e)) by {
                        lemma_error_matches_sym(before[j2], e2, *e);
                    }
                    let j = choose|j: int|
                        0 <= j < self.errors@.len() && #[trigger] self.errors@[j] == before[j2];
                    assert(error_matches(self.errors@[j], e2));
                }
            }
        }
    }
}

/// Matching is transitive through a shared middle value.
proof fn lemma_error_matches_sym(a: Error, b: Error, c: Error)
    ensures
        error_matches(a, b) && error_matches(a, c) ==> error_matches(b, c),
        error_matches(a, b) && !error_matches(b, c) ==> !error_matches(a, c),
{
}

/// A deep copy of one finding.
fn error_eq(a: &Error, b: &Error) -> (r: bool)
    ensures
        r == error_matches(*a, *b),
{
    match (a, b) {
        (Error::InvalidTurretGunSubobject(x), Error::InvalidTurretGunSubobject(y)) => x == y,
        (Error::TooManyDebrisObjects, Error::TooManyDebrisObjects) => true,
        (Error::DetailObjWithParent(x), Error::DetailObjWithParent(y)) => x == y,
        (Error::DetailAndDebrisObj(x), Error::DetailAndDebrisObj(y)) => x == y,
        (Error::TooManyVerts(x), Error::TooManyVerts(y)) => x == y,
        (Error::TooManyNorms(x), Error::TooManyNorms(y)) => x == y,
        (Error::UnnamedSubObject(x), Error::UnnamedSubObject(y)) => x == y,
        (Error::DuplicateSubobjectName(x), Error::DuplicateSubobjectName(y)) => str_eq(
            x.as_str(),
            y.as_str(),
        ),
        _ => false,
    }
}

impl Error {
    /// A copy equal to the original.
    fn clone_error(&self) -> (r: Error)
        ensures
            r == *self,
    {
        match self {
            Error::InvalidTurretGunSubobject(x) => Error::InvalidTurretGunSubobject(*x),
            Error::TooManyDebrisObjects => Error::TooManyDebrisObjects,
            Error::DetailObjWithParent(x) => Error::DetailObjWithParent(*x),
            Error::DetailAndDebrisObj(x) => Error::DetailAndDebrisObj(*x),
            Error::TooManyVerts(x) => Error::TooManyVerts(*x),
            Error::TooManyNorms(x) => Error::TooManyNorms(*x),
            Error::UnnamedSubObject(x) => Error::UnnamedSubObject(*x),
            Error::DuplicateSubobjectName(x) => Error::DuplicateSubobjectName(x.clone()),
        }
    }
}

/// How many objects of a table are debris pieces.
pub open spec fn debris_count(s: Seq<SubObject>) -> int
    decreases s.len(),
{
    if s.len() == 0 {
        0
    } else {
        debris_count(s.drop_last()) + if s.last().is_debris_model {
            1int
        } else {
            0int
        }
    }
}

/// The vertex/normal pool limit of a revision.
pub open spec fn max_verts_limit(v: Version) -> int {
    if version_code(v) >= 2300 {
        0xffff_ffff
    } else {
        0xffff
    }
}

/// One docking bay after a path removal: a reference to the removed path is
/// cleared, later references shift down one, earlier ones are untouched.
pub open spec fn dock_fixed_up(a: Dock, b: Dock, removed: PathId) -> bool {
    &&& b.properties@ == a.properties@
    &&& b.position == a.position
    &&& b.fvec == a.fvec
    &&& b.uvec == a.uvec
    &&& b.path == (match a.path {
        Some(p) => if p == removed {
            None
        } else if p.0 > removed.0 {
            Some(PathId((p.0 - 1) as u32))
        } else {
            Some(p)
        },
        None => None::<PathId>,
    })
}

} // verus!
