use pof::bbox::{Axis, BoundingBox};
use pof::bsp::{BspData, BspNode, PolyVertex, Polygon};
use pof::codec::Writer;
use pof::entities::{SubsysRotationAxis, SubsysRotationType, NameLink, WeaponHardpoint};
use pof::ids::{NormalId, ObjVec, ObjectId, PathId, TextureId, VertexId};
use pof::model::{Error, Model, SubObject};
use pof::props::{
    properties_delete_field, properties_get_field, properties_set_flag, properties_update_field,
};
use pof::scalar::Scalar;
use pof::shield::{ShieldData, ShieldNode, ShieldPolygon};
use pof::vec3d::{Mat3d, Mat4, NormalVec3, UpAxis, Vec3d};
use pof::version::Version;

fn s(x: f32) -> Scalar {
    Scalar(x.to_bits())
}

fn f(x: Scalar) -> f32 {
    f32::from_bits(x.0)
}

fn v3(x: f32, y: f32, z: f32) -> Vec3d {
    Vec3d { x: s(x), y: s(y), z: s(z) }
}

fn fv(v: Vec3d) -> (f32, f32, f32) {
    (f(v.x), f(v.y), f(v.z))
}

#[test]
fn scalar_order_matches_native_comparison() {
    let samples: Vec<f32> = vec![
        0.0,
        -0.0,
        1.0,
        -1.0,
        1.5,
        -2.25,
        f32::INFINITY,
        f32::NEG_INFINITY,
        f32::NAN,
        f32::MIN_POSITIVE,
        -f32::MIN_POSITIVE,
        1e-40,
        -1e-40,
        3.4e38,
    ];
    for &a in &samples {
        for &b in &samples {
            assert_eq!(s(a).lt(s(b)), a < b, "lt mismatch for {a} {b}");
            assert_eq!(s(a).le(s(b)), a <= b, "le mismatch for {a} {b}");
            assert_eq!(s(a).feq(s(b)), a == b, "eq mismatch for {a} {b}");
        }
    }
}

#[test]
fn scalar_min_max_match_native() {
    let samples: Vec<f32> = vec![0.0, 1.0, -1.0, f32::INFINITY, f32::NEG_INFINITY, f32::NAN, 2.5];
    for &a in &samples {
        for &b in &samples {
            let m = f(s(a).fmin(s(b)));
            let native = a.min(b);
            assert_eq!(m.is_nan(), native.is_nan());
            if !native.is_nan() {
                assert_eq!(m, native, "min mismatch for {a} {b}");
            }
            let m = f(s(a).fmax(s(b)));
            let native = a.max(b);
            assert_eq!(m.is_nan(), native.is_nan());
            if !native.is_nan() {
                assert_eq!(m, native, "max mismatch for {a} {b}");
            }
        }
    }
}

#[test]
fn scalar_arithmetic_matches_native() {
    let samples: Vec<f32> = vec![0.0, 1.0, -1.0, 2.5, -3.75, 1e10, 1e-10];
    for &a in &samples {
        for &b in &samples {
            assert_eq!(f(s(a).fadd(s(b))).to_bits(), (a + b).to_bits());
            assert_eq!(f(s(a).fsub(s(b))).to_bits(), (a - b).to_bits());
            assert_eq!(f(s(a).fmul(s(b))).to_bits(), (a * b).to_bits());
        }
    }
    assert_eq!(f(s(9.0).fsqrt()), 3.0);
    assert_eq!(f(s(2.0).fneg()), -2.0);
    assert_eq!(f(s(-2.0).fabs()), 2.0);
}

#[test]
fn vector_ops_exact_values() {
    let a = v3(1.0, 2.0, 3.0);
    let b = v3(4.0, 5.0, 6.0);
    assert_eq!(fv(a.vadd(b)), (5.0, 7.0, 9.0));
    assert_eq!(fv(a.vsub(b)), (-3.0, -3.0, -3.0));
    assert_eq!(f(a.dot(&b)), 32.0);
    assert_eq!(fv(a.cross(&b)), (-3.0, 6.0, -3.0));
    assert_eq!(f(v3(3.0, 4.0, 0.0).magnitude()), 5.0);
    let n = v3(0.0, 0.0, 8.0).normalize();
    assert_eq!(fv(n), (0.0, 0.0, 1.0));
    assert!(v3(0.0, 0.0, 0.0).is_null());
    assert!(!v3(0.1, 0.0, 0.0).is_null());
    let avg = Vec3d::average(&vec![v3(0.0, 0.0, 0.0), v3(2.0, 4.0, 6.0)]);
    assert_eq!(fv(avg), (1.0, 2.0, 3.0));
}

#[test]
fn bbox_expand_contains_and_dimensions() {
    let mut b = BoundingBox::empty();
    b.expand_vec(v3(-1.0, 0.0, 2.0));
    b.expand_vec(v3(3.0, -2.0, 5.0));
    assert_eq!(fv(b.min), (-1.0, -2.0, 2.0));
    assert_eq!(fv(b.max), (3.0, 0.0, 5.0));
    assert!(b.contains(v3(0.0, -1.0, 3.0)));
    assert!(!b.contains(v3(4.0, 0.0, 3.0)));
    // a NaN component never escapes containment
    assert!(b.contains(v3(f32::NAN, -1.0, 3.0)));
    assert!(matches!(b.greatest_dimension(), Axis::X));
    assert_eq!(f(b.volume()), 4.0 * 2.0 * 3.0);
    assert!(!b.is_inverted());
    let inv = BoundingBox { min: v3(1.0, 0.0, 0.0), max: v3(0.0, 1.0, 1.0) };
    assert!(inv.is_inverted());
    assert_eq!(f(inv.volume()), 0.0);
    // the empty sentinel sanitizes to the all-zero box
    let z = BoundingBox::empty().sanitize();
    assert_eq!(fv(z.min), (0.0, 0.0, 0.0));
    assert_eq!(fv(z.max), (0.0, 0.0, 0.0));
}

fn tri(verts: &[u32; 3]) -> Polygon {
    Polygon {
        normal: v3(0.0, 0.0, 0.0),
        texture: TextureId(0),
        verts: verts
            .iter()
            .map(|&v| PolyVertex {
                vertex_id: VertexId(v),
                normal_id: NormalId(0),
                uv: (s(0.0), s(0.0)),
            })
            .collect(),
    }
}

fn sample_tree() -> (Vec<Vec3d>, BspNode) {
    let verts = vec![
        v3(0.0, 0.0, 0.0),
        v3(1.0, 0.0, 0.0),
        v3(0.0, 1.0, 0.0),
        v3(5.0, 0.0, 0.0),
        v3(6.0, 0.0, 0.0),
        v3(5.0, 1.0, 0.0),
        v3(0.0, 5.0, 2.0),
        v3(1.0, 5.0, 2.0),
        v3(0.0, 6.0, 2.0),
    ];
    let polys = vec![tri(&[0, 1, 2]), tri(&[3, 4, 5]), tri(&[6, 7, 8])];
    let tree = BspData::recalculate(&verts, polys);
    (verts, tree)
}

fn check_tight(node: &BspNode, verts: &[Vec3d]) {
    match node {
        BspNode::Split { bbox, front, back } => {
            for child in [front.as_ref(), back.as_ref()] {
                check_tight(child, verts);
            }
            for (_, poly) in collect_leaves(node) {
                for pv in &poly.verts {
                    assert!(bbox.contains(verts[pv.vertex_id.0 as usize]));
                }
            }
        }
        BspNode::Leaf { bbox, poly } => {
            for pv in &poly.verts {
                assert!(bbox.contains(verts[pv.vertex_id.0 as usize]));
            }
        }
        BspNode::Empty => {}
    }
}

fn collect_leaves(node: &BspNode) -> Vec<(BoundingBox, Polygon)> {
    match node {
        BspNode::Split { front, back, .. } => {
            let mut out = collect_leaves(front);
            out.extend(collect_leaves(back));
            out
        }
        BspNode::Leaf { bbox, poly } => vec![(*bbox, poly.clone())],
        BspNode::Empty => vec![],
    }
}

#[test]
fn tree_construction_conserves_leaves_and_is_tight() {
    let (verts, tree) = sample_tree();
    // leaf count conservation: three primitives in, three leaves out
    assert_eq!(tree.leaf_count(), 3);
    check_tight(&tree, &verts);
    // empty input yields the empty tree and zero leaves
    let empty = BspData::recalculate(&verts, vec![]);
    assert!(matches!(empty, BspNode::Empty));
    assert_eq!(empty.leaf_count(), 0);
    // a single primitive yields one leaf
    let one = BspData::recalculate(&verts, vec![tri(&[0, 1, 2])]);
    assert_eq!(one.leaf_count(), 1);
}

#[test]
fn tree_construction_derives_normals() {
    let verts = vec![v3(0.0, 0.0, 0.0), v3(1.0, 0.0, 0.0), v3(0.0, 1.0, 0.0)];
    let tree = BspData::recalculate(&verts, vec![tri(&[0, 1, 2])]);
    let leaves = collect_leaves(&tree);
    // (a-b) x (b-c) for the triangle above points along +z, normalized
    assert_eq!(fv(leaves[0].1.normal), (0.0, 0.0, 1.0));
}

#[test]
fn bbox_recompute_is_idempotent() {
    let (verts, mut tree) = sample_tree();
    tree.recalculate_bboxes(&verts);
    let once = collect_leaves(&tree)
        .iter()
        .map(|(b, _)| (fv(b.min), fv(b.max)))
        .collect::<Vec<_>>();
    let root_once = tree.bbox();
    tree.recalculate_bboxes(&verts);
    let twice = collect_leaves(&tree)
        .iter()
        .map(|(b, _)| (fv(b.min), fv(b.max)))
        .collect::<Vec<_>>();
    let root_twice = tree.bbox();
    assert_eq!(once, twice);
    assert_eq!(fv(root_once.min), fv(root_twice.min));
    assert_eq!(fv(root_once.max), fv(root_twice.max));
    check_tight(&tree, &verts);
}

#[test]
fn shield_tree_conserves_ids() {
    let verts = vec![
        v3(0.0, 0.0, 0.0),
        v3(1.0, 0.0, 0.0),
        v3(0.0, 1.0, 0.0),
        v3(4.0, 0.0, 0.0),
        v3(5.0, 0.0, 0.0),
        v3(4.0, 1.0, 0.0),
    ];
    let polys = vec![
        ShieldPolygon {
            normal: v3(0.0, 0.0, 1.0),
            verts: (VertexId(0), VertexId(1), VertexId(2)),
            neighbors: (pof::ids::PolygonId(1), pof::ids::PolygonId(1), pof::ids::PolygonId(1)),
        },
        ShieldPolygon {
            normal: v3(0.0, 0.0, 1.0),
            verts: (VertexId(3), VertexId(4), VertexId(5)),
            neighbors: (pof::ids::PolygonId(0), pof::ids::PolygonId(0), pof::ids::PolygonId(0)),
        },
    ];
    let tree = ShieldData::recalculate_tree(&verts, &polys);
    assert_eq!(tree.id_count(), 2);
    // empty input: a single leaf with no ids and the all-zero box
    let empty = ShieldData::recalculate_tree(&verts, &vec![]);
    match &empty {
        ShieldNode::Leaf { bbox, poly_list } => {
            assert!(poly_list.is_empty());
            assert_eq!(fv(bbox.min), (0.0, 0.0, 0.0));
        }
        _ => panic!("empty shield input must yield a leaf"),
    }
}

#[test]
fn properties_mini_format_round_trip() {
    let mut props = String::new();
    properties_update_field(&mut props, "$special", "subsystem");
    assert_eq!(props, "$special=subsystem");
    assert_eq!(properties_get_field(&props, "$special"), Some("subsystem"));
    properties_update_field(&mut props, "$name", "engine01");
    assert_eq!(props, "$special=subsystem\n$name=engine01");
    assert_eq!(properties_get_field(&props, "$name"), Some("engine01"));
    properties_update_field(&mut props, "$special", "turret");
    assert_eq!(props, "$special=turret\n$name=engine01");
    properties_delete_field(&mut props, "$special");
    assert_eq!(props, "$name=engine01");
    properties_set_flag(&mut props, "$nocollide");
    assert_eq!(props, "$name=engine01\n$nocollide");
    properties_set_flag(&mut props, "$nocollide");
    assert_eq!(props, "$name=engine01\n$nocollide");
    pof::props::properties_remove_flag(&mut props, "$nocollide");
    assert_eq!(props, "$name=engine01");
    assert_eq!(properties_get_field(&props, "$absent"), None);
    // colon and whitespace separators
    assert_eq!(properties_get_field("$key: value\nrest", "$key"), Some("value"));
}

#[test]
fn version_codes_and_labels() {
    assert_eq!(Version::V21_17.code(), 2117);
    assert_eq!(Version::from_code(2200), Some(Version::V22_00));
    assert_eq!(Version::from_code(1234), None);
    assert_eq!(Version::latest(), Version::V23_01);
    assert_eq!(Version::V19_00.to_str(), "19.00");
    assert_eq!(Version::default(), Version::V23_01);
}

#[test]
fn writer_primitives_little_endian() {
    let mut w = Writer::new(Version::V22_01);
    w.write_u32(0x0403_0201);
    assert_eq!(w.out, vec![1, 2, 3, 4]);
    w.write_i32(-1);
    assert_eq!(&w.out[4..], &[0xff, 0xff, 0xff, 0xff]);
    let mut w = Writer::new(Version::V22_01);
    w.write_str("hi");
    assert_eq!(w.out, vec![2, 0, 0, 0, b'h', b'i']);
    let mut w = Writer::new(Version::V22_01);
    v3(1.0, 2.0, 3.0).write_to(&mut w);
    let mut expect = vec![];
    for x in [1.0f32, 2.0, 3.0] {
        expect.extend(x.to_bits().to_le_bytes());
    }
    assert_eq!(w.out, expect);
}

#[test]
fn weapon_offset_version_gating() {
    let hp = WeaponHardpoint {
        position: v3(1.0, 2.0, 3.0),
        normal: NormalVec3(v3(0.0, 0.0, 1.0)),
        offset: s(0.5),
    };
    // below the offset's introduction the field is absent
    let mut w = Writer::new(Version::V21_17);
    hp.write_to(&mut w);
    assert_eq!(w.out.len(), 24);
    // from 21.18 on it is present
    let mut w = Writer::new(Version::V21_18);
    hp.write_to(&mut w);
    assert_eq!(w.out.len(), 28);
    assert_eq!(&w.out[24..], &0.5f32.to_bits().to_le_bytes());
    // the second-generation shield revision dropped it
    let mut w = Writer::new(Version::V22_00);
    hp.write_to(&mut w);
    assert_eq!(w.out.len(), 24);
    // and the next revision restored it
    let mut w = Writer::new(Version::V22_01);
    hp.write_to(&mut w);
    assert_eq!(w.out.len(), 28);
}

#[test]
fn subobject_field_order_swaps_at_2116() {
    let mut so = SubObject::default();
    so.radius = s(7.0);
    so.offset = v3(1.0, 0.0, 0.0);
    let mut old = Writer::new(Version::V20_14);
    so.write_to(&mut old);
    let mut new = Writer::new(Version::V21_16);
    so.write_to(&mut new);
    // old order: id, parent, offset, radius; new order: id, radius, parent, offset
    assert_eq!(&old.out[4..8], &[0xff, 0xff, 0xff, 0xff]); // absent parent sentinel
    assert_eq!(&new.out[4..8], &7.0f32.to_bits().to_le_bytes()); // radius first
    assert_eq!(&old.out[20..24], &7.0f32.to_bits().to_le_bytes()); // radius last
}

fn model_with_names(names: &[(&str, Option<u32>)]) -> Model {
    let mut m = Model::default();
    for (i, (name, parent)) in names.iter().enumerate() {
        let mut so = SubObject::default();
        so.obj_id = ObjectId(i as u32);
        so.name = name.to_string();
        so.parent = parent.map(ObjectId);
        m.sub_objects.push(so);
    }
    m
}

#[test]
fn ancestry_and_cycle_detection() {
    // chain 2 -> 1 -> 0
    let mut m = model_with_names(&[("a", None), ("b", Some(0)), ("c", Some(1))]);
    assert_eq!(m.is_obj_id_ancestor(ObjectId(2), ObjectId(0)), Ok(true));
    assert_eq!(m.is_obj_id_ancestor(ObjectId(2), ObjectId(2)), Ok(true));
    assert_eq!(m.is_obj_id_ancestor(ObjectId(0), ObjectId(2)), Ok(false));
    // a cycle must surface the fatal fault rather than loop forever
    m.sub_objects.at_mut(ObjectId(0)).parent = Some(ObjectId(2));
    assert!(m.is_obj_id_ancestor(ObjectId(2), ObjectId(9)).is_err());
    // two-object cycle
    let mut m2 = model_with_names(&[("a", Some(1)), ("b", Some(0))]);
    assert!(m2.is_obj_id_ancestor(ObjectId(0), ObjectId(5)).is_err());
}

#[test]
fn total_offset_accumulates_ancestors() {
    let mut m = model_with_names(&[("a", None), ("b", Some(0))]);
    m.sub_objects.at_mut(ObjectId(0)).offset = v3(1.0, 0.0, 0.0);
    m.sub_objects.at_mut(ObjectId(1)).offset = v3(0.0, 2.0, 0.0);
    let total = m.get_total_subobj_offset(ObjectId(1)).unwrap();
    assert_eq!(fv(total), (1.0, 2.0, 0.0));
}

#[test]
fn children_recompute_from_parents() {
    let mut m = model_with_names(&[("a", None), ("b", Some(0)), ("c", Some(0)), ("d", Some(2))]);
    m.recalc_all_children_ids();
    assert_eq!(m.sub_objects.at(ObjectId(0)).children, vec![ObjectId(1), ObjectId(2)]);
    assert_eq!(m.sub_objects.at(ObjectId(2)).children, vec![ObjectId(3)]);
    assert!(m.sub_objects.at(ObjectId(1)).children.is_empty());
}

#[test]
fn name_links_debris_destroyed_and_detail() {
    let mut m = model_with_names(&[
        ("hull", None),
        ("debris-hull01", None),
        ("turret-destroyed", None),
        ("turret", None),
        ("wingat", Some(0)),
        ("wingbt", Some(0)),
    ]);
    m.recalc_semantic_name_links();
    let links = |i: u32| m.sub_objects.at(ObjectId(i)).name_links.clone();
    assert!(links(0).contains(&NameLink::LiveDebris(ObjectId(1))));
    assert!(links(1).contains(&NameLink::LiveDebrisOf(ObjectId(0))));
    assert!(links(3).contains(&NameLink::DestroyedVersion(ObjectId(2))));
    assert!(links(2).contains(&NameLink::DestroyedVersionOf(ObjectId(3))));
    assert!(m.sub_objects.at(ObjectId(2)).is_destroyed_model());
    // detail pair at level 1, with the reciprocal back-link
    assert!(links(4).contains(&NameLink::DetailLevel(ObjectId(5), 1)));
    assert!(links(5).contains(&NameLink::DetailLevelOf(ObjectId(4), 1)));
    // top-level objects (no parent) never form detail pairs
    let mut m2 = model_with_names(&[("wingat", None), ("wingbt", None)]);
    m2.recalc_semantic_name_links();
    assert!(m2.sub_objects.at(ObjectId(0)).name_links.is_empty());
}

fn subobject_with_square() -> SubObject {
    let mut so = SubObject::default();
    so.bsp_data.verts = vec![
        v3(1.0, 0.0, 0.0),
        v3(0.0, 1.0, 0.0),
        v3(-1.0, 0.0, 0.0),
        v3(0.0, -1.0, 0.0),
    ];
    so.bsp_data.norms = vec![v3(1.0, 0.0, 0.0), v3(0.0, 1.0, 0.0)];
    let polys = vec![tri(&[0, 1, 2]), tri(&[0, 2, 3])];
    so.bsp_data.collision_tree = BspData::recalculate(&so.bsp_data.verts, polys);
    so
}

fn scale_matrix(sx: f32, sy: f32, sz: f32) -> Mat4 {
    Mat4 {
        linear: Mat3d {
            rvec: v3(sx, 0.0, 0.0),
            uvec: v3(0.0, sy, 0.0),
            fvec: v3(0.0, 0.0, sz),
        },
        translation: v3(0.0, 0.0, 0.0),
    }
}

#[test]
fn normal_transform_uses_inverse_transpose() {
    let mut so = subobject_with_square();
    // non-uniform scale: x doubled; the x normal must stay (1,0,0), not double
    let m = scale_matrix(2.0, 1.0, 1.0);
    pof::model::transform_subobject(&mut so, &m, true).unwrap();
    assert_eq!(fv(so.bsp_data.norms[0]), (1.0, 0.0, 0.0));
    assert_eq!(fv(so.bsp_data.norms[1]), (0.0, 1.0, 0.0));
    assert_eq!(fv(so.bsp_data.verts[0]), (2.0, 0.0, 0.0));
}

#[test]
fn transform_round_trip_restores_vertices_and_leaves() {
    let mut so = subobject_with_square();
    let before = so.bsp_data.verts.clone();
    let leaves_before = so.bsp_data.collision_tree.leaf_count();
    pof::model::transform_subobject(&mut so, &scale_matrix(2.0, 4.0, 1.0), true).unwrap();
    pof::model::transform_subobject(&mut so, &scale_matrix(0.5, 0.25, 1.0), true).unwrap();
    for (a, b) in before.iter().zip(so.bsp_data.verts.iter()) {
        let (ax, ay, az) = fv(*a);
        let (bx, by, bz) = fv(*b);
        assert!((ax - bx).abs() < 1e-5 && (ay - by).abs() < 1e-5 && (az - bz).abs() < 1e-5);
    }
    assert_eq!(so.bsp_data.collision_tree.leaf_count(), leaves_before);
}

#[test]
fn singular_transform_is_rejected() {
    let mut so = subobject_with_square();
    let before = so.bsp_data.verts.clone();
    let r = pof::model::transform_subobject(&mut so, &scale_matrix(0.0, 1.0, 1.0), true);
    assert!(r.is_err());
    assert_eq!(
        before.iter().map(|v| fv(*v)).collect::<Vec<_>>(),
        so.bsp_data.verts.iter().map(|v| fv(*v)).collect::<Vec<_>>()
    );
}

#[test]
fn subobject_transform_recurses_to_children() {
    let mut m = model_with_names(&[("a", None), ("b", Some(0))]);
    *m.sub_objects.at_mut(ObjectId(0)) = {
        let mut so = subobject_with_square();
        so.obj_id = ObjectId(0);
        so.name = "a".to_string();
        so.children = vec![ObjectId(1)];
        so
    };
    *m.sub_objects.at_mut(ObjectId(1)) = {
        let mut so = subobject_with_square();
        so.obj_id = ObjectId(1);
        so.name = "b".to_string();
        so.parent = Some(ObjectId(0));
        so.offset = v3(1.0, 0.0, 0.0);
        so
    };
    m.apply_subobj_transform(ObjectId(0), &scale_matrix(2.0, 2.0, 2.0), true).unwrap();
    assert_eq!(fv(m.sub_objects.at(ObjectId(0)).bsp_data.verts[0]), (2.0, 0.0, 0.0));
    assert_eq!(fv(m.sub_objects.at(ObjectId(1)).bsp_data.verts[0]), (2.0, 0.0, 0.0));
    // the child's offset is transformed too
    assert_eq!(fv(m.sub_objects.at(ObjectId(1)).offset), (2.0, 0.0, 0.0));
}

#[test]
fn recalc_radius_and_bbox() {
    let mut so = subobject_with_square();
    so.recalc_radius();
    assert_eq!(f(so.radius), 1.0);
    so.recalc_bbox();
    assert_eq!(fv(so.bbox.min), (-1.0, -1.0, 0.0));
    assert_eq!(fv(so.bbox.max), (1.0, 1.0, 0.0));
}

#[test]
fn recalc_mass_scaling_law() {
    let mut m = Model::default();
    m.header.bbox = BoundingBox { min: v3(0.0, 0.0, 0.0), max: v3(2.0, 2.0, 2.0) };
    m.recalc_mass();
    let expected = 4.65f32 * 8.0f32.powf(2.0 / 3.0);
    assert_eq!(f(m.header.mass), expected);
}

#[test]
fn path_removal_fixup_shifts_references() {
    let mut m = Model::default();
    let mut d0 = pof::entities::Dock::default();
    d0.path = Some(PathId(0));
    let mut d1 = pof::entities::Dock::default();
    d1.path = Some(PathId(1));
    let mut d2 = pof::entities::Dock::default();
    d2.path = Some(PathId(2));
    m.docking_bays = vec![d0, d1, d2];
    m.path_removal_fixup(PathId(1));
    assert_eq!(m.docking_bays[0].path, Some(PathId(0)));
    assert_eq!(m.docking_bays[1].path, None);
    assert_eq!(m.docking_bays[2].path, Some(PathId(1)));
}

#[test]
fn gun_subobjects_for_turret() {
    let mut m = model_with_names(&[("base", None), ("gun1", Some(0)), ("gun2", Some(0))]);
    m.recalc_all_children_ids();
    let (list, idx) = m.get_valid_gun_subobjects_for_turret(ObjectId(2), ObjectId(0));
    assert_eq!(list, vec![ObjectId(0), ObjectId(1), ObjectId(2)]);
    assert_eq!(list[idx], ObjectId(2));
    // an invalid selection is appended at the end
    let (list, idx) = m.get_valid_gun_subobjects_for_turret(ObjectId(7), ObjectId(0));
    assert_eq!(list, vec![ObjectId(0), ObjectId(1), ObjectId(2), ObjectId(7)]);
    assert_eq!(idx, 3);
}

#[test]
fn make_parent_and_orphan_keep_world_position() {
    let mut m = model_with_names(&[("a", None), ("b", None)]);
    m.sub_objects.at_mut(ObjectId(0)).offset = v3(3.0, 0.0, 0.0);
    m.sub_objects.at_mut(ObjectId(1)).offset = v3(5.0, 0.0, 0.0);
    assert_eq!(m.make_parent(ObjectId(0), ObjectId(1)), Ok(Some(())));
    assert_eq!(m.sub_objects.at(ObjectId(1)).parent, Some(ObjectId(0)));
    // re-parenting under itself is refused
    assert_eq!(m.make_parent(ObjectId(1), ObjectId(1)), Ok(None));
    m.make_orphan(ObjectId(1)).unwrap();
    assert_eq!(m.sub_objects.at(ObjectId(1)).parent, None);
}

#[test]
fn get_obj_by_name_and_details() {
    let m = model_with_names(&[("alpha", None), ("beta", Some(0))]);
    assert_eq!(m.get_obj_id_by_name("beta"), Some(ObjectId(1)));
    assert_eq!(m.get_obj_id_by_name("gamma"), None);
    let names = m.get_subobj_names();
    assert_eq!(names, vec!["alpha".to_string(), "beta".to_string()]);
    let mut m = m;
    m.header.detail_levels = vec![ObjectId(0)];
    assert_eq!(m.get_sobj_detail_level(ObjectId(1)), Ok(Some(0)));
    assert_eq!(m.max_verts_norms_per_subobj(), u32::MAX as usize);
    m.version = Version::V21_16;
    assert_eq!(m.max_verts_norms_per_subobj(), u16::MAX as usize);
}

#[test]
fn subsystem_and_engine_properties() {
    let mut sp = pof::entities::SpecialPoint::default();
    sp.properties = "$special=subsystem".to_string();
    assert!(sp.is_subsystem());
    sp.properties = "$special=other".to_string();
    assert!(!sp.is_subsystem());
    let mut tb = pof::entities::ThrusterBank::default();
    tb.properties = "$engine_subsystem=engine01".to_string();
    assert_eq!(tb.get_engine_subsys(), Some("engine01"));
    let mut d = pof::entities::Dock::default();
    d.properties = "$name=dock01\n$parent_submodel=hull".to_string();
    assert_eq!(d.get_name(), Some("dock01"));
    assert_eq!(d.get_parent_obj(), Some("hull"));
}

#[test]
fn up_axis_swizzles_round_trip() {
    let v = v3(1.0, 2.0, 3.0);
    for up in [UpAxis::XUp, UpAxis::YUp, UpAxis::ZUp] {
        let roundtrip = v.from_coord(up).to_coord(up);
        // the swizzles are exact inverses
        assert_eq!(fv(roundtrip), fv(v));
    }
    assert_eq!(fv(v.from_coord(UpAxis::YUp)), (1.0, 2.0, -3.0));
}

#[test]
fn normal_vec_construction_soft_fails() {
    let ok = NormalVec3::try_from_vec(v3(0.0, 3.0, 0.0)).unwrap();
    assert_eq!(fv(ok.0), (0.0, 1.0, 0.0));
    assert!(NormalVec3::try_from_vec(v3(0.0, 0.0, 0.0)).is_err());
    assert_eq!(fv(NormalVec3::default().0), (0.0, 0.0, 1.0));
}

#[test]
fn debris_counting_and_destroyed_flag() {
    let mut m = model_with_names(&[("a", None), ("b", None)]);
    m.sub_objects.at_mut(ObjectId(1)).is_debris_model = true;
    assert_eq!(m.num_debris_objects(), 1);
}

#[test]
fn shield_node_block_is_length_prefixed() {
    let leaf = ShieldNode::Leaf {
        bbox: BoundingBox { min: v3(0.0, 0.0, 0.0), max: v3(1.0, 1.0, 1.0) },
        poly_list: vec![pof::ids::PolygonId(0)],
    };
    let mut w = Writer::new(Version::V22_01);
    leaf.write_to(&mut w);
    let len = u32::from_le_bytes([w.out[0], w.out[1], w.out[2], w.out[3]]) as usize;
    assert_eq!(w.out.len(), 4 + len);
    // tag 1 marks a leaf
    assert_eq!(&w.out[4..8], &[1, 0, 0, 0]);
}

#[test]
fn bsp_data_block_is_skippable_by_length() {
    let (verts, tree) = sample_tree();
    let data = BspData { verts, norms: vec![], collision_tree: tree };
    let mut w = Writer::new(Version::V22_01);
    data.write_to(&mut w);
    assert_eq!(&w.out[0..4], &[0, 0, 0, 0]);
    let len = u32::from_le_bytes([w.out[4], w.out[5], w.out[6], w.out[7]]) as usize;
    assert_eq!(w.out.len(), 8 + len);
}

#[test]
fn recheck_error_tracks_conditions() {
    let mut m = model_with_names(&[("", None), ("dup", None), ("dup", Some(0))]);
    m.recheck_error(&Error::UnnamedSubObject(ObjectId(0)));
    assert_eq!(m.errors.len(), 1);
    m.recheck_error(&Error::DuplicateSubobjectName("dup".to_string()));
    assert_eq!(m.errors.len(), 2);
    // not duplicated: a unique name adds nothing
    m.recheck_error(&Error::DuplicateSubobjectName("solo".to_string()));
    assert_eq!(m.errors.len(), 2);
    // fixing the name clears the finding on the next recheck
    m.sub_objects.at_mut(ObjectId(0)).name = "fixed".to_string();
    m.recheck_error(&Error::UnnamedSubObject(ObjectId(0)));
    assert_eq!(m.errors.len(), 1);
    // a detail-level object with a parent is a finding
    m.header.detail_levels = vec![ObjectId(2)];
    m.recheck_error(&Error::DetailObjWithParent(ObjectId(2)));
    assert_eq!(m.errors.len(), 2);
    // a turret whose gun is not reachable from its base is a finding
    let mut t = pof::entities::Turret::default();
    t.base_obj = ObjectId(0);
    t.gun_obj = ObjectId(1);
    m.turrets = vec![t];
    m.recheck_error(&Error::InvalidTurretGunSubobject(0));
    assert_eq!(m.errors.len(), 3);
}

#[test]
fn make_parent_adjusts_offset_and_children() {
    let mut m = model_with_names(&[("base", None), ("arm", None)]);
    m.sub_objects.at_mut(ObjectId(0)).offset = v3(1.0, 0.0, 0.0);
    m.sub_objects.at_mut(ObjectId(1)).offset = v3(5.0, 0.0, 0.0);
    assert_eq!(m.make_parent(ObjectId(0), ObjectId(1)), Ok(Some(())));
    assert_eq!(m.sub_objects.at(ObjectId(1)).parent, Some(ObjectId(0)));
    assert_eq!(m.sub_objects.at(ObjectId(0)).children, vec![ObjectId(1)]);
    // world position preserved: 4 (new local) + 1 (parent) == 5 (old world)
    assert_eq!(fv(m.sub_objects.at(ObjectId(1)).offset), (4.0, 0.0, 0.0));
    // the reverse edit would close a cycle, so it reports no edit
    assert_eq!(m.make_parent(ObjectId(1), ObjectId(0)), Ok(None));
    assert_eq!(m.sub_objects.at(ObjectId(0)).parent, None);
}

#[test]
fn make_orphan_restores_world_position() {
    let mut m = model_with_names(&[("base", None), ("arm", None)]);
    m.sub_objects.at_mut(ObjectId(0)).offset = v3(1.0, 0.0, 0.0);
    m.sub_objects.at_mut(ObjectId(1)).offset = v3(5.0, 0.0, 0.0);
    m.make_parent(ObjectId(0), ObjectId(1)).unwrap();
    assert_eq!(m.make_orphan(ObjectId(1)), Ok(()));
    assert_eq!(m.sub_objects.at(ObjectId(1)).parent, None);
    assert_eq!(fv(m.sub_objects.at(ObjectId(1)).offset), (5.0, 0.0, 0.0));
    assert!(m.sub_objects.at(ObjectId(0)).children.is_empty());
}

#[test]
fn header_bbox_and_radius_recompute() {
    let mut m = model_with_names(&[("hull", None)]);
    m.sub_objects.at_mut(ObjectId(0)).bsp_data.verts = vec![v3(1.0, 2.0, 2.0)];
    m.sub_objects.at_mut(ObjectId(0)).bbox =
        BoundingBox { min: v3(1.0, 2.0, 2.0), max: v3(1.0, 2.0, 2.0) };
    m.header.detail_levels = vec![ObjectId(0)];
    m.recalc_radius().unwrap();
    assert_eq!(f(m.header.max_radius), 3.0);
    m.recalc_bbox().unwrap();
    assert_eq!(fv(m.header.bbox.min), (-1.0e-5, -1.0e-5, -1.0e-5));
    assert_eq!(fv(m.header.bbox.max), (1.0, 2.0, 2.0));
}

#[test]
fn radius_recompute_includes_shield() {
    let mut m = model_with_names(&[]);
    m.shield_data = Some(ShieldData {
        verts: vec![v3(0.0, 0.0, 7.0)],
        polygons: vec![],
        collision_tree: None,
    });
    m.recalc_radius().unwrap();
    assert_eq!(f(m.header.max_radius), 7.0);
}

#[test]
fn moi_is_zero_without_detail_levels() {
    let mut m = model_with_names(&[("a", None)]);
    m.recalc_moi().unwrap();
    assert_eq!(fv(m.header.moment_of_inertia.rvec), (0.0, 0.0, 0.0));
    assert_eq!(fv(m.header.moment_of_inertia.uvec), (0.0, 0.0, 0.0));
    assert_eq!(fv(m.header.moment_of_inertia.fvec), (0.0, 0.0, 0.0));
}

#[test]
fn moi_matches_point_mass_estimate() {
    // two unit point masses on the x axis give a diagonal tensor with a
    // singular x-x entry avoided by spreading them across axes
    let mut m = model_with_names(&[("hull", None)]);
    m.sub_objects.at_mut(ObjectId(0)).bsp_data.verts =
        vec![v3(1.0, 0.0, 0.0), v3(0.0, 2.0, 0.0), v3(0.0, 0.0, 3.0)];
    m.header.detail_levels = vec![ObjectId(0)];
    m.header.mass = s(6.0);
    m.recalc_moi().unwrap();
    // per-point mass 2; tensor diag = 2*(4+9), 2*(1+9), 2*(1+4); inverse of
    // the diagonal is elementwise
    let moi = &m.header.moment_of_inertia;
    assert!((f(moi.rvec.x) - 1.0 / 26.0).abs() < 1e-6);
    assert!((f(moi.uvec.y) - 1.0 / 20.0).abs() < 1e-6);
    assert!((f(moi.fvec.z) - 1.0 / 10.0).abs() < 1e-6);
    assert_eq!(f(moi.rvec.y), 0.0);
}

#[test]
fn whole_model_transform_translates_points() {
    let mut m = model_with_names(&[]);
    m.eye_points.push(pof::entities::EyePoint {
        attached_subobj: None,
        position: v3(0.0, 0.0, 0.0),
        normal: NormalVec3(v3(0.0, 0.0, 1.0)),
    });
    let mat = Mat4 { linear: Mat3d::identity(), translation: v3(1.0, 2.0, 3.0) };
    m.apply_transform(&mat).unwrap();
    assert_eq!(fv(m.eye_points[0].position), (1.0, 2.0, 3.0));
    // the identity's rotation-only derivative keeps the view normal
    assert_eq!(fv(m.eye_points[0].normal.0), (0.0, 0.0, 1.0));
}

#[test]
fn subobj_offset_move_keeps_world_geometry() {
    let mut m = model_with_names(&[("hull", None)]);
    m.sub_objects.at_mut(ObjectId(0)).offset = v3(1.0, 0.0, 0.0);
    m.sub_objects.at_mut(ObjectId(0)).bsp_data.verts = vec![v3(2.0, 0.0, 0.0)];
    m.subobj_move_only_offset(ObjectId(0), v3(3.0, 0.0, 0.0)).unwrap();
    let so = m.sub_objects.at(ObjectId(0));
    assert_eq!(fv(so.offset), (3.0, 0.0, 0.0));
    // vertex pulled back by the delta keeps offset + vertex == 3
    assert_eq!(fv(so.bsp_data.verts[0]), (0.0, 0.0, 0.0));
}

#[test]
fn shield_tag_is_single_byte_before_22_00() {
    let leaf = ShieldNode::Leaf {
        bbox: BoundingBox { min: v3(0.0, 0.0, 0.0), max: v3(1.0, 1.0, 1.0) },
        poly_list: vec![pof::ids::PolygonId(0)],
    };
    let mut old = Writer::new(Version::V21_17);
    leaf.write_to(&mut old);
    let mut new = Writer::new(Version::V22_01);
    leaf.write_to(&mut new);
    // legacy: 1-byte tag; current: 4-byte tag; everything else equal
    assert_eq!(old.out.len() + 3, new.out.len());
    assert_eq!(old.out[4], 1);
    assert_eq!(&new.out[4..8], &[1, 0, 0, 0]);
    assert_eq!(&old.out[5..], &new.out[8..]);
}

#[test]
fn shield_transform_rotates_normals_without_translation() {
    let mut sd = ShieldData {
        verts: vec![v3(1.0, 0.0, 0.0)],
        polygons: vec![ShieldPolygon {
            normal: v3(0.0, 1.0, 0.0),
            verts: (VertexId(0), VertexId(0), VertexId(0)),
            neighbors: (
                pof::ids::PolygonId(0),
                pof::ids::PolygonId(0),
                pof::ids::PolygonId(0),
            ),
        }],
        collision_tree: None,
    };
    let mat = Mat4 { linear: Mat3d::identity(), translation: v3(5.0, 0.0, 0.0) };
    sd.apply_transform(&mat);
    // vertices take the translation; face normals do not
    assert_eq!(fv(sd.verts[0]), (6.0, 0.0, 0.0));
    assert_eq!(fv(sd.polygons[0].normal), (0.0, 1.0, 0.0));
}
