//! An in-memory model of a hierarchical 3D mesh asset and its versioned
//! binary encoding: a tree of rigid sub-meshes with binary-space-partition
//! render geometry, an optional whole-model collision shield, auxiliary point
//! data, and a write-only codec that reproduces the historical byte layouts
//! of the format's revisions.
//!
//! Geometry scalars are carried as IEEE-754 binary32 encodings (`scalar`);
//! their order is defined and verified as integer logic over the encodings,
//! while rounded arithmetic is delegated to outside numeric libraries through
//! named, trusted entry points.

pub mod bbox;
pub mod bsp;
pub mod codec;
pub mod entities;
pub mod ids;
pub mod model;
pub mod props;
pub mod scalar;
pub mod shield;
pub mod vec3d;
pub mod version;
