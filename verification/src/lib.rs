//! A spatial-indexing core: axis-aligned bounding boxes, a three-way query
//! protocol, a half-space query, and an immutable bounding volume hierarchy
//! with a lazy, stack-based traversal.

pub mod aabb;
pub mod bvh;
pub mod census;
pub mod generator;
pub mod nesting;
pub mod plane;
pub mod seed;
pub mod validate;
pub mod vector;

pub use aabb::{AABBQuery, AABBRelation, AABB3};
pub use bvh::{decompose, BVHBranch, BVHLeaf, Layout, Shape, BVH};
pub use generator::Enumerator;
pub use plane::{Halfspace, Plane3};
pub use vector::{Sign, Vec3};
