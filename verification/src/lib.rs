//! Combinatorial core of a per-vertex curvature estimator for triangle meshes.
//!
//! A mesh is a list of triangle corners, each naming a vertex and a normal.
//! From it the crate derives, for every vertex,
//!
//! * the set of vertices that share a triangle with it ([`neighborhood`]),
//! * the normals that meet at it, in corner order ([`normals`]),
//! * the neighbors used to build its tangent frame and to fit the local
//!   paraboloid, together with the markers for vertices where no such choice
//!   exists ([`selection`], over the walking order fixed in [`walk`]).
//!
//! The crate holds no floating-point arithmetic: it decides *which* samples an
//! estimator reads and *whether* a vertex can be processed at all, and leaves
//! the numerical work on those samples to the caller.

pub mod mesh;
pub mod neighborhood;
pub mod normals;
pub mod selection;
pub mod walk;
