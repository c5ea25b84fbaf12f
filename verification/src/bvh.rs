//! A bounding-volume tree over (primitive, material) pairs.
//!
//! A declared extension point: the render path never consults it, and the
//! nearest-hit resolver stays a linear scan.  Kept for scenes that build
//! one.

use vstd::prelude::*;
use crate::geometry::Geometry;
use crate::materials::Material;

verus! {

/// A bounding-volume tree.
pub struct BVH {
    pub root: BVHNode,
}

/// A node of the tree: leaves carry an object, inner nodes only children.
pub struct BVHNode {
    pub object: Option<(Geometry, Material)>,
    pub left_child: Option<Box<BVHNode>>,
    pub right_child: Option<Box<BVHNode>>,
}

/// A node holds an object only when it is a leaf, and its children obey the
/// same rule.
pub open spec fn wf_bvh_node(n: BVHNode) -> bool
    decreases n,
{
    (n.object is Some ==> n.left_child is None && n.right_child is None) && (match n.left_child {
        Some(child) => wf_bvh_node(*child),
        None => true,
    }) && (match n.right_child {
        Some(child) => wf_bvh_node(*child),
        None => true,
    })
}

/// The whole tree obeys the leaf rule.
pub open spec fn wf_bvh(b: BVH) -> bool {
    wf_bvh_node(b.root)
}

} // verus!
