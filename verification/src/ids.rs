//! Handles. Each is a plain number that the host maps to its own entities
//! and assets; the core only compares and copies them.

use vstd::prelude::*;

verus! {

/// Handle of a todo item in the domain store.
#[derive(Debug, Clone, Copy, PartialEq, Eq, Structural, Hash)]
pub struct TodoId(pub u32);

/// Handle of a node of the scene graph.
#[derive(Debug, Clone, Copy, PartialEq, Eq, Structural, Hash)]
pub struct NodeId(pub u32);

/// Handle of a color material that the host has loaded.
#[derive(Debug, Clone, Copy, PartialEq, Eq, Structural, Hash)]
pub struct MaterialId(pub u32);

} // verus!
