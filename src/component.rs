//! Components: data attached to scene objects, one per component type.

use vstd::prelude::*;

pub mod mesh;
pub mod obj;

verus! {

/// A piece of data that can be attached to an object.
pub trait Component {
}

/// A component type with a name that is unique among component types; an object holds at
/// most one component under each name.
pub trait ComponentType: Component {
    const TYPE: &'static str;
}

} // verus!
