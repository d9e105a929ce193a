//! Float-free core of a 2D rigid-body physics engine: body handles and
//! storage, broadphase pair enumeration, narrowphase dispatch and contact
//! feature ids, and the warm-starting impulse cache.
pub mod body;
pub mod broadphase;
pub mod collision;
pub mod solver;
