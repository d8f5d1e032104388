//! Integer geometry: vectors, axis-aligned areas, and block/node coordinates.

pub mod area;
pub mod inverse;
pub mod vec3;

pub use area::Area;
pub use area::AreaIterator;
pub use inverse::InverseBlockIterator;
pub use vec3::Vec3;
pub use vec3::MAP_LIMIT;
