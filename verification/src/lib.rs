//! Isovist analysis: the discrete geometry of casting rays from an
//! observation point towards every vertex of a plan, choosing the closest
//! hit of each ray, ordering and collating the hits, and closing them into
//! the border of the visible region.
//!
//! Coordinates have the caller's type `C`. Every decision that needs
//! floating point arithmetic reaches this crate as a plain value: an order
//! key, a hit computed from the coordinates, or the answer of a predicate
//! the caller supplies.

mod error;
mod id_set;
mod ids;
mod isovist;
pub mod laws;
mod sections;
mod types;

pub use error::{ConversionError, GeometryError, IsovistError};
pub use id_set::IdSet;
pub use ids::{get_id, IdCounter};
pub use isovist::{find_isovist, Border};
pub use sections::{
    closest_intersections_to_all_vertices, closest_section, collate_intersections, get_ray_points,
    section_point, sort_intersections, Hit, Intersection, RayExtension, ScaleFactor,
};
pub use types::{Entity, Line, Point};
