pub mod error;
pub mod grid;
pub mod laws;
pub mod linear;
pub mod planar;
pub mod ray;
pub mod slope;
pub mod sweep;
pub mod transforms;

pub use error::ViewshedError;
pub use grid::{HeightGrid, VisibilityGrid};
pub use linear::{angle_field_1d, viewshed_1d};
pub use planar::{angle_field_2d, viewshed_2d};
pub use ray::MAX_SIDE;
pub use slope::Slope;
pub use transforms::{to_origin, to_viewpoint};
