use vstd::prelude::*;

verus! {

/// Why a viewshed could not be computed.
#[derive(Clone, Copy, Debug, PartialEq, Eq, Structural)]
pub enum ViewshedError {
    /// The viewpoint lies outside the grid.
    OutOfBounds,
}

impl ViewshedError {
    pub fn message(&self) -> (r: String) {
        match self {
            ViewshedError::OutOfBounds => String::from_str("viewpoint lies outside the terrain grid"),
        }
    }
}

} // verus!
