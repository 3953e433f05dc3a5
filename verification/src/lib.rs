//! Content-aware image shrinking ("seam carving").
//!
//! The raster is shrunk by repeatedly locating and deleting the connected
//! vertical path of least total energy (a "seam"); height reductions reuse
//! the same machinery through a quarter-turn rotation.

pub mod carver;
pub mod cost_matrix;
pub mod energy_matrix;
pub mod error;
pub mod raster;
pub mod resize_dimension;

pub use carver::Seamcarver;
pub use carver::MAX_DIMENSION;
pub use cost_matrix::CostMatrix;
pub use cost_matrix::Entry;
pub use energy_matrix::EnergyMatrix;
pub use error::CarveError;
pub use raster::Pixel;
pub use raster::Raster;
pub use resize_dimension::ResizeDimension;
