//! Raster images held as three same-shaped channel matrices, with geometric
//! transforms, a reader and a writer for the native file format, and
//! content-aware resizing by seam carving.
//!
//! Every executable function carries a contract over mathematical models: a
//! matrix is viewed as a [`grid::Grid`], an image as an [`image::Picture`].
//! What holds of several functions together is proved in the modules
//! [`seam`], [`round_trip`] and [`range`].

pub mod codec;
pub mod crop;
pub mod energy;
pub mod error;
pub mod grid;
pub mod image;
pub mod matrix;
pub mod order;
pub mod pixel;
pub mod ppm;
pub mod range;
pub mod resize;
pub mod round_trip;
pub mod scale;
pub mod seam;
pub mod text;
