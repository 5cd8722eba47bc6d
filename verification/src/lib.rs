//! Mandelbrot set rendering over a `raster` image.
//!
//! The crate holds the parts of a renderer that are exact: the bounded
//! iteration that classifies a point, the mapping from a classified point to
//! a colour, and the filling of the pixel grid. Arithmetic on the complex
//! plane is supplied by the caller as closures, so the iteration and the
//! driver are proved for every number type.

pub mod canvas;
pub mod color;
pub mod escape;
pub mod render;
