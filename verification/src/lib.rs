//! Rendering the Mandelbrot set onto a grid of grey pixels: the text form of
//! coordinate pairs, the geometry of the pixel buffer and its row bands, the
//! bookkeeping of the escape-time iteration, and the painting of the buffer.
//!
//! The arithmetic on points of the complex plane is left to the caller: the
//! functions here take what that arithmetic decides (has the orbit left the
//! disc of radius two, after how many steps did it) as plain values.

pub mod pair;
pub mod bounds;
pub mod escape;
pub mod render;
