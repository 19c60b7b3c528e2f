//! Image filters for a screen-capture styling pipeline: a 3x3 integer
//! convolution over a zero-padded gray image, the padding itself, a
//! darkening blend of a colour image with an edge map, and the small rules
//! of the viewer loop. Colour-space conversions that work in floating point
//! live outside this library.

pub mod buffer;
pub mod arith;
pub mod fast3x3;
pub mod fastimg;
pub mod viewer;
pub mod channels;
