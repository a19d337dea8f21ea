//! Adaptive plotting of one-variable functions.
//!
//! The heart of the crate is [`plotfn::plotfn`], which bisects the domain of a
//! function and emits the vertices of the polylines that approximate its graph
//! inside a viewport, breaking them where the function leaves the viewport or
//! is undefined. Around it stand the interval types it reasons with, a scratch
//! buffer of nested segments, and the pieces of an SVG emitter that decide what
//! is written: the stylesheet, the path commands, the axis ticks and their
//! labels, and the packets sent to a TeX renderer.
//!
//! Reals are fixed-point numbers extended by the infinities and NaN (see
//! [`math::Real`]); a function is evaluated on fixed-point inputs.
pub mod codegen;
pub mod elements;
pub mod math;
pub mod misc;
pub mod plotfn;
pub mod style;
pub mod typography;
