//! The verified core of the GPUIX native renderer: the rules the renderer
//! applies to what React sends it, independent of the GPUI window that paints.

pub mod batch;
pub mod focus;
pub mod highlight;
pub mod json;
pub mod number;
pub mod paint;
pub mod renderer;
pub mod text;
pub mod tree;
pub mod style;
pub mod scroll_motion;
