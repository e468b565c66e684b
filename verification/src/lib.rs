//! The verified core of a fish-shoal simulation: the cubic grid that fields
//! of the world are stored in, the neighbourhood stencil used to average
//! cells, the sharks' roam/hunt behaviour, and the decisions of the frame
//! loop and of the renderer's instance buffers.

pub mod field;
pub mod stencil;
pub mod shark;
pub mod control;
pub mod instances;
