//! The rendering pipeline abstraction. The concrete pipelines own GPU
//! state and live with the renderer at the graphics boundary; this
//! module holds the capability they share.

use vstd::prelude::*;

verus! {

/// The common capability of the fixed set of per-pass render pipelines:
/// a marker for the renderer's ordered pipeline list.
pub trait RenderPipelineAbstract {

}

} // verus!
