//! What can go wrong talking to a GPU. The renderer itself drives a graphics device and stays
//! outside the library; its failures are reported in these terms.

use vstd::prelude::*;
use crate::text::{owned, push_str};

verus! {

/// Everything that can go wrong talking to a GPU.
#[derive(Debug)]
pub enum GpuError {
    /// No adapter is available.
    NoAdapter(String),
    /// A device could not be created.
    Device(String),
    /// Reading the framebuffer back failed.
    Readback(String),
    /// Writing the image failed.
    Image(String),
}

/// The words that introduce each failure, before its detail.
pub open spec fn gpu_error_text(e: GpuError) -> Seq<char> {
    match e {
        GpuError::NoAdapter(s) => "no GPU adapter available: "@ + s@,
        GpuError::Device(s) => "could not create a device: "@ + s@,
        GpuError::Readback(s) => "reading the framebuffer back failed: "@ + s@,
        GpuError::Image(s) => "writing the image failed: "@ + s@,
    }
}

impl GpuError {
    /// The failure as a sentence.
    pub fn message(&self) -> (r: String)
        ensures
            r@ == gpu_error_text(*self),
    {
        let (lead, detail) = match self {
            GpuError::NoAdapter(s) => ("no GPU adapter available: ", s),
            GpuError::Device(s) => ("could not create a device: ", s),
            GpuError::Readback(s) => ("reading the framebuffer back failed: ", s),
            GpuError::Image(s) => ("writing the image failed: ", s),
        };
        let mut out = owned(lead);
        push_str(&mut out, detail.as_str());
        out
    }
}

}
