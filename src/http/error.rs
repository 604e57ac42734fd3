use vstd::prelude::*;

verus! {

/// The failures of the HTTP engine.
#[derive(Debug, Clone, Copy, PartialEq, Eq, Structural)]
pub enum HttpError {
    /// The probe found no usable length for the resource.
    Probe,
    /// A ranged transfer failed.
    Segment,
    /// The command line or its inputs are unusable.
    UserInput,
}

} // verus!
