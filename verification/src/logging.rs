//! Identifiers carried by requests for logging and tracing.
use vstd::prelude::*;

verus! {

/// Marker type for request identifiers.
pub struct RequestIdMarker;

/// Marker type for trace identifiers.
pub struct TraceIdMarker;

} // verus!
