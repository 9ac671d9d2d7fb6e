//! Verified core of the WeldScope pipeline: the `WS01` wire framing, the
//! payload codecs, and the integer logic of the feature, simulation and
//! classification stages.

pub mod bytes;
pub mod frame;
pub mod codec;
pub mod features;
pub mod peak;
pub mod sim;
pub mod ai;
pub mod percentile;
