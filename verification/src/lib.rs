//! Dominant-frequency estimation for fixed-length bursts of signed integer
//! samples, by two independent estimators with exactly stated results.
//!
//! The spectral path ([`spectral`]) locates the magnitude peak of a burst's
//! spectrum and refines it by parabolic interpolation in the log-magnitude
//! domain; the time-domain path ([`zero_cross`]) measures the mean spacing of
//! interpolated rising zero crossings; [`stats`] reduces a batch of estimates
//! to its exact mean and population variance. Every estimate is an exact
//! rational number ([`rational::Rat`]), so each contract pins the result to a
//! single value. The floating-point plumbing around the spectral path (the
//! transform itself, the window, the log magnitudes) stays with the caller,
//! which hands the spectrum over as plain integer order keys and fixed-point
//! log magnitudes.

pub mod rational;
pub mod spectral;
pub mod stats;
pub mod zero_cross;

use vstd::prelude::*;

verus! {

/// Longest burst either estimator accepts. The cap keeps every product in the
/// exact rational arithmetic of the estimators inside `i128`.
pub const MAX_BURST_LEN: usize = 16777216;

} // verus!
