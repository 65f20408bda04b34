//! Whittaker–Henderson detrending of a one-dimensional signal.
//!
//! The smoother penalizes the second difference of the fitted trend:
//! for a signal `z` of length `t >= 3` it solves
//! `(I + lambda^2 * D2^T * D2) s = z` for the trend `s` and returns the
//! residual `z - s`. For `t < 3` the second-difference operator has no
//! rows and the signal is returned unchanged.
//!
//! Everything about the system that does not depend on the numerical
//! value of the signal is exact integer arithmetic and is verified
//! here: the second-difference operator, the Gram matrix `D2^T * D2`,
//! the assembled system's coefficients, its symmetry and positive
//! definiteness, and the decision of when the trend is fitted at all.
//! The floating-point solve itself is left to the caller.

pub mod gram;

pub mod matrix;

pub mod operator;

pub mod quadform;

pub mod system;
