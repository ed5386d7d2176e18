//! Batched multi-scalar multiplication (MSM) over the BLS12-377 G1 group,
//! using the Pippenger bucket method.
//!
//! A context is built once from a fixed set of affine points; each execution
//! takes a flat batch of scalars (one group of `N` scalars per batch) and
//! returns one projective point per batch, equal to the weighted sum of the
//! points by the scalars. Group arithmetic is supplied by the `ark` curve
//! library; every point is abstracted by a ghost exponent (its multiple of
//! the fixed subgroup generator), and the engine is verified to compute the
//! exact weighted sum of those exponents.

pub mod scalar;
pub mod point;
pub mod msm;
