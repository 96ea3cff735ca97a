//! Verified core of a Monte Carlo ray tracer.
//!
//! The crate holds what a render decides: which object a ray hits first
//! ([`scene`]), how a ray's colour follows from its bounces ([`tracing`]),
//! how the rows of an image are handed out to workers and put together again
//! ([`schedule`]), and how the finished image is laid out as a bitmap file
//! ([`graphics`], [`bitmap`]).
//!
//! Numbers stay with the caller. Vectors, distances and colours are type
//! parameters, and shapes, materials, the sky and the camera are the caller's
//! traits and closures. What they return is described by their own contracts;
//! the contracts here speak of it through `call_ensures`, so that a caller
//! with exact contracts gets exact results.

pub mod bitmap;
pub mod camera;
pub mod geometry;
pub mod graphics;
pub mod schedule;
pub mod scene;
pub mod shapes;
pub mod tracing;
