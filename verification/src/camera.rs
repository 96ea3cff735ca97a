//! Render settings.

use vstd::prelude::*;

verus! {

/// How much work a render spends on each pixel: the number of samples that
/// are averaged, and the number of bounces after which a path is cut off.
#[derive(Copy, Clone, Debug, PartialEq, Eq, Structural)]
pub struct RenderSettings {
    pub samples_per_pixel: usize,
    pub max_depth: usize,
}

impl RenderSettings {
    /// The quick preset: 10 samples per pixel, paths of at most 10 bounces.
    pub fn shallow() -> (settings: Self)
        ensures
            settings == (RenderSettings { samples_per_pixel: 10, max_depth: 10 }),
    {
        RenderSettings { samples_per_pixel: 10, max_depth: 10 }
    }

    /// The slow preset: 100 samples per pixel, paths of at most 50 bounces.
    pub fn deep() -> (settings: Self)
        ensures
            settings == (RenderSettings { samples_per_pixel: 100, max_depth: 50 }),
    {
        RenderSettings { samples_per_pixel: 100, max_depth: 50 }
    }
}

} // verus!
