//! Shapes built from other shapes.

use crate::geometry::Ray;
use crate::scene::{HitRecord, Hittable};
use vstd::prelude::*;

verus! {

/// A participating medium: a volume of the given density whose boundary is
/// `shape`.
pub struct Medium<S, T> {
    pub shape: S,
    pub density: T,
}

/// The ray parameter at which a ray enters the boundary, given whether its
/// starting point lies `inside` and what the boundary answered to a test
/// from `tmin`: `tmin` itself from inside, else the boundary's own hit, and
/// `None` where there is neither.
pub open spec fn entry_time<T, V>(inside: bool, tmin: T, first: Option<HitRecord<T, V>>) -> Option<
    T,
> {
    if inside {
        Some(tmin)
    } else {
        match first {
            Some(record) => Some(record.t),
            None => None,
        }
    }
}

/// The ray parameter at which a ray leaves the boundary, given what the
/// boundary answered to a test from the entry on: the boundary's hit, or
/// `tmax` where there is none.
pub open spec fn exit_time<T, V>(tmax: T, second: Option<HitRecord<T, V>>) -> T {
    match second {
        Some(record) => record.t,
        None => tmax,
    }
}

impl<S, T: Copy> Medium<S, T> {
    /// `span` is a possible answer of [`Medium::span`]: the entry and exit
    /// times that follow from what the boundary says of `start` and of the
    /// ray.
    pub open spec fn is_span<V>(
        self,
        ray: Ray<V>,
        tmin: T,
        tmax: T,
        start: V,
        span: Option<(T, T)>,
    ) -> bool where S: Hittable<T, V> {
        exists|inside: bool, first: Option<HitRecord<T, V>>|
            {
                &&& #[trigger] call_ensures(S::contains, (&self.shape, start), inside)
                &&& !inside ==> #[trigger] call_ensures(
                    S::hit,
                    (&self.shape, &ray, tmin, tmax),
                    first,
                )
                &&& match entry_time(inside, tmin, first) {
                    None => span is None,
                    Some(entry) => exists|second: Option<HitRecord<T, V>>|
                        #[trigger] call_ensures(S::hit, (&self.shape, &ray, entry, tmax), second)
                            && span == Some((entry, exit_time(tmax, second))),
                }
            }
    }

    /// The stretch of `ray` between `tmin` and `tmax` that lies in the
    /// medium, as entry and exit time, where `start` is the point of the ray
    /// at `tmin`. A ray that starts inside the boundary enters at `tmin`;
    /// one that starts outside enters where it hits the boundary, and has
    /// no stretch inside if it does not. It leaves at the boundary's next
    /// hit after the entry, or at `tmax` if there is none.
    pub fn span<V>(&self, ray: &Ray<V>, tmin: T, tmax: T, start: V) -> (span: Option<
        (T, T),
    >) where S: Hittable<T, V>
        ensures
            self.is_span(*ray, tmin, tmax, start, span),
    {
        let inside = self.shape.contains(start);
        let ghost mut first: Option<HitRecord<T, V>> = None;
        let entry = if inside {
            tmin
        } else {
            let answer = self.shape.hit(ray, tmin, tmax);
            proof {
                first = answer;
            }
            match answer {
                None => {
                    return None;
                },
                Some(entry) => entry.t,
            }
        };
        let exit = match self.shape.hit(ray, entry, tmax) {
            None => tmax,
            Some(exit) => exit.t,
        };
        Some((entry, exit))
    }
}

} // verus!
