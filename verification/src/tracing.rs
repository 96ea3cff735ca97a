//! The bounce recursion that gives a ray its colour.

use crate::camera::RenderSettings;
use crate::geometry::{Ray, Vector};
use crate::scene::{
    is_background, is_first_hit, HitRecord, Hittable, Material, Scene, SceneObject,
};
use vstd::prelude::*;

verus! {

/// The colour operations that path tracing needs. The tracer computes
/// nothing on colours itself: what it returns is black, a colour of the sky,
/// or what `attenuate` and `average` make of those.
pub trait Radiance: Sized {
    /// No light at all: what a path contributes once it is cut off or
    /// absorbed.
    fn black() -> Self;

    /// This colour as a filter on `other`, channel by channel.
    fn attenuate(&self, other: Self) -> Self;

    /// The mean of `samples`.
    fn average(samples: Vec<Self>) -> Self;
}

/// A path tracer: the render settings and the interval of ray parameters in
/// which intersections count. `tmin` lies a little above zero, so that a
/// scattered ray does not hit the surface it has just left.
pub struct Tracer<T> {
    pub settings: RenderSettings,
    pub tmin: T,
    pub tmax: T,
}

/// The rays that `sample_ray` may give for the pixel in column `x` of row
/// `y`.
pub open spec fn rays_of<V, L: Fn(usize, usize) -> Ray<V>>(sample_ray: L, x: usize, y: usize) -> spec_fn(
    Ray<V>,
) -> bool {
    |ray: Ray<V>| call_ensures(sample_ray, (x, y), ray)
}

impl<T: Copy> Tracer<T> {
    /// `color` is a possible colour of `ray` at bounce `depth` in a scene
    /// made of `objects` under `sky`: black at the depth limit, and below it
    /// the shade of the nearest hit.
    pub open spec fn is_ray_color<V, C, S, M>(
        self,
        objects: Seq<SceneObject<S, M>>,
        sky: spec_fn(V, C) -> bool,
        depth: nat,
        ray: Ray<V>,
        color: C,
    ) -> bool where V: Vector, C: Radiance, S: Hittable<T, V>, M: Material<T, V, C>
        decreases self.settings.max_depth - depth, 2nat,
    {
        if depth >= self.settings.max_depth {
            call_ensures(C::black, (), color)
        } else {
            exists|found: Option<(SceneObject<S, M>, HitRecord<T, V>)>|
                #[trigger] is_first_hit(objects, ray, self.tmin, self.tmax, found)
                    && self.is_shade(objects, sky, depth, ray, found, color)
        }
    }

    /// `color` is a possible colour of `ray` at bounce `depth`, given that
    /// `found` is what it hits first: on a miss a colour of the sky along
    /// the ray's normalised direction, on a hit what the material's
    /// scattering leads to.
    pub open spec fn is_shade<V, C, S, M>(
        self,
        objects: Seq<SceneObject<S, M>>,
        sky: spec_fn(V, C) -> bool,
        depth: nat,
        ray: Ray<V>,
        found: Option<(SceneObject<S, M>, HitRecord<T, V>)>,
        color: C,
    ) -> bool where V: Vector, C: Radiance, S: Hittable<T, V>, M: Material<T, V, C>
        decreases self.settings.max_depth - depth, 1nat,
    {
        match found {
            None => is_background(sky, ray, color),
            Some((object, record)) => exists|scattered: Option<(C, Ray<V>)>|
                #[trigger] call_ensures(M::scatter, (&object.material, &ray, &record), scattered)
                    && self.is_bounce(objects, sky, depth, scattered, color),
        }
    }

    /// `color` is a possible colour of a ray at bounce `depth`, given what
    /// the material made of it: black if it was absorbed, else the
    /// attenuation applied to the colour of the scattered ray, one bounce
    /// deeper.
    pub open spec fn is_bounce<V, C, S, M>(
        self,
        objects: Seq<SceneObject<S, M>>,
        sky: spec_fn(V, C) -> bool,
        depth: nat,
        scattered: Option<(C, Ray<V>)>,
        color: C,
    ) -> bool where V: Vector, C: Radiance, S: Hittable<T, V>, M: Material<T, V, C>
        decreases self.settings.max_depth - depth, 0nat,
    {
        match scattered {
            None => call_ensures(C::black, (), color),
            Some((attenuation, next)) => depth < self.settings.max_depth && exists|inner: C|
                self.is_ray_color(objects, sky, depth + 1, next, inner) && #[trigger] call_ensures(
                    C::attenuate,
                    (&attenuation, inner),
                    color,
                ),
        }
    }

    /// `samples` are possible colours of the primary rays `primary`, one for
    /// each sample of a pixel whose rays `rays` allows.
    pub open spec fn is_sampling<V, C, S, M>(
        self,
        objects: Seq<SceneObject<S, M>>,
        sky: spec_fn(V, C) -> bool,
        rays: spec_fn(Ray<V>) -> bool,
        primary: Seq<Ray<V>>,
        samples: Seq<C>,
    ) -> bool where V: Vector, C: Radiance, S: Hittable<T, V>, M: Material<T, V, C> {
        &&& primary.len() == self.settings.samples_per_pixel
        &&& samples.len() == self.settings.samples_per_pixel
        &&& forall|i: int|
            0 <= i < primary.len() ==> rays(#[trigger] primary[i]) && self.is_ray_color(
                objects,
                sky,
                0,
                primary[i],
                samples[i],
            )
    }

    /// `color` is a possible colour of a pixel whose primary rays `rays`
    /// allows: the average of the colours of `samples_per_pixel` such rays.
    pub open spec fn is_pixel_color<V, C, S, M>(
        self,
        objects: Seq<SceneObject<S, M>>,
        sky: spec_fn(V, C) -> bool,
        rays: spec_fn(Ray<V>) -> bool,
        color: C,
    ) -> bool where V: Vector, C: Radiance, S: Hittable<T, V>, M: Material<T, V, C> {
        exists|primary: Seq<Ray<V>>, samples: Vec<C>|
            #[trigger] self.is_sampling(objects, sky, rays, primary, samples@) && call_ensures(
                C::average,
                (samples,),
                color,
            )
    }

    /// The colour that `ray` brings back from `scene`, where `depth` bounces
    /// lie behind it already.
    pub fn ray_color<V, C, S, M, B>(&self, scene: &Scene<S, M, B>, depth: usize, ray: &Ray<V>) -> (color:
        C) where V: Vector + Copy, C: Radiance, S: Hittable<T, V>, M: Material<T, V, C>, B: Fn(V) -> C
        requires
            scene.sky_is_total::<V, C>(),
        ensures
            self.is_ray_color(scene.objects@, scene.sky_colors(), depth as nat, *ray, color),
            depth >= self.settings.max_depth ==> call_ensures(C::black, (), color),
        decreases self.settings.max_depth - depth,
    {
        if depth >= self.settings.max_depth {
            return C::black();
        }
        match scene.first_hit(ray, self.tmin, self.tmax) {
            None => scene.background(ray),
            Some((object, hit_record)) => {
                match object.material.scatter(ray, &hit_record) {
                    None => C::black(),
                    Some((attenuation, scattered_ray)) => {
                        let scattered_ray_color = self.ray_color(scene, depth + 1, &scattered_ray);
                        attenuation.attenuate(scattered_ray_color)
                    },
                }
            },
        }
    }

    /// `color` is what a ray brings back where no second bounce is
    /// followed: the sky's colour on a miss, black where the material
    /// absorbs, and the attenuation applied to black where it scatters.
    pub open spec fn is_direct_light<V, C, S, M>(
        self,
        objects: Seq<SceneObject<S, M>>,
        sky: spec_fn(V, C) -> bool,
        ray: Ray<V>,
        color: C,
    ) -> bool where V: Vector, C: Radiance, S: Hittable<T, V>, M: Material<T, V, C> {
        exists|found: Option<(SceneObject<S, M>, HitRecord<T, V>)>|
            #[trigger] is_first_hit(objects, ray, self.tmin, self.tmax, found) && match found {
                None => is_background(sky, ray, color),
                Some((object, record)) => exists|scattered: Option<(C, Ray<V>)>|
                    #[trigger] call_ensures(
                        M::scatter,
                        (&object.material, &ray, &record),
                        scattered,
                    ) && match scattered {
                        None => call_ensures(C::black, (), color),
                        Some((attenuation, next)) => exists|inner: C|
                            call_ensures(C::black, (), inner) && #[trigger] call_ensures(
                                C::attenuate,
                                (&attenuation, inner),
                                color,
                            ),
                    },
            }
    }

    /// With a depth limit of one bounce, a primary ray brings back direct
    /// light only: the sky where it hits nothing, and the material's own
    /// answer with black behind it where it hits.
    pub proof fn lemma_single_bounce<V, C, S, M>(
        self,
        objects: Seq<SceneObject<S, M>>,
        sky: spec_fn(V, C) -> bool,
        ray: Ray<V>,
        color: C,
    ) where V: Vector, C: Radiance, S: Hittable<T, V>, M: Material<T, V, C>
        requires
            self.settings.max_depth == 1,
        ensures
            self.is_ray_color(objects, sky, 0, ray, color) <==> self.is_direct_light(
                objects,
                sky,
                ray,
                color,
            ),
    {
        reveal_with_fuel(Tracer::is_ray_color, 2);
        reveal_with_fuel(Tracer::is_shade, 2);
        reveal_with_fuel(Tracer::is_bounce, 2);
    }

    /// The colour of the pixel in column `x` of row `y`: the average of
    /// `samples_per_pixel` samples, each the colour of a primary ray that
    /// `sample_ray` gives for the pixel.
    pub fn render_pixel<V, C, S, M, B, L>(
        &self,
        scene: &Scene<S, M, B>,
        x: usize,
        y: usize,
        sample_ray: &L,
    ) -> (color: C) where
        V: Vector + Copy,
        C: Radiance,
        S: Hittable<T, V>,
        M: Material<T, V, C>,
        B: Fn(V) -> C,
        L: Fn(usize, usize) -> Ray<V>,

        requires
            scene.sky_is_total::<V, C>(),
            call_requires(*sample_ray, (x, y)),
        ensures
            self.is_pixel_color(
                scene.objects@,
                scene.sky_colors(),
                rays_of(*sample_ray, x, y),
                color,
            ),
    {
        let mut samples: Vec<C> = Vec::new();
        let ghost mut primary: Seq<Ray<V>> = Seq::empty();
        let ghost rays = rays_of(*sample_ray, x, y);
        while samples.len() < self.settings.samples_per_pixel
            invariant
                scene.sky_is_total::<V, C>(),
                call_requires(*sample_ray, (x, y)),
                rays == rays_of(*sample_ray, x, y),
                samples@.len() <= self.settings.samples_per_pixel,
                primary.len() == samples@.len(),
                forall|i: int|
                    0 <= i < primary.len() ==> rays(#[trigger] primary[i]) && self.is_ray_color(
                        scene.objects@,
                        scene.sky_colors(),
                        0,
                        primary[i],
                        samples@[i],
                    ),
            decreases self.settings.samples_per_pixel - samples@.len(),
        {
            let ray = sample_ray(x, y);
            let sample = self.ray_color(scene, 0, &ray);
            samples.push(sample);
            proof {
                primary = primary.push(ray);
            }
        }
        proof {
            assert(self.is_sampling(scene.objects@, scene.sky_colors(), rays, primary, samples@));
        }
        C::average(samples)
    }

    /// Row `y` of an image `width` pixels wide, left to right.
    pub fn render_line<V, C, S, M, B, L>(
        &self,
        scene: &Scene<S, M, B>,
        width: usize,
        y: usize,
        sample_ray: &L,
    ) -> (line: Vec<C>) where
        V: Vector + Copy,
        C: Radiance,
        S: Hittable<T, V>,
        M: Material<T, V, C>,
        B: Fn(V) -> C,
        L: Fn(usize, usize) -> Ray<V>,

        requires
            scene.sky_is_total::<V, C>(),
            forall|x: usize| x < width ==> call_requires(*sample_ray, (x, y)),
        ensures
            line@.len() == width,
            forall|x: usize|
                x < width ==> self.is_pixel_color(
                    scene.objects@,
                    scene.sky_colors(),
                    rays_of(*sample_ray, x, y),
                    #[trigger] line@[x as int],
                ),
    {
        let mut line: Vec<C> = Vec::new();
        let mut x: usize = 0;
        while x < width
            invariant
                scene.sky_is_total::<V, C>(),
                forall|x: usize| x < width ==> call_requires(*sample_ray, (x, y)),
                x <= width,
                line@.len() == x,
                forall|k: usize|
                    k < x ==> self.is_pixel_color(
                        scene.objects@,
                        scene.sky_colors(),
                        rays_of(*sample_ray, k, y),
                        #[trigger] line@[k as int],
                    ),
            decreases width - x,
        {
            let color = self.render_pixel(scene, x, y, sample_ray);
            line.push(color);
            x = x + 1;
        }
        line
    }
}

} // verus!
