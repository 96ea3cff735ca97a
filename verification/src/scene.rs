//! The scene: shapes bound to materials, and the nearest-hit query.
//!
//! Shapes and materials are the caller's. What a shape's `hit` or a
//! material's `scatter` may return is whatever its own contract allows; the
//! contracts here speak of it through `call_ensures`.

use crate::geometry::{Ray, Vector};
use crate::tracing::Radiance;
use vstd::prelude::*;

verus! {

/// A successful intersection: the ray parameter `t`, the point hit, the
/// surface normal there, and whether the ray met the surface from outside.
#[derive(Copy, Clone, Debug, PartialEq)]
pub struct HitRecord<T, V> {
    pub t: T,
    pub hit_point: V,
    pub normal: V,
    pub front_face: bool,
}

/// Geometry that a ray can be tested against.
pub trait Hittable<T, V> {
    /// The intersection of `ray` with the shape that the shape accepts
    /// between `tmin` and `tmax`, if any.
    fn hit(&self, ray: &Ray<V>, tmin: T, tmax: T) -> Option<HitRecord<T, V>>;

    /// Whether `point` lies inside the shape.
    fn contains(&self, point: V) -> bool;
}

/// A surface that scatters light. `None` means that the ray is absorbed;
/// otherwise the result is the attenuation and the outgoing ray.
pub trait Material<T, V, C> {
    fn scatter(&self, ray: &Ray<V>, hit_record: &HitRecord<T, V>) -> Option<(C, Ray<V>)>;
}

/// One shape with the material that covers it.
pub struct SceneObject<S, M> {
    pub shape: S,
    pub material: M,
}

/// The background of a scene: the colour seen along a direction that hits
/// nothing.
pub enum Sky<B> {
    /// Black in every direction.
    Black,
    /// The colour that the function gives for the direction.
    ColorMap(B),
}

/// The renderable world: a list of objects and the background `sky`.
pub struct Scene<S, M, B> {
    pub sky: Sky<B>,
    pub objects: Vec<SceneObject<S, M>>,
}

/// `color` is a possible colour of the background behind `ray`, where `sky`
/// says which colours lie along a direction: a colour along the normalised
/// direction of the ray.
pub open spec fn is_background<V: Vector, C>(
    sky: spec_fn(V, C) -> bool,
    ray: Ray<V>,
    color: C,
) -> bool {
    exists|unit: V| #[trigger] call_ensures(V::normalize, (ray.direction,), unit) && sky(unit, color)
}

/// The upper bound in force after the tests recorded in `hits`: the `t` of
/// the last hit among them, or `tmax` if none hit.
pub open spec fn bound_after<T, V>(hits: Seq<Option<HitRecord<T, V>>>, tmax: T) -> T
    decreases hits.len(),
{
    if hits.len() == 0 {
        tmax
    } else {
        match hits.last() {
            Some(record) => record.t,
            None => bound_after(hits.drop_last(), tmax),
        }
    }
}

/// The last hit recorded in `hits` with the index of the object that gave it.
pub open spec fn last_hit<T, V>(hits: Seq<Option<HitRecord<T, V>>>) -> Option<
    (int, HitRecord<T, V>),
>
    decreases hits.len(),
{
    if hits.len() == 0 {
        None
    } else {
        match hits.last() {
            Some(record) => Some((hits.len() - 1, record)),
            None => last_hit(hits.drop_last()),
        }
    }
}

/// `hits` records one scan of `objects`: each object in turn was tested
/// between `tmin` and the bound left by the objects before it, and
/// `hits[i]` is what object `i` answered.
pub open spec fn is_scan<T, V, S: Hittable<T, V>, M>(
    objects: Seq<SceneObject<S, M>>,
    ray: Ray<V>,
    tmin: T,
    tmax: T,
    hits: Seq<Option<HitRecord<T, V>>>,
) -> bool {
    &&& hits.len() == objects.len()
    &&& forall|i: int|
        0 <= i < objects.len() ==> call_ensures(
            S::hit,
            (&objects[i].shape, &ray, tmin, bound_after(hits.take(i), tmax)),
            #[trigger] hits[i],
        )
}

/// `found` is a possible answer of the nearest-hit query: the last hit of
/// some scan, with the object that gave it.
pub open spec fn is_first_hit<T, V, S: Hittable<T, V>, M>(
    objects: Seq<SceneObject<S, M>>,
    ray: Ray<V>,
    tmin: T,
    tmax: T,
    found: Option<(SceneObject<S, M>, HitRecord<T, V>)>,
) -> bool {
    exists|hits: Seq<Option<HitRecord<T, V>>>|
        #![auto]
        is_scan(objects, ray, tmin, tmax, hits) && found == match last_hit(hits) {
            Some((i, record)) => Some((objects[i], record)),
            None => None,
        }
}

impl<S, M, B> Scene<S, M, B> {
    /// The colours that the sky may give along a direction: black under a
    /// black sky, else what the sky's function may return.
    pub open spec fn sky_colors<V, C>(self) -> spec_fn(V, C) -> bool where
        B: Fn(V) -> C,
        C: Radiance,
     {
        |direction: V, color: C|
            match self.sky {
                Sky::Black => call_ensures(C::black, (), color),
                Sky::ColorMap(map) => call_ensures(map, (direction,), color),
            }
    }

    /// The sky has a colour for every direction.
    pub open spec fn sky_is_total<V, C>(self) -> bool where B: Fn(V) -> C {
        match self.sky {
            Sky::Black => true,
            Sky::ColorMap(map) => forall|direction: V| call_requires(map, (direction,)),
        }
    }

    /// Under a black sky, as a new scene has it, every direction has a
    /// colour, and that colour is black.
    pub proof fn lemma_black_sky<V, C>(self, direction: V, color: C) where
        B: Fn(V) -> C,
        C: Radiance,

        requires
            self.sky is Black,
        ensures
            self.sky_is_total::<V, C>(),
            self.sky_colors::<V, C>()(direction, color) == call_ensures(C::black, (), color),
    {
    }

    /// A scene without objects, under a sky that is black in every
    /// direction.
    pub fn new() -> (scene: Self)
        ensures
            scene.sky is Black,
            scene.objects@.len() == 0,
    {
        Scene { sky: Sky::Black, objects: Vec::new() }
    }

    /// The colour of the background behind `ray`: what the sky gives for
    /// the ray's normalised direction.
    pub fn background<V, C>(&self, ray: &Ray<V>) -> (color: C) where
        V: Vector + Copy,
        C: Radiance,
        B: Fn(V) -> C,

        requires
            self.sky_is_total::<V, C>(),
        ensures
            is_background(self.sky_colors(), *ray, color),
    {
        let unit = ray.direction.normalize();
        match &self.sky {
            Sky::Black => C::black(),
            Sky::ColorMap(map) => map(unit),
        }
    }

    /// Adds `shape`, covered by `material`, behind the objects already there.
    pub fn add_object(&mut self, shape: S, material: M)
        ensures
            final(self).sky == old(self).sky,
            final(self).objects@ == old(self).objects@.push(SceneObject { shape, material }),
    {
        self.objects.push(SceneObject { shape, material });
    }

    /// The nearest intersection of `ray` with the scene between `tmin` and
    /// `tmax`. The objects are tested in order; each hit lowers the upper
    /// bound for those after it to its own `t`, so a later object wins only
    /// by passing its own test under that bound.
    pub fn first_hit<T: Copy, V>(&self, ray: &Ray<V>, tmin: T, tmax: T) -> (found: Option<
        (&SceneObject<S, M>, HitRecord<T, V>),
    >) where S: Hittable<T, V>
        ensures
            is_first_hit(
                self.objects@,
                *ray,
                tmin,
                tmax,
                match found {
                    Some((object, record)) => Some((*object, record)),
                    None => None,
                },
            ),
    {
        let mut closest: Option<(&SceneObject<S, M>, HitRecord<T, V>)> = None;
        let mut closest_distance = tmax;
        let ghost mut hits: Seq<Option<HitRecord<T, V>>> = Seq::empty();
        let mut i: usize = 0;
        while i < self.objects.len()
            invariant
                i <= self.objects@.len(),
                hits.len() == i,
                forall|j: int|
                    0 <= j < i ==> call_ensures(
                        S::hit,
                        (&self.objects@[j].shape, ray, tmin, bound_after(hits.take(j), tmax)),
                        #[trigger] hits[j],
                    ),
                closest_distance == bound_after(hits, tmax),
                match closest {
                    Some((object, record)) => last_hit(hits) == Some(
                        (last_hit(hits).unwrap().0, record),
                    ) && 0 <= last_hit(hits).unwrap().0 < i && *object
                        == self.objects@[last_hit(hits).unwrap().0],
                    None => last_hit(hits) is None,
                },
            decreases self.objects@.len() - i,
        {
            let object = &self.objects[i];
            let answer = object.shape.hit(ray, tmin, closest_distance);
            proof {
                let before = hits;
                hits = hits.push(answer);
                assert(hits.take(i as int) =~= before);
                assert(hits.drop_last() =~= before);
                assert forall|j: int| 0 <= j < i implies hits.take(j) == before.take(j) by {
                    assert(hits.take(j) =~= before.take(j));
                }
            }
            if let Some(hit_record) = answer {
                closest_distance = hit_record.t;
                closest = Some((object, hit_record));
            }
            i = i + 1;
        }
        proof {
            assert(hits.take(i as int) =~= hits);
            assert(is_scan(self.objects@, *ray, tmin, tmax, hits));
        }
        closest
    }
}

/// The nearest hit wins. `below(a, b)` says that `a` lies strictly below
/// `b`. Where every shape answers only with hits strictly below the upper
/// bound it was asked with, the scan ends with a hit that lies strictly
/// below every other hit of the scan, and every hit lies strictly below
/// `tmax`.
pub proof fn lemma_last_hit_is_nearest<T, V, S: Hittable<T, V>, M>(
    objects: Seq<SceneObject<S, M>>,
    ray: Ray<V>,
    tmin: T,
    tmax: T,
    hits: Seq<Option<HitRecord<T, V>>>,
    below: spec_fn(T, T) -> bool,
)
    requires
        is_scan(objects, ray, tmin, tmax, hits),
        forall|a: T, b: T, c: T| #[trigger] below(a, b) && #[trigger] below(b, c) ==> below(a, c),
        forall|shape: &S, r: &Ray<V>, lo: T, hi: T, record: HitRecord<T, V>| #[trigger]
            call_ensures(S::hit, (shape, r, lo, hi), Some(record)) ==> below(record.t, hi),
    ensures
        forall|i: int|
            0 <= i < hits.len() && (#[trigger] hits[i]) is Some ==> {
                &&& below(hits[i].unwrap().t, tmax)
                &&& last_hit(hits) is Some
                &&& i <= last_hit(hits).unwrap().0 < hits.len()
                &&& hits[last_hit(hits).unwrap().0] == Some(last_hit(hits).unwrap().1)
                &&& i != last_hit(hits).unwrap().0 ==> below(
                    last_hit(hits).unwrap().1.t,
                    hits[i].unwrap().t,
                )
            },
{
    lemma_prefix_nearest(objects, ray, tmin, tmax, hits, below, hits.len());
    assert(hits.take(hits.len() as int) =~= hits);
}

/// The statement of [`lemma_last_hit_is_nearest`] for the first `n` tests of
/// a scan.
proof fn lemma_prefix_nearest<T, V, S: Hittable<T, V>, M>(
    objects: Seq<SceneObject<S, M>>,
    ray: Ray<V>,
    tmin: T,
    tmax: T,
    hits: Seq<Option<HitRecord<T, V>>>,
    below: spec_fn(T, T) -> bool,
    n: nat,
)
    requires
        is_scan(objects, ray, tmin, tmax, hits),
        n <= hits.len(),
        forall|a: T, b: T, c: T| #[trigger] below(a, b) && #[trigger] below(b, c) ==> below(a, c),
        forall|shape: &S, r: &Ray<V>, lo: T, hi: T, record: HitRecord<T, V>| #[trigger]
            call_ensures(S::hit, (shape, r, lo, hi), Some(record)) ==> below(record.t, hi),
    ensures
        last_hit(hits.take(n as int)) is None ==> bound_after(hits.take(n as int), tmax) == tmax,
        last_hit(hits.take(n as int)) matches Some((j, record)) ==> 0 <= j < n && hits[j] == Some(
            record,
        ) && bound_after(hits.take(n as int), tmax) == record.t,
        forall|i: int|
            0 <= i < n && (#[trigger] hits[i]) is Some ==> {
                &&& below(hits[i].unwrap().t, tmax)
                &&& last_hit(hits.take(n as int)) is Some
                &&& i <= last_hit(hits.take(n as int)).unwrap().0
                &&& i != last_hit(hits.take(n as int)).unwrap().0 ==> below(
                    last_hit(hits.take(n as int)).unwrap().1.t,
                    hits[i].unwrap().t,
                )
            },
    decreases n,
{
    if n > 0 {
        let m = (n - 1) as nat;
        lemma_prefix_nearest(objects, ray, tmin, tmax, hits, below, m);
        let shorter = hits.take(m as int);
        let longer = hits.take(n as int);
        assert(longer.drop_last() =~= shorter);
        assert(longer.last() == hits[m as int]);
        assert(call_ensures(
            S::hit,
            (&objects[m as int].shape, &ray, tmin, bound_after(shorter, tmax)),
            hits[m as int],
        ));
    }
}

/// `shape` answers every test of `ray` from `tmin` by one fixed `candidate`,
/// which lies above `tmin`: with the candidate where it lies strictly below
/// the upper bound of the test, and with nothing where it does not or where
/// there is none.
pub open spec fn answers_by<T, V, S: Hittable<T, V>>(
    shape: S,
    ray: Ray<V>,
    tmin: T,
    candidate: Option<HitRecord<T, V>>,
    below: spec_fn(T, T) -> bool,
) -> bool {
    &&& candidate matches Some(record) ==> below(tmin, record.t)
    &&& forall|hi: T, answer: Option<HitRecord<T, V>>| #[trigger]
        call_ensures(S::hit, (&shape, &ray, tmin, hi), answer) ==> answer == match candidate {
            Some(record) => if below(record.t, hi) {
                Some(record)
            } else {
                None
            },
            None => None,
        }
}

/// `below` is a strict order: nothing lies below itself, and what lies below
/// something that lies below a third lies below the third.
#[verifier::opaque]
pub open spec fn is_strict_order<T>(below: spec_fn(T, T) -> bool) -> bool {
    &&& forall|a: T| !#[trigger] below(a, a)
    &&& forall|a: T, b: T, c: T| #[trigger] below(a, b) && #[trigger] below(b, c) ==> below(a, c)
}

/// One use of a strict order: `a` below `b`, and `b` below or at `c`, puts
/// `a` below `c` and apart from it.
proof fn lemma_chain<T>(below: spec_fn(T, T) -> bool, a: T, b: T, c: T)
    requires
        is_strict_order(below),
        below(a, b),
        below(b, c) || b == c,
    ensures
        below(a, c),
        a != c,
{
    reveal(is_strict_order);
}

/// The scan finds the minimum, whatever the order of the objects. Where
/// `below` is a strict order and each object answers by a fixed candidate,
/// the scan ends with a candidate that lies between `tmin` and `tmax` and
/// that no other candidate lies below; it ends with nothing only where no candidate lies
/// below `tmax`.
pub proof fn lemma_first_hit_is_minimum<T, V, S: Hittable<T, V>, M>(
    objects: Seq<SceneObject<S, M>>,
    ray: Ray<V>,
    tmin: T,
    tmax: T,
    hits: Seq<Option<HitRecord<T, V>>>,
    below: spec_fn(T, T) -> bool,
    candidates: Seq<Option<HitRecord<T, V>>>,
)
    requires
        is_scan(objects, ray, tmin, tmax, hits),
        is_strict_order(below),
        candidates.len() == objects.len(),
        forall|i: int|
            0 <= i < objects.len() ==> answers_by(
                (#[trigger] objects[i]).shape,
                ray,
                tmin,
                candidates[i],
                below,
            ),
    ensures
        last_hit(hits) matches Some((j, winner)) ==> {
            &&& 0 <= j < objects.len()
            &&& candidates[j] == Some(winner)
            &&& below(tmin, winner.t)
            &&& below(winner.t, tmax)
            &&& forall|i: int|
                0 <= i < objects.len() && (#[trigger] candidates[i]) is Some ==> !below(
                    candidates[i].unwrap().t,
                    winner.t,
                )
        },
        last_hit(hits) is None ==> forall|i: int|
            0 <= i < objects.len() && (#[trigger] candidates[i]) is Some ==> !below(
                candidates[i].unwrap().t,
                tmax,
            ),
{
    lemma_prefix_minimum(objects, ray, tmin, tmax, hits, below, candidates, hits.len());
    assert(hits.take(hits.len() as int) =~= hits);
    if let Some((j, winner)) = last_hit(hits) {
        assert(answers_by(objects[j].shape, ray, tmin, candidates[j], below));
    }
}

/// What the nearest-hit query returns is the nearest hit of the scene. Where
/// `below` is a strict order and each object answers by a fixed candidate:
/// a hit that is returned belongs to an object of the scene and is what that
/// object answers, it lies between `tmin` and `tmax`, and no object, tested between
/// `tmin` and `tmax`, answers with a hit below it; where nothing is
/// returned, no object answers such a test with a hit.
pub proof fn lemma_first_hit_is_nearest<T, V, S: Hittable<T, V>, M>(
    objects: Seq<SceneObject<S, M>>,
    ray: Ray<V>,
    tmin: T,
    tmax: T,
    found: Option<(SceneObject<S, M>, HitRecord<T, V>)>,
    below: spec_fn(T, T) -> bool,
    candidates: Seq<Option<HitRecord<T, V>>>,
)
    requires
        is_first_hit(objects, ray, tmin, tmax, found),
        is_strict_order(below),
        candidates.len() == objects.len(),
        forall|i: int|
            0 <= i < objects.len() ==> answers_by(
                (#[trigger] objects[i]).shape,
                ray,
                tmin,
                candidates[i],
                below,
            ),
    ensures
        found matches Some((object, record)) ==> {
            &&& exists|j: int|
                0 <= j < objects.len() && #[trigger] objects[j] == object && candidates[j] == Some(
                    record,
                )
            &&& below(tmin, record.t)
            &&& below(record.t, tmax)
            &&& forall|i: int, answer: Option<HitRecord<T, V>>|
                0 <= i < objects.len() && #[trigger] call_ensures(
                    S::hit,
                    (&objects[i].shape, &ray, tmin, tmax),
                    answer,
                ) ==> answer is None || !below(answer.unwrap().t, record.t)
        },
        found is None ==> forall|i: int, answer: Option<HitRecord<T, V>>|
            0 <= i < objects.len() && #[trigger] call_ensures(
                S::hit,
                (&objects[i].shape, &ray, tmin, tmax),
                answer,
            ) ==> answer is None,
{
    let hits = choose|hits: Seq<Option<HitRecord<T, V>>>|
        #![auto]
        is_scan(objects, ray, tmin, tmax, hits) && found == match last_hit(hits) {
            Some((i, record)) => Some((objects[i], record)),
            None => None,
        };
    lemma_first_hit_is_minimum(objects, ray, tmin, tmax, hits, below, candidates);
    assert forall|i: int, answer: Option<HitRecord<T, V>>|
        0 <= i < objects.len() && #[trigger] call_ensures(
            S::hit,
            (&objects[i].shape, &ray, tmin, tmax),
            answer,
        ) implies match found {
        Some((object, record)) => answer is None || !below(answer.unwrap().t, record.t),
        None => answer is None,
    } by {
        assert(answers_by(objects[i].shape, ray, tmin, candidates[i], below));
        if answer is Some {
            assert(candidates[i] is Some);
        }
    }
    if let Some((j, winner)) = last_hit(hits) {
        assert(objects[j] == found.unwrap().0);
    }
}

/// What [`lemma_first_hit_is_minimum`] states, of the first `n` tests of a
/// scan: `bound` is the upper bound that they leave.
spec fn is_prefix_minimum<T, V>(
    tmax: T,
    below: spec_fn(T, T) -> bool,
    candidates: Seq<Option<HitRecord<T, V>>>,
    n: nat,
    found: Option<(int, HitRecord<T, V>)>,
    bound: T,
) -> bool {
    match found {
        Some((j, winner)) => {
            &&& 0 <= j < n
            &&& candidates[j] == Some(winner)
            &&& below(winner.t, tmax)
            &&& bound == winner.t
            &&& forall|i: int|
                0 <= i < n && (#[trigger] candidates[i]) is Some ==> !below(
                    candidates[i].unwrap().t,
                    winner.t,
                )
        },
        None => {
            &&& bound == tmax
            &&& forall|i: int|
                0 <= i < n && (#[trigger] candidates[i]) is Some ==> !below(
                    candidates[i].unwrap().t,
                    tmax,
                )
        },
    }
}

/// One more test keeps [`is_prefix_minimum`].
proof fn lemma_minimum_step<T, V>(
    tmax: T,
    below: spec_fn(T, T) -> bool,
    candidates: Seq<Option<HitRecord<T, V>>>,
    m: nat,
    found: Option<(int, HitRecord<T, V>)>,
    bound: T,
    answer: Option<HitRecord<T, V>>,
)
    requires
        is_strict_order(below),
        m < candidates.len(),
        is_prefix_minimum(tmax, below, candidates, m, found, bound),
        answer == match candidates[m as int] {
            Some(record) => if below(record.t, bound) {
                Some(record)
            } else {
                None
            },
            None => None,
        },
    ensures
        is_prefix_minimum(
            tmax,
            below,
            candidates,
            m + 1,
            match answer {
                Some(record) => Some((m as int, record)),
                None => found,
            },
            match answer {
                Some(record) => record.t,
                None => bound,
            },
        ),
{
    match answer {
        Some(record) => {
            lemma_chain(below, record.t, bound, tmax);
            assert forall|i: int|
                0 <= i < m + 1 && (#[trigger] candidates[i]) is Some implies !below(
                candidates[i].unwrap().t,
                record.t,
            ) by {
                let t = candidates[i].unwrap().t;
                if below(t, record.t) {
                    lemma_chain(below, t, record.t, bound);
                    if i == m {
                        lemma_chain(below, t, t, t);
                    }
                }
            }
        },
        None => {},
    }
}

/// The statement of [`lemma_first_hit_is_minimum`] for the first `n` tests of
/// a scan.
proof fn lemma_prefix_minimum<T, V, S: Hittable<T, V>, M>(
    objects: Seq<SceneObject<S, M>>,
    ray: Ray<V>,
    tmin: T,
    tmax: T,
    hits: Seq<Option<HitRecord<T, V>>>,
    below: spec_fn(T, T) -> bool,
    candidates: Seq<Option<HitRecord<T, V>>>,
    n: nat,
)
    requires
        is_scan(objects, ray, tmin, tmax, hits),
        n <= hits.len(),
        is_strict_order(below),
        candidates.len() == objects.len(),
        forall|i: int|
            0 <= i < objects.len() ==> answers_by(
                (#[trigger] objects[i]).shape,
                ray,
                tmin,
                candidates[i],
                below,
            ),
    ensures
        is_prefix_minimum(
            tmax,
            below,
            candidates,
            n,
            last_hit(hits.take(n as int)),
            bound_after(hits.take(n as int), tmax),
        ),
    decreases n,
{
    if n > 0 {
        let m = (n - 1) as nat;
        lemma_prefix_minimum(objects, ray, tmin, tmax, hits, below, candidates, m);
        let shorter = hits.take(m as int);
        let longer = hits.take(n as int);
        assert(longer.drop_last() =~= shorter);
        assert(longer.last() == hits[m as int]);
        assert(answers_by(objects[m as int].shape, ray, tmin, candidates[m as int], below));
        assert(call_ensures(
            S::hit,
            (&objects[m as int].shape, &ray, tmin, bound_after(shorter, tmax)),
            hits[m as int],
        ));
        lemma_minimum_step(
            tmax,
            below,
            candidates,
            m,
            last_hit(shorter),
            bound_after(shorter, tmax),
            hits[m as int],
        );
    }
}

} // verus!
