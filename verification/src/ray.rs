//! Rays, spheres, materials and the recursive color integrator.

use crate::rng::Rng;
use crate::rng::spec_rng_next;
use crate::rng::spec_unit_scalar;
use crate::scalar::SCALE;
use crate::scalar::lemma_isqrt_is;
use crate::scalar::lemma_mul_units;
use crate::scalar::mag;
use crate::scalar::trunc_div;
use crate::scalar::Scalar;
use crate::vec3::Vec3;
use vstd::prelude::*;

verus! {

/// Attempts the rejection sampler makes before settling for the center
/// of the unit sphere.  Unbounded rejection sampling terminates only
/// almost surely; the cap makes termination a theorem and leaves
/// ordinary renders untouched, since each attempt succeeds with
/// probability about one half.
pub const SAMPLE_ATTEMPTS: u32 = 64;

/// How deep the color integrator follows scattered rays before it
/// reports no light.  Without a bound, two facing mirrors could keep a
/// ray scattering forever; past the bound the ray contributes nothing.
pub const MAX_SCATTER_DEPTH: u32 = 50;

/// A half line: origin and direction.  The direction need not be unit
/// length.
#[derive(Clone, Copy, Debug, PartialEq, Eq, Structural)]
pub struct Ray {
    pub origin: Vec3,
    pub direction: Vec3,
}

/// What a material does to light: its mirror weight, its own color and
/// the fraction of light it keeps.
#[derive(Clone, Copy, Debug, PartialEq, Eq, Structural)]
pub struct StandardMaterial {
    pub reflection: Scalar,
    pub color: Vec3,
    pub albedo: Scalar,
}

/// The outcome of an intersection test.
#[derive(Clone, Copy, Debug, PartialEq, Eq, Structural)]
pub enum Hit {
    NoHit,
    Hit { t: Scalar, point: Vec3, normal: Vec3, material: StandardMaterial },
}

/// Anything a ray can strike.
pub trait Hitable {
    /// The intersection this object reports for a ray.
    spec fn spec_hit(&self, r: Ray) -> Hit;

    /// The nearest intersection in front of the ray origin, or `NoHit`.
    fn hit(&self, r: Ray) -> (h: Hit)
        ensures
            h == self.spec_hit(r),
    ;
}

/// A sphere with its material.
#[derive(Clone, Copy, Debug, PartialEq, Eq, Structural)]
pub struct Sphere {
    pub center: Vec3,
    pub radius: Scalar,
    pub material: StandardMaterial,
}

impl Hitable for Sphere {
    /// Solves `a*t^2 + b*t + c = 0` for the ray parameter of the near
    /// intersection, where `a = dot(direction, direction)`,
    /// `b = 2 * dot(origin - center, direction)` and
    /// `c = dot(origin - center, origin - center) - radius^2`.  A
    /// negative discriminant, a hit behind the origin (`t < 0`), a
    /// degenerate direction (`a == 0`) or a zero radius all report no
    /// hit; the last two would otherwise divide by zero and are treated
    /// as carrying no contribution.
    open spec fn spec_hit(&self, r: Ray) -> Hit {
        let two = Scalar { units: 2_000_000 };
        let four = Scalar { units: 4_000_000 };
        let oc = r.origin.spec_sub(self.center);
        let a = r.direction.spec_dot(r.direction);
        let b = two.spec_mul(oc.spec_dot(r.direction));
        let c = oc.spec_dot(oc).spec_sub(self.radius.spec_mul(self.radius));
        let discriminant = b.spec_mul(b).spec_sub(four.spec_mul(a).spec_mul(c));
        if discriminant.units < 0 || a.units == 0 || self.radius.units == 0 {
            Hit::NoHit
        } else {
            let hit_t = b.spec_neg().spec_sub(discriminant.spec_sqrt()).spec_div(two.spec_mul(a));
            if hit_t.units < 0 {
                Hit::NoHit
            } else {
                let hit_point = r.spec_point_at_t(hit_t);
                Hit::Hit {
                    t: hit_t,
                    point: hit_point,
                    normal: hit_point.spec_sub(self.center).spec_div(self.radius),
                    material: self.material,
                }
            }
        }
    }

    fn hit(&self, r: Ray) -> (h: Hit) {
        let two = Scalar { units: 2_000_000 };
        let four = Scalar { units: 4_000_000 };
        let oc = r.origin.sub(self.center);
        let a = r.direction.dot(r.direction);
        let b = two.mul(oc.dot(r.direction));
        let c = oc.dot(oc).sub(self.radius.mul(self.radius));
        let discriminant = b.mul(b).sub(four.mul(a).mul(c));
        if discriminant.units < 0 || a.units == 0 || self.radius.units == 0 {
            Hit::NoHit
        } else {
            let hit_t = b.neg().sub(discriminant.sqrt()).div(two.mul(a));
            if hit_t.units < 0 {
                Hit::NoHit
            } else {
                let hit_point = r.point_at_t(hit_t);
                Hit::Hit {
                    t: hit_t,
                    point: hit_point,
                    normal: hit_point.sub(self.center).div(self.radius),
                    material: self.material,
                }
            }
        }
    }
}

/// Of a running nearest hit and a new one, the one nearer the ray
/// origin; the earlier hit is kept on an exact tie.
pub open spec fn spec_nearer(nearest: Hit, candidate: Hit) -> Hit {
    match (nearest, candidate) {
        (Hit::NoHit, Hit::Hit { .. }) => candidate,
        (Hit::Hit { t, .. }, Hit::Hit { t: t_new, .. }) => if t_new.units < t.units {
            candidate
        } else {
            nearest
        },
        _ => nearest,
    }
}

/// The nearest hit over a sequence of spheres, scanned left to right.
pub open spec fn spec_scene_hit(objects: Seq<Sphere>, r: Ray) -> Hit
    decreases objects.len(),
{
    if objects.len() == 0 {
        Hit::NoHit
    } else {
        spec_nearer(spec_scene_hit(objects.drop_last(), r), objects.last().spec_hit(r))
    }
}

/// The ray parameter of a hit; zero for a miss.
pub open spec fn spec_hit_t(h: Hit) -> Scalar {
    match h {
        Hit::Hit { t, .. } => t,
        Hit::NoHit => Scalar { units: 0 },
    }
}

/// Law: the scene reports a hit exactly when some sphere does; the hit
/// it reports is one sphere's own hit; and no sphere's hit lies nearer
/// to the ray origin than the reported one.
pub proof fn lemma_scene_hit_nearest(objects: Seq<Sphere>, r: Ray)
    ensures
        spec_scene_hit(objects, r) is NoHit <==> (forall|i: int|
            0 <= i < objects.len() ==> #[trigger] objects[i].spec_hit(r) is NoHit),
        spec_scene_hit(objects, r) is Hit ==> exists|i: int|
            0 <= i < objects.len() && #[trigger] objects[i].spec_hit(r) == spec_scene_hit(
                objects,
                r,
            ),
        forall|i: int|
            0 <= i < objects.len() && #[trigger] objects[i].spec_hit(r) is Hit
                ==> spec_scene_hit(objects, r) is Hit && spec_hit_t(
                spec_scene_hit(objects, r),
            ).units <= spec_hit_t(objects[i].spec_hit(r)).units,
    decreases objects.len(),
{
    if objects.len() > 0 {
        let prefix = objects.drop_last();
        lemma_scene_hit_nearest(prefix, r);
        assert(forall|i: int| 0 <= i < prefix.len() ==> objects[i] == prefix[i]);
        let whole = spec_scene_hit(objects, r);
        let from_prefix = spec_scene_hit(prefix, r);
        let from_last = objects.last().spec_hit(r);
        assert(whole == spec_nearer(from_prefix, from_last));
        if whole is Hit {
            if whole == from_last {
                assert(objects[objects.len() - 1].spec_hit(r) == whole);
            } else {
                assert(whole == from_prefix);
                let j = choose|j: int|
                    0 <= j < prefix.len() && #[trigger] prefix[j].spec_hit(r) == from_prefix;
                assert(objects[j].spec_hit(r) == whole);
            }
        }
    }
}

/// Law: of two spheres that a ray strikes, the scene of the two reports
/// the strictly nearer sphere's hit, never the farther one's.
pub proof fn lemma_nearer_sphere_wins(near: Sphere, far: Sphere, r: Ray)
    requires
        near.spec_hit(r) is Hit,
        far.spec_hit(r) is Hit,
        spec_hit_t(near.spec_hit(r)).units < spec_hit_t(far.spec_hit(r)).units,
    ensures
        spec_scene_hit(seq![near, far], r) == near.spec_hit(r),
        spec_scene_hit(seq![far, near], r) == near.spec_hit(r),
{
    let both = seq![near, far];
    assert(both.drop_last() =~= seq![near]);
    assert(seq![near].drop_last() =~= Seq::<Sphere>::empty());
    assert(spec_scene_hit(Seq::<Sphere>::empty(), r) == Hit::NoHit);
    assert(seq![near].last() == near);
    assert(spec_scene_hit(seq![near], r) == near.spec_hit(r));
    assert(both.last() == far);
    assert(spec_scene_hit(both, r) == spec_nearer(near.spec_hit(r), far.spec_hit(r)));
    let flipped = seq![far, near];
    assert(flipped.drop_last() =~= seq![far]);
    assert(seq![far].drop_last() =~= Seq::<Sphere>::empty());
    assert(seq![far].last() == far);
    assert(spec_scene_hit(seq![far], r) == far.spec_hit(r));
    assert(flipped.last() == near);
    assert(spec_scene_hit(flipped, r) == spec_nearer(far.spec_hit(r), near.spec_hit(r)));
}

impl Hitable for Vec<Sphere> {
    open spec fn spec_hit(&self, r: Ray) -> Hit {
        spec_scene_hit(self@, r)
    }

    /// Scans every sphere and keeps the hit with the smallest `t`.
    fn hit(&self, r: Ray) -> (h: Hit) {
        let mut nearest_hit = Hit::NoHit;
        let mut i: usize = 0;
        while i < self.len()
            invariant
                i <= self.len(),
                nearest_hit == spec_scene_hit(self@.take(i as int), r),
            decreases self.len() - i,
        {
            let candidate = self[i].hit(r);
            let replace = match (nearest_hit, candidate) {
                (Hit::NoHit, Hit::Hit { .. }) => true,
                (Hit::Hit { t, .. }, Hit::Hit { t: t_new, .. }) => t_new.units < t.units,
                _ => false,
            };
            proof {
                assert(self@.take(i + 1).drop_last() =~= self@.take(i as int));
                assert(self@.take(i + 1).last() == self@[i as int]);
            }
            if replace {
                nearest_hit = candidate;
            }
            i = i + 1;
        }
        proof {
            assert(self@.take(self.len() as int) =~= self@);
        }
        nearest_hit
    }
}

/// A point drawn by bounded rejection from the sphere of radius one
/// around the origin, together with the generator state left behind.
/// When every attempt is rejected the sampler settles for the center.
pub open spec fn spec_rand_point(state: u64, attempts: nat) -> (Vec3, u64)
    decreases attempts,
{
    let zero = Scalar { units: 0 };
    if attempts == 0 {
        (Vec3(zero, zero, zero), state)
    } else {
        let s1 = spec_rng_next(state);
        let s2 = spec_rng_next(s1);
        let s3 = spec_rng_next(s2);
        let two = Scalar { units: 2_000_000 };
        let one = Scalar { units: 1_000_000 };
        let p = Vec3(spec_unit_scalar(state), spec_unit_scalar(s1), spec_unit_scalar(s2)).spec_mul(
            two,
        ).spec_sub(Vec3(one, one, one));
        if p.spec_length().units <= SCALE {
            (p, s3)
        } else {
            spec_rand_point(s3, (attempts - 1) as nat)
        }
    }
}

/// Draws a point inside the unit sphere: each attempt samples the cube
/// `[-1, 1)^3` and keeps the point when its length is at most one.
fn sample_point(rng: &mut Rng, attempts: u32) -> (p: Vec3)
    ensures
        (p, final(rng).state) == spec_rand_point(old(rng).state, attempts as nat),
        p.spec_length().units <= SCALE,
    decreases attempts,
{
    if attempts == 0 {
        let zero = Scalar { units: 0 };
        let p = Vec3(zero, zero, zero);
        proof {
            assert(zero.spec_mul(zero).units == 0);
            assert(p.spec_dot(p).units == 0);
            assert(p.spec_length().units == 0);
        }
        p
    } else {
        let two = Scalar { units: 2_000_000 };
        let one = Scalar { units: 1_000_000 };
        let r0 = rng.next_unit();
        let r1 = rng.next_unit();
        let r2 = rng.next_unit();
        let p = Vec3(r0, r1, r2).mul(two).sub(Vec3(one, one, one));
        let length = p.length();
        if length.units <= SCALE {
            p
        } else {
            sample_point(rng, attempts - 1)
        }
    }
}

pub fn random_point_in_unit_sphere(rng: &mut Rng) -> (p: Vec3)
    ensures
        (p, final(rng).state) == spec_rand_point(old(rng).state, SAMPLE_ATTEMPTS as nat),
        p.spec_length().units <= SCALE,
{
    sample_point(rng, SAMPLE_ATTEMPTS)
}

/// Linear rescaling: the value at the same relative position in the
/// output range as `in_value` holds in the input range.
pub open spec fn spec_scale_value_to_range(
    range_in_min: Scalar,
    range_in_max: Scalar,
    range_out_min: Scalar,
    range_out_max: Scalar,
    in_value: Scalar,
) -> Scalar {
    let range_in = range_in_max.spec_sub(range_in_min);
    let range_out = range_out_max.spec_sub(range_out_min);
    let scale = range_out.spec_div(range_in);
    let post_scale_shift = range_out_min.spec_sub(range_in_min.spec_mul(scale));
    in_value.spec_mul(scale).spec_add(post_scale_shift)
}

pub fn scale_value_to_range(
    range_in_min: Scalar,
    range_in_max: Scalar,
    range_out_min: Scalar,
    range_out_max: Scalar,
    in_value: Scalar,
) -> (r: Scalar)
    requires
        range_in_min.units != range_in_max.units,
    ensures
        r == spec_scale_value_to_range(range_in_min, range_in_max, range_out_min, range_out_max, in_value),
{
    let range_in = range_in_max.sub(range_in_min);
    let range_out = range_out_max.sub(range_out_min);
    let scale = range_out.div(range_in);
    let post_scale_shift = range_out_min.sub(range_in_min.mul(scale));
    in_value.mul(scale).add(post_scale_shift)
}

impl StandardMaterial {
    /// The scattered ray: the mirror direction and a diffuse bounce
    /// toward `normal + random_point_in_unit_sphere()`, blended by the
    /// reflection weight, normalized, and cast from the surface point.
    /// A blend whose length rounds to zero is left unnormalized; the
    /// integrator then treats the ray as carrying no light.
    pub open spec fn spec_scatter(
        self,
        incoming_ray_direction: Vec3,
        surface_point: Vec3,
        surface_normal: Vec3,
        state: u64,
    ) -> (Ray, u64) {
        let two = Scalar { units: 2_000_000 };
        let one = Scalar { units: 1_000_000 };
        let reflected = incoming_ray_direction.spec_sub(
            surface_normal.spec_mul(two.spec_mul(incoming_ray_direction.spec_dot(surface_normal))),
        );
        let (rand_point, s1) = spec_rand_point(state, SAMPLE_ATTEMPTS as nat);
        let diffuse = rand_point.spec_add(surface_normal);
        let combined = reflected.spec_mul(self.reflection).spec_add(
            diffuse.spec_mul(one.spec_sub(self.reflection)),
        );
        let direction = if combined.spec_length().units == 0 {
            combined
        } else {
            combined.spec_normalized()
        };
        (Ray { origin: surface_point, direction }, s1)
    }

    pub fn scatter(
        &self,
        incoming_ray_direction: Vec3,
        surface_point: Vec3,
        surface_normal: Vec3,
        rng: &mut Rng,
    ) -> (r: Ray)
        ensures
            (r, final(rng).state) == self.spec_scatter(
                incoming_ray_direction,
                surface_point,
                surface_normal,
                old(rng).state,
            ),
    {
        let two = Scalar { units: 2_000_000 };
        let one = Scalar { units: 1_000_000 };
        let reflected = incoming_ray_direction.sub(
            surface_normal.mul(two.mul(incoming_ray_direction.dot(surface_normal))),
        );
        let rand_point = random_point_in_unit_sphere(rng);
        let diffuse = rand_point.add(surface_normal);
        let combined = reflected.mul(self.reflection).add(diffuse.mul(one.sub(self.reflection)));
        let len = combined.length();
        let direction = if len.units == 0 {
            combined
        } else {
            combined.normalized()
        };
        Ray { origin: surface_point, direction }
    }

    /// The light a ray keeps after this surface: the incoming color
    /// filtered by the material color and scaled by the albedo.
    pub open spec fn spec_attenuate(self, incoming_ray_color: Vec3) -> Vec3 {
        self.color.spec_mul(self.albedo).spec_mul_vec(incoming_ray_color)
    }

    pub fn attenuate(&self, incoming_ray_color: Vec3) -> (r: Vec3)
        ensures
            r == self.spec_attenuate(incoming_ray_color),
    {
        self.color.mul(self.albedo).mul_vec(incoming_ray_color)
    }
}

impl Ray {
    /// The point `origin + direction * t`.
    pub open spec fn spec_point_at_t(self, t: Scalar) -> Vec3 {
        self.origin.spec_add(self.direction.spec_mul(t))
    }

    pub fn point_at_t(&self, t: Scalar) -> (p: Vec3)
        ensures
            p == self.spec_point_at_t(t),
    {
        self.origin.add(self.direction.mul(t))
    }

    /// The light gathered along this ray, with the generator state left
    /// behind.  A hit scatters and recurses one level shallower; a miss
    /// is the sky gradient over the direction's vertical component.  At
    /// depth zero, and for a direction whose length rounds to zero and
    /// so cannot be normalized, the ray carries no light.
    #[verifier::opaque]
    pub open spec fn spec_color(self, objects: Seq<Sphere>, state: u64, depth: nat) -> (Vec3, u64)
        decreases depth,
    {
        let zero = Scalar { units: 0 };
        let one = Scalar { units: 1_000_000 };
        let black = Vec3(zero, zero, zero);
        let sky_color_0 = Vec3(one, one, one);
        let sky_color_1 = Vec3(
            Scalar { units: 500_000 },
            Scalar { units: 700_000 },
            Scalar { units: 1_000_000 },
        );
        if depth == 0 || self.direction.spec_length().units == 0 {
            (black, state)
        } else {
            match spec_scene_hit(objects, self) {
                Hit::Hit { t: _, point, normal, material } => {
                    let (scattered, s1) = material.spec_scatter(self.direction, point, normal, state);
                    let (incoming, s2) = scattered.spec_color(objects, s1, (depth - 1) as nat);
                    (material.spec_attenuate(incoming), s2)
                },
                Hit::NoHit => {
                    let unit_direction = self.direction.spec_normalized();
                    let y = spec_scale_value_to_range(
                        one.spec_neg(),
                        one,
                        zero,
                        one,
                        unit_direction.1,
                    );
                    (
                        (sky_color_0.spec_mul(one.spec_sub(y))).spec_add(sky_color_1.spec_mul(y)),
                        state,
                    )
                },
            }
        }
    }

    pub fn color(&self, objects: &Vec<Sphere>, rng: &mut Rng, depth: u32) -> (c: Vec3)
        ensures
            (c, final(rng).state) == self.spec_color(objects@, old(rng).state, depth as nat),
        decreases depth,
    {
        proof {
            reveal(Ray::spec_color);
        }
        let zero = Scalar { units: 0 };
        let one = Scalar { units: 1_000_000 };
        let black = Vec3(zero, zero, zero);
        let sky_color_0 = Vec3(one, one, one);
        let sky_color_1 = Vec3(
            Scalar { units: 500_000 },
            Scalar { units: 700_000 },
            Scalar { units: 1_000_000 },
        );
        if depth == 0 {
            return black;
        }
        let direction_length = self.direction.length();
        if direction_length.units == 0 {
            return black;
        }
        match objects.hit(*self) {
            Hit::Hit { t: _, point, normal, material } => {
                let scattered = material.scatter(self.direction, point, normal, rng);
                let incoming = scattered.color(objects, rng, depth - 1);
                material.attenuate(incoming)
            },
            Hit::NoHit => {
                let unit_direction = self.direction.normalized();
                let y = scale_value_to_range(one.neg(), one, zero, one, unit_direction.1);
                (sky_color_0.mul(one.sub(y))).add(sky_color_1.mul(y))
            },
        }
    }
}

/// Law: a ray that misses the scene and points level — zero vertical
/// component after normalization — sees the even blend of the two sky
/// colors, `(0.75, 0.85, 1.0)`.
pub proof fn lemma_level_miss_sees_even_sky_blend(
    r: Ray,
    objects: Seq<Sphere>,
    state: u64,
    depth: nat,
)
    requires
        depth > 0,
        r.direction.spec_length().units != 0,
        r.direction.spec_normalized().1.units == 0,
        spec_scene_hit(objects, r) is NoHit,
    ensures
        r.spec_color(objects, state, depth) == (
            Vec3(
                Scalar { units: 750_000 },
                Scalar { units: 850_000 },
                Scalar { units: 1_000_000 },
            ),
            state,
        ),
{
    reveal(Ray::spec_color);
    let zero = Scalar { units: 0 };
    let one = Scalar { units: 1_000_000 };
    let y = spec_scale_value_to_range(one.spec_neg(), one, zero, one, r.direction.spec_normalized().1);
    let range_in = one.spec_sub(one.spec_neg());
    let range_out = one.spec_sub(zero);
    assert(range_in.units == 2_000_000);
    assert(range_out.units == 1_000_000);
    let scale = range_out.spec_div(range_in);
    assert(range_out.units * (SCALE as int) == 1_000_000_000_000);
    assert(1_000_000_000_000int / 2_000_000int == 500_000int);
    assert(trunc_div(1_000_000_000_000, 2_000_000) == 500_000);
    assert(scale.units == 500_000);
    let shift = zero.spec_sub(one.spec_neg().spec_mul(scale));
    lemma_mul_units(one.spec_neg(), scale, -1_000_000, 500_000);
    assert(500_000_000_000int / 1_000_000int == 500_000int);
    assert(one.spec_neg().spec_mul(scale).units == -500_000);
    assert(shift.units == 500_000);
    lemma_mul_units(r.direction.spec_normalized().1, scale, r.direction.spec_normalized().1.units as int, 500_000);
    assert(r.direction.spec_normalized().1.spec_mul(scale).units == 0);
    assert(y.units == 500_000);
    let sky_color_0 = Vec3(one, one, one);
    let sky_color_1 = Vec3(
        Scalar { units: 500_000 },
        Scalar { units: 700_000 },
        Scalar { units: 1_000_000 },
    );
    let remainder = one.spec_sub(y);
    assert(remainder.units == 500_000);
    lemma_mul_units(one, remainder, 1_000_000, 500_000);
    assert(one.spec_mul(remainder).units == 500_000);
    lemma_mul_units(sky_color_1.0, y, 500_000, 500_000);
    assert(250_000_000_000int / 1_000_000int == 250_000int);
    assert(sky_color_1.0.spec_mul(y).units == 250_000);
    lemma_mul_units(sky_color_1.1, y, 700_000, 500_000);
    assert(350_000_000_000int / 1_000_000int == 350_000int);
    assert(sky_color_1.1.spec_mul(y).units == 350_000);
    lemma_mul_units(sky_color_1.2, y, 1_000_000, 500_000);
    assert(sky_color_1.2.spec_mul(y).units == 500_000);
    assert((sky_color_0.spec_mul(remainder)).spec_add(sky_color_1.spec_mul(y)) == Vec3(
        Scalar { units: 750_000 },
        Scalar { units: 850_000 },
        Scalar { units: 1_000_000 },
    ));
}

/// Law: a ray fired straight at a sphere's center from outside strikes
/// it at `t = distance_to_center - radius`, at the near surface point,
/// with the unit outward normal.  Stated for axis-aligned geometry whose
/// squared distances are exact multiples of one unit; elsewhere
/// truncation moves the intersection by up to a few millionths.
pub proof fn lemma_head_on_hit(
    origin: Vec3,
    dist: Scalar,
    radius: Scalar,
    material: StandardMaterial,
)
    requires
        0 < radius.units < dist.units <= 1_000_000_000_000,
        (dist.units * dist.units) % (SCALE as int) == 0,
        (radius.units * radius.units) % (SCALE as int) == 0,
        i64::MIN <= origin.2.units - dist.units,
    ensures
        ({
            let center = Vec3(
                origin.0,
                origin.1,
                Scalar { units: (origin.2.units - dist.units) as i64 },
            );
            let sphere = Sphere { center, radius, material };
            let r = Ray {
                origin,
                direction: Vec3(
                    Scalar { units: 0 },
                    Scalar { units: 0 },
                    Scalar { units: -1_000_000i64 },
                ),
            };
            sphere.spec_hit(r) == Hit::Hit {
                t: Scalar { units: (dist.units - radius.units) as i64 },
                point: Vec3(
                    origin.0,
                    origin.1,
                    Scalar { units: (origin.2.units - dist.units + radius.units) as i64 },
                ),
                normal: Vec3(
                    Scalar { units: 0 },
                    Scalar { units: 0 },
                    Scalar { units: 1_000_000 },
                ),
                material,
            }
        }),
{
    let s = SCALE as int;
    let dz = dist.units as int;
    let r0 = radius.units as int;
    let center = Vec3(origin.0, origin.1, Scalar { units: (origin.2.units - dist.units) as i64 });
    let sphere = Sphere { center, radius, material };
    let d = Vec3(Scalar { units: 0 }, Scalar { units: 0 }, Scalar { units: -1_000_000i64 });
    let r = Ray { origin, direction: d };

    let dsq = dz * dz;
    let rsq = r0 * r0;
    assert(0 < r0 * r0 <= dz * dz <= 1_000_000_000_000_000_000_000_000) by (nonlinear_arith)
        requires
            0 < r0 < dz <= 1_000_000_000_000,
    ;
    assert(0 < rsq <= dsq <= 1_000_000_000_000_000_000_000_000);
    let q1 = dsq / s;
    let q2 = rsq / s;
    vstd::arithmetic::div_mod::lemma_fundamental_div_mod(dsq, s);
    vstd::arithmetic::div_mod::lemma_fundamental_div_mod(rsq, s);
    assert(dsq == s * q1);
    assert(rsq == s * q2);
    vstd::arithmetic::div_mod::lemma_div_is_ordered(rsq, dsq, s);
    vstd::arithmetic::div_mod::lemma_div_is_ordered(dsq, 1_000_000_000_000_000_000_000_000, s);
    assert(1 <= q2 <= q1 <= 1_000_000_000_000_000_000);

    // a = dot(direction, direction) = 1.0
    lemma_mul_units(d.0, d.0, 0, 0);
    lemma_mul_units(d.1, d.1, 0, 0);
    lemma_mul_units(d.2, d.2, -1_000_000, -1_000_000);
    assert(1_000_000_000_000int / 1_000_000int == 1_000_000int);
    let a = d.spec_dot(d);
    assert(a.units == 1_000_000);

    // oc = origin - center = (0, 0, dist)
    let oc = r.origin.spec_sub(sphere.center);
    assert(oc == Vec3(Scalar { units: 0 }, Scalar { units: 0 }, Scalar { units: dz as i64 }));

    // b = 2 * dot(oc, direction) = -2 * dist
    lemma_mul_units(oc.0, d.0, 0, 0);
    lemma_mul_units(oc.1, d.1, 0, 0);
    lemma_mul_units(oc.2, d.2, dz, -1_000_000);
    vstd::arithmetic::div_mod::lemma_div_by_multiple(dz, s);
    assert(trunc_div(dz * -1_000_000, s) == -dz);
    let ocd = oc.spec_dot(d);
    assert(ocd.units == -dz);
    let two = Scalar { units: 2_000_000 };
    let four = Scalar { units: 4_000_000 };
    lemma_mul_units(two, ocd, 2_000_000, -dz);
    vstd::arithmetic::div_mod::lemma_div_by_multiple(2 * dz, s);
    assert(mag(2_000_000 * -dz) == 2 * dz * s);
    assert(trunc_div(2_000_000 * -dz, s) == -(2 * dz));
    let b = two.spec_mul(ocd);
    assert(b.units == -(2 * dz));

    // c = dot(oc, oc) - radius^2 = (dist^2 - radius^2) / SCALE
    lemma_mul_units(oc.2, oc.2, dz, dz);
    assert(trunc_div(dsq, s) == q1);
    assert(oc.spec_dot(oc).units == q1);
    lemma_mul_units(radius, radius, r0, r0);
    assert(trunc_div(rsq, s) == q2);
    assert(radius.spec_mul(radius).units == q2);
    let c = oc.spec_dot(oc).spec_sub(radius.spec_mul(radius));
    assert(c.units == q1 - q2);

    // discriminant = b^2 - 4*a*c = 4 * radius^2 / SCALE
    lemma_mul_units(b, b, -(2 * dz), -(2 * dz));
    assert((-(2 * dz)) * (-(2 * dz)) == 4 * (dz * dz)) by (nonlinear_arith);
    assert((-(2 * dz)) * (-(2 * dz)) == 4 * dsq);
    vstd::arithmetic::div_mod::lemma_div_by_multiple(4 * q1, s);
    assert(4 * dsq == (4 * q1) * s);
    assert(trunc_div(4 * dsq, s) == 4 * q1);
    assert(b.spec_mul(b).units == 4 * q1);
    lemma_mul_units(four, a, 4_000_000, 1_000_000);
    assert(4_000_000_000_000int / 1_000_000int == 4_000_000int);
    let four_a = four.spec_mul(a);
    assert(four_a.units == 4_000_000);
    lemma_mul_units(four_a, c, 4_000_000, q1 - q2);
    vstd::arithmetic::div_mod::lemma_div_by_multiple(4 * (q1 - q2), s);
    assert(4_000_000 * (q1 - q2) == (4 * (q1 - q2)) * s);
    assert(trunc_div(4_000_000 * (q1 - q2), s) == 4 * (q1 - q2));
    assert(four_a.spec_mul(c).units == 4 * (q1 - q2));
    let discriminant = b.spec_mul(b).spec_sub(four_a.spec_mul(c));
    assert(discriminant.units == 4 * q2);

    // sqrt(discriminant) = 2 * radius
    assert(discriminant.units > 0);
    assert((4 * q2) * s == 4 * rsq);
    assert((2 * r0) * (2 * r0) == 4 * (r0 * r0)) by (nonlinear_arith);
    assert((2 * r0) * (2 * r0) == 4 * rsq);
    assert(4 * (r0 * r0) < (2 * r0 + 1) * (2 * r0 + 1)) by (nonlinear_arith)
        requires
            r0 > 0,
    ;
    assert(4 * rsq < (2 * r0 + 1) * (2 * r0 + 1));
    lemma_isqrt_is(4 * rsq, 2 * r0);
    assert(discriminant.spec_sqrt().units == 2 * r0);

    // t = (-b - sqrt(discriminant)) / (2 * a) = dist - radius
    lemma_mul_units(two, a, 2_000_000, 1_000_000);
    assert(2_000_000_000_000int / 1_000_000int == 2_000_000int);
    let denom = two.spec_mul(a);
    assert(denom.units == 2_000_000);
    let numerator = b.spec_neg().spec_sub(discriminant.spec_sqrt());
    assert(numerator.units == 2 * dz - 2 * r0);
    vstd::arithmetic::div_mod::lemma_div_by_multiple(dz - r0, 2_000_000);
    assert((2 * dz - 2 * r0) * s == (dz - r0) * 2_000_000);
    assert(trunc_div((2 * dz - 2 * r0) * s, 2_000_000) == dz - r0);
    let hit_t = numerator.spec_div(denom);
    assert(hit_t.units == dz - r0);
    assert(hit_t.units >= 0);

    // point = origin + direction * t
    lemma_mul_units(d.0, hit_t, 0, dz - r0);
    lemma_mul_units(d.1, hit_t, 0, dz - r0);
    lemma_mul_units(d.2, hit_t, -1_000_000, dz - r0);
    vstd::arithmetic::div_mod::lemma_div_by_multiple(dz - r0, s);
    assert(trunc_div(-1_000_000 * (dz - r0), s) == -(dz - r0));
    let hit_point = r.spec_point_at_t(hit_t);
    assert(hit_point == Vec3(
        origin.0,
        origin.1,
        Scalar { units: (origin.2.units - dist.units + radius.units) as i64 },
    ));

    // normal = (point - center) / radius = (0, 0, 1)
    let pc = hit_point.spec_sub(sphere.center);
    assert(pc == Vec3(Scalar { units: 0 }, Scalar { units: 0 }, Scalar { units: radius.units }));
    vstd::arithmetic::div_mod::lemma_div_by_multiple(0, r0);
    assert(trunc_div(0 * s, r0) == 0);
    vstd::arithmetic::div_mod::lemma_div_by_multiple(s, r0);
    assert(r0 * s == s * r0);
    assert(trunc_div(r0 * s, r0) == s);
    let normal = pc.spec_div(radius);
    assert(normal == Vec3(Scalar { units: 0 }, Scalar { units: 0 }, Scalar { units: 1_000_000 }));
}

/// Law: a ray whose perpendicular offset from a sphere's center exceeds
/// the radius misses it.  Stated for axis-aligned geometry whose squared
/// distances are exact multiples of one unit.
pub proof fn lemma_offset_ray_misses(
    origin: Vec3,
    offset: Scalar,
    radius: Scalar,
    material: StandardMaterial,
)
    requires
        0 < radius.units < offset.units <= 1_000_000_000_000,
        (offset.units * offset.units) % (SCALE as int) == 0,
        (radius.units * radius.units) % (SCALE as int) == 0,
        i64::MIN <= origin.0.units - offset.units,
    ensures
        ({
            let center = Vec3(
                Scalar { units: (origin.0.units - offset.units) as i64 },
                origin.1,
                origin.2,
            );
            let sphere = Sphere { center, radius, material };
            let r = Ray {
                origin,
                direction: Vec3(
                    Scalar { units: 0 },
                    Scalar { units: 0 },
                    Scalar { units: -1_000_000i64 },
                ),
            };
            sphere.spec_hit(r) == Hit::NoHit
        }),
{
    let s = SCALE as int;
    let h = offset.units as int;
    let r0 = radius.units as int;
    let center = Vec3(Scalar { units: (origin.0.units - offset.units) as i64 }, origin.1, origin.2);
    let sphere = Sphere { center, radius, material };
    let d = Vec3(Scalar { units: 0 }, Scalar { units: 0 }, Scalar { units: -1_000_000i64 });
    let r = Ray { origin, direction: d };

    let hsq = h * h;
    let rsq = r0 * r0;
    assert(0 < r0 * r0 < h * h <= 1_000_000_000_000_000_000_000_000) by (nonlinear_arith)
        requires
            0 < r0 < h <= 1_000_000_000_000,
    ;
    assert(0 < rsq < hsq <= 1_000_000_000_000_000_000_000_000);
    let qh = hsq / s;
    let q2 = rsq / s;
    vstd::arithmetic::div_mod::lemma_fundamental_div_mod(hsq, s);
    vstd::arithmetic::div_mod::lemma_fundamental_div_mod(rsq, s);
    assert(hsq == s * qh);
    assert(rsq == s * q2);
    vstd::arithmetic::div_mod::lemma_div_is_ordered(rsq, hsq, s);
    vstd::arithmetic::div_mod::lemma_div_is_ordered(hsq, 1_000_000_000_000_000_000_000_000, s);
    assert(q2 <= qh <= 1_000_000_000_000_000_000);
    assert(q2 < qh);

    lemma_mul_units(d.0, d.0, 0, 0);
    lemma_mul_units(d.1, d.1, 0, 0);
    lemma_mul_units(d.2, d.2, -1_000_000, -1_000_000);
    assert(1_000_000_000_000int / 1_000_000int == 1_000_000int);
    let a = d.spec_dot(d);
    assert(a.units == 1_000_000);

    let oc = r.origin.spec_sub(sphere.center);
    assert(oc == Vec3(Scalar { units: h as i64 }, Scalar { units: 0 }, Scalar { units: 0 }));

    lemma_mul_units(oc.0, d.0, h, 0);
    lemma_mul_units(oc.1, d.1, 0, 0);
    lemma_mul_units(oc.2, d.2, 0, -1_000_000);
    let ocd = oc.spec_dot(d);
    assert(ocd.units == 0);
    let two = Scalar { units: 2_000_000 };
    let four = Scalar { units: 4_000_000 };
    lemma_mul_units(two, ocd, 2_000_000, 0);
    let b = two.spec_mul(ocd);
    assert(b.units == 0);

    lemma_mul_units(oc.0, oc.0, h, h);
    assert(trunc_div(hsq, s) == qh);
    assert(oc.spec_dot(oc).units == qh);
    lemma_mul_units(radius, radius, r0, r0);
    assert(trunc_div(rsq, s) == q2);
    let c = oc.spec_dot(oc).spec_sub(radius.spec_mul(radius));
    assert(c.units == qh - q2);

    lemma_mul_units(b, b, 0, 0);
    assert(b.spec_mul(b).units == 0);
    lemma_mul_units(four, a, 4_000_000, 1_000_000);
    assert(4_000_000_000_000int / 1_000_000int == 4_000_000int);
    let four_a = four.spec_mul(a);
    assert(four_a.units == 4_000_000);
    lemma_mul_units(four_a, c, 4_000_000, qh - q2);
    vstd::arithmetic::div_mod::lemma_div_by_multiple(4 * (qh - q2), s);
    assert(4_000_000 * (qh - q2) == (4 * (qh - q2)) * s);
    assert(trunc_div(4_000_000 * (qh - q2), s) == 4 * (qh - q2));
    assert(four_a.spec_mul(c).units == 4 * (qh - q2));
    let discriminant = b.spec_mul(b).spec_sub(four_a.spec_mul(c));
    assert(discriminant.units < 0);
}

/// Law: a ray starting inside a sphere and pointing straight away from
/// its center finds no forward intersection: the only root of the
/// quadratic lies behind the origin and is excluded.  Stated for
/// axis-aligned geometry whose squared distances are exact multiples of
/// one unit.
pub proof fn lemma_inside_pointing_away_misses(
    origin: Vec3,
    dist: Scalar,
    radius: Scalar,
    material: StandardMaterial,
)
    requires
        0 <= dist.units < radius.units <= 1_000_000_000_000,
        (dist.units * dist.units) % (SCALE as int) == 0,
        (radius.units * radius.units) % (SCALE as int) == 0,
        i64::MIN <= origin.2.units - dist.units,
    ensures
        ({
            let center = Vec3(
                origin.0,
                origin.1,
                Scalar { units: (origin.2.units - dist.units) as i64 },
            );
            let sphere = Sphere { center, radius, material };
            let r = Ray {
                origin,
                direction: Vec3(
                    Scalar { units: 0 },
                    Scalar { units: 0 },
                    Scalar { units: 1_000_000 },
                ),
            };
            sphere.spec_hit(r) == Hit::NoHit
        }),
{
    let s = SCALE as int;
    let dz = dist.units as int;
    let r0 = radius.units as int;
    let center = Vec3(origin.0, origin.1, Scalar { units: (origin.2.units - dist.units) as i64 });
    let sphere = Sphere { center, radius, material };
    let d = Vec3(Scalar { units: 0 }, Scalar { units: 0 }, Scalar { units: 1_000_000 });
    let r = Ray { origin, direction: d };

    let dsq = dz * dz;
    let rsq = r0 * r0;
    assert(0 <= dz * dz <= r0 * r0 <= 1_000_000_000_000_000_000_000_000 && 0 < r0 * r0)
        by (nonlinear_arith)
        requires
            0 <= dz < r0 <= 1_000_000_000_000,
    ;
    assert(0 <= dsq <= rsq <= 1_000_000_000_000_000_000_000_000 && 0 < rsq);
    let q1 = dsq / s;
    let q2 = rsq / s;
    vstd::arithmetic::div_mod::lemma_fundamental_div_mod(dsq, s);
    vstd::arithmetic::div_mod::lemma_fundamental_div_mod(rsq, s);
    assert(dsq == s * q1);
    assert(rsq == s * q2);
    vstd::arithmetic::div_mod::lemma_div_is_ordered(dsq, rsq, s);
    vstd::arithmetic::div_mod::lemma_div_is_ordered(rsq, 1_000_000_000_000_000_000_000_000, s);
    assert(0 <= q1 <= q2 <= 1_000_000_000_000_000_000);
    assert(1 <= q2);

    lemma_mul_units(d.0, d.0, 0, 0);
    lemma_mul_units(d.1, d.1, 0, 0);
    lemma_mul_units(d.2, d.2, 1_000_000, 1_000_000);
    assert(1_000_000_000_000int / 1_000_000int == 1_000_000int);
    let a = d.spec_dot(d);
    assert(a.units == 1_000_000);

    let oc = r.origin.spec_sub(sphere.center);
    assert(oc == Vec3(Scalar { units: 0 }, Scalar { units: 0 }, Scalar { units: dz as i64 }));

    lemma_mul_units(oc.0, d.0, 0, 0);
    lemma_mul_units(oc.1, d.1, 0, 0);
    lemma_mul_units(oc.2, d.2, dz, 1_000_000);
    vstd::arithmetic::div_mod::lemma_div_by_multiple(dz, s);
    assert(trunc_div(dz * 1_000_000, s) == dz);
    let ocd = oc.spec_dot(d);
    assert(ocd.units == dz);
    let two = Scalar { units: 2_000_000 };
    let four = Scalar { units: 4_000_000 };
    lemma_mul_units(two, ocd, 2_000_000, dz);
    vstd::arithmetic::div_mod::lemma_div_by_multiple(2 * dz, s);
    assert(mag(2_000_000 * dz) == 2 * dz * s);
    assert(trunc_div(2_000_000 * dz, s) == 2 * dz);
    let b = two.spec_mul(ocd);
    assert(b.units == 2 * dz);

    lemma_mul_units(oc.2, oc.2, dz, dz);
    assert(trunc_div(dsq, s) == q1);
    assert(oc.spec_dot(oc).units == q1);
    lemma_mul_units(radius, radius, r0, r0);
    assert(trunc_div(rsq, s) == q2);
    let c = oc.spec_dot(oc).spec_sub(radius.spec_mul(radius));
    assert(c.units == q1 - q2);

    lemma_mul_units(b, b, 2 * dz, 2 * dz);
    assert((2 * dz) * (2 * dz) == 4 * (dz * dz)) by (nonlinear_arith);
    assert((2 * dz) * (2 * dz) == 4 * dsq);
    vstd::arithmetic::div_mod::lemma_div_by_multiple(4 * q1, s);
    assert(4 * dsq == (4 * q1) * s);
    assert(trunc_div(4 * dsq, s) == 4 * q1);
    assert(b.spec_mul(b).units == 4 * q1);
    lemma_mul_units(four, a, 4_000_000, 1_000_000);
    assert(4_000_000_000_000int / 1_000_000int == 4_000_000int);
    let four_a = four.spec_mul(a);
    assert(four_a.units == 4_000_000);
    lemma_mul_units(four_a, c, 4_000_000, q1 - q2);
    vstd::arithmetic::div_mod::lemma_div_by_multiple(4 * (q2 - q1), s);
    assert(mag(4_000_000 * (q1 - q2)) == (4 * (q2 - q1)) * s);
    assert(trunc_div(4_000_000 * (q1 - q2), s) == -(4 * (q2 - q1)));
    assert(four_a.spec_mul(c).units == -(4 * (q2 - q1)));
    let discriminant = b.spec_mul(b).spec_sub(four_a.spec_mul(c));
    assert(discriminant.units == 4 * q2);
    assert(discriminant.units > 0);

    assert((4 * q2) * s == 4 * rsq);
    assert((2 * r0) * (2 * r0) == 4 * (r0 * r0)) by (nonlinear_arith);
    assert((2 * r0) * (2 * r0) == 4 * rsq);
    assert(4 * (r0 * r0) < (2 * r0 + 1) * (2 * r0 + 1)) by (nonlinear_arith)
        requires
            r0 > 0,
    ;
    assert(4 * rsq < (2 * r0 + 1) * (2 * r0 + 1));
    lemma_isqrt_is(4 * rsq, 2 * r0);
    assert(discriminant.spec_sqrt().units == 2 * r0);

    lemma_mul_units(two, a, 2_000_000, 1_000_000);
    assert(2_000_000_000_000int / 1_000_000int == 2_000_000int);
    let denom = two.spec_mul(a);
    assert(denom.units == 2_000_000);
    let numerator = b.spec_neg().spec_sub(discriminant.spec_sqrt());
    assert(numerator.units == -(2 * dz) - 2 * r0);
    vstd::arithmetic::div_mod::lemma_div_by_multiple(dz + r0, 2_000_000);
    assert((-(2 * dz) - 2 * r0) * s == -((dz + r0) * 2_000_000));
    assert(mag((-(2 * dz) - 2 * r0) * s) == (dz + r0) * 2_000_000);
    assert(trunc_div((-(2 * dz) - 2 * r0) * s, 2_000_000) == -(dz + r0));
    let hit_t = numerator.spec_div(denom);
    assert(hit_t.units == -(dz + r0));
    assert(hit_t.units < 0);
}

} // verus!
