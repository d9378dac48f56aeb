//! A small path tracer with a verified core.
//!
//! Scenes of spheres are rendered to a plain-text pixel image by
//! recursive stochastic ray tracing: camera rays are jittered per pixel,
//! intersected against the scene, scattered by the hit material, and the
//! gathered light is averaged, gamma-corrected and quantized.  All
//! geometry and color arithmetic runs on fixed-point scalars, and every
//! function's result is pinned to a specification-level model of the
//! same computation.

use vstd::arithmetic::div_mod::lemma_fundamental_div_mod_converse;
use vstd::prelude::*;

pub mod image;
pub mod ray;
pub mod rng;
pub mod scalar;
pub mod text;
pub mod vec3;

use crate::image::Image;
use crate::ray::Hitable;
use crate::ray::MAX_SCATTER_DEPTH;
use crate::ray::Ray;
use crate::ray::Sphere;
use crate::rng::Rng;
use crate::rng::spec_rng_next;
use crate::rng::spec_unit_scalar;
use crate::scalar::Scalar;
use crate::vec3::Vec3;

verus! {

/// A camera looking from `look_from` along `look_to`, with `up` fixing
/// the roll.  The vertical field of view enters through `focal_scale`,
/// the cotangent of the angle; callers that start from an angle compute
/// that one trigonometric value themselves.
#[derive(Clone, Copy, Debug, PartialEq, Eq, Structural)]
pub struct Camera {
    pub up: Vec3,
    pub look_from: Vec3,
    pub look_to: Vec3,
    pub aspect_ratio: Scalar,
    pub focal_scale: Scalar,
}

impl Camera {
    /// The geometry a camera frame needs: a viewing direction of nonzero
    /// length whose cross products with `up` do not collapse.
    pub open spec fn spec_wf(self) -> bool {
        &&& self.look_to.spec_length().units != 0
        &&& self.look_to.spec_cross(self.up).spec_length().units != 0
        &&& self.spec_horizontal().spec_cross(self.look_to).spec_length().units != 0
    }

    /// The half-width basis vector of the image plane.
    pub open spec fn spec_horizontal(self) -> Vec3 {
        self.look_to.spec_cross(self.up).spec_normalized().spec_mul(self.aspect_ratio)
    }

    pub fn horizontal(&self) -> (r: Vec3)
        requires
            self.spec_wf(),
        ensures
            r == self.spec_horizontal(),
    {
        self.look_to.cross(self.up).normalized().mul(self.aspect_ratio)
    }

    /// The half-height basis vector of the image plane.
    pub open spec fn spec_vertical(self) -> Vec3 {
        self.spec_horizontal().spec_cross(self.look_to).spec_normalized()
    }

    pub fn vertical(&self) -> (r: Vec3)
        requires
            self.spec_wf(),
        ensures
            r == self.spec_vertical(),
    {
        self.horizontal().cross(self.look_to).normalized()
    }

    /// The world point behind the bottom-left image corner.
    pub open spec fn spec_lower_left_corner(self) -> Vec3 {
        self.look_from.spec_add(self.look_to.spec_normalized().spec_mul(self.focal_scale)).spec_sub(
            self.spec_horizontal(),
        ).spec_sub(self.spec_vertical())
    }

    pub fn lower_left_corner(&self) -> (r: Vec3)
        requires
            self.spec_wf(),
        ensures
            r == self.spec_lower_left_corner(),
    {
        self.look_from.add(self.look_to.normalized().mul(self.focal_scale)).sub(
            self.horizontal(),
        ).sub(self.vertical())
    }
}

/// Square-root gamma correction of a color.
pub open spec fn spec_gamma_correct(c: Vec3) -> Vec3 {
    Vec3(c.0.spec_sqrt(), c.1.spec_sqrt(), c.2.spec_sqrt())
}

pub fn gamma_correct(c: Vec3) -> (r: Vec3)
    ensures
        r == spec_gamma_correct(c),
{
    Vec3(c.0.sqrt(), c.1.sqrt(), c.2.sqrt())
}

/// The number of pixel columns: the requested horizontal extent rounded
/// to the nearest whole number, halves away from zero.
pub open spec fn spec_image_columns(horizontal_pixels: Scalar) -> int {
    horizontal_pixels.spec_round()
}

/// The number of pixel rows: the horizontal extent over the aspect
/// ratio, rounded to the nearest whole number, halves away from zero.
pub open spec fn spec_image_rows(horizontal_pixels: Scalar, camera: Camera) -> int {
    horizontal_pixels.spec_div(camera.aspect_ratio).spec_round()
}

/// The jittered camera ray for pixel `(x, y)`, with the generator state
/// left behind.  The vertical jitter is drawn before the horizontal one.
#[verifier::opaque]
pub open spec fn spec_aa_ray(
    camera: Camera,
    n_columns: int,
    n_rows: int,
    x: int,
    y: int,
    state: u64,
) -> (Ray, u64) {
    let half = Scalar { units: 500_000 };
    let two = Scalar { units: 2_000_000 };
    let jv = spec_unit_scalar(state);
    let s1 = spec_rng_next(state);
    let ju = spec_unit_scalar(s1);
    let s2 = spec_rng_next(s1);
    let v = Scalar::spec_from_int(y).spec_add(jv).spec_sub(half).spec_div(
        Scalar::spec_from_int(n_rows - 1),
    );
    let u = Scalar::spec_from_int(x).spec_add(ju).spec_sub(half).spec_div(
        Scalar::spec_from_int(n_columns - 1),
    );
    let direction = camera.spec_lower_left_corner().spec_add(
        camera.spec_horizontal().spec_mul(u.spec_mul(two)),
    ).spec_add(camera.spec_vertical().spec_mul(v.spec_mul(two)));
    (Ray { origin: camera.look_from, direction }, s2)
}

/// The running average of the first `i` anti-aliasing samples of pixel
/// `(x, y)`, maintained incrementally sample by sample, with the
/// generator state left behind.
#[verifier::opaque]
pub open spec fn spec_pixel_samples(
    objects: Seq<Sphere>,
    camera: Camera,
    n_columns: int,
    n_rows: int,
    x: int,
    y: int,
    i: nat,
    state: u64,
) -> (Vec3, u64)
    decreases i,
{
    let zero = Scalar { units: 0 };
    if i == 0 {
        (Vec3(zero, zero, zero), state)
    } else {
        let (average, s1) = spec_pixel_samples(
            objects,
            camera,
            n_columns,
            n_rows,
            x,
            y,
            (i - 1) as nat,
            state,
        );
        let (ray, s2) = spec_aa_ray(camera, n_columns, n_rows, x, y, s1);
        let (sample, s3) = ray.spec_color(objects, s2, MAX_SCATTER_DEPTH as nat);
        (average.spec_add(sample.spec_sub(average).spec_div(Scalar::spec_from_int(i as int))), s3)
    }
}

/// The finished color of pixel `(x, y)`: the sample average, gamma
/// corrected and scaled to the display range.
#[verifier::opaque]
pub open spec fn spec_pixel_color(
    objects: Seq<Sphere>,
    camera: Camera,
    n_columns: int,
    n_rows: int,
    x: int,
    y: int,
    aa_rays: nat,
    state: u64,
) -> (Vec3, u64) {
    let (average, s1) = spec_pixel_samples(objects, camera, n_columns, n_rows, x, y, aa_rays, state);
    (spec_gamma_correct(average).spec_mul(Scalar::spec_from_int(255)), s1)
}

/// The first `k` pixels of the image in emission order: rows from the
/// top (`y == n_rows - 1`) downward, columns left to right.
#[verifier::opaque]
pub open spec fn spec_render_pixels(
    objects: Seq<Sphere>,
    camera: Camera,
    n_columns: int,
    n_rows: int,
    aa_rays: nat,
    k: nat,
    state: u64,
) -> (Seq<Vec3>, u64)
    decreases k,
{
    if k == 0 {
        (Seq::empty(), state)
    } else {
        let (prefix, s1) = spec_render_pixels(
            objects,
            camera,
            n_columns,
            n_rows,
            aa_rays,
            (k - 1) as nat,
            state,
        );
        let x = (k - 1) as int % n_columns;
        let y = (n_rows - 1) - (k - 1) as int / n_columns;
        let (c, s2) = spec_pixel_color(objects, camera, n_columns, n_rows, x, y, aa_rays, s1);
        (prefix.push(c), s2)
    }
}

/// Builds the jittered camera ray for pixel `(x, y)`.
fn aa_ray_for(camera: &Camera, n_columns: i64, n_rows: i64, x: i64, y: i64, rng: &mut Rng) -> (r:
    Ray)
    requires
        camera.spec_wf(),
        2 <= n_columns <= i32::MAX,
        2 <= n_rows <= i32::MAX,
    ensures
        (r, final(rng).state) == spec_aa_ray(
            *camera,
            n_columns as int,
            n_rows as int,
            x as int,
            y as int,
            old(rng).state,
        ),
{
    proof {
        reveal(spec_aa_ray);
    }
    let half = Scalar { units: 500_000 };
    let two = Scalar { units: 2_000_000 };
    let rows_basis = Scalar::from_int(n_rows - 1);
    let columns_basis = Scalar::from_int(n_columns - 1);
    proof {
        assert(rows_basis.units >= 1_000_000);
        assert(columns_basis.units >= 1_000_000);
    }
    let jv = rng.next_unit();
    let v = Scalar::from_int(y).add(jv).sub(half).div(rows_basis);
    let ju = rng.next_unit();
    let u = Scalar::from_int(x).add(ju).sub(half).div(columns_basis);
    Ray {
        origin: camera.look_from,
        direction: camera.lower_left_corner().add(camera.horizontal().mul(u.mul(two))).add(
            camera.vertical().mul(v.mul(two)),
        ),
    }
}

/// Traces and averages the anti-aliasing samples of pixel `(x, y)` and
/// finishes the color for display.
fn render_pixel(
    world: &Vec<Sphere>,
    camera: &Camera,
    n_columns: i64,
    n_rows: i64,
    x: i64,
    y: i64,
    aa_rays: i32,
    rng: &mut Rng,
) -> (c: Vec3)
    requires
        camera.spec_wf(),
        2 <= n_columns <= i32::MAX,
        2 <= n_rows <= i32::MAX,
        1 <= aa_rays,
    ensures
        (c, final(rng).state) == spec_pixel_color(
            world@,
            *camera,
            n_columns as int,
            n_rows as int,
            x as int,
            y as int,
            aa_rays as nat,
            old(rng).state,
        ),
{
    proof {
        reveal(spec_pixel_samples);
        reveal(spec_pixel_color);
    }
    let zero = Scalar { units: 0 };
    let ghost pixel_state = rng.state;
    let mut average_color = Vec3(zero, zero, zero);
    let mut aa_ray_i: i64 = 1;
    let aa_total: i64 = aa_rays as i64;
    while aa_ray_i <= aa_total
        invariant
            camera.spec_wf(),
            2 <= n_columns <= i32::MAX,
            2 <= n_rows <= i32::MAX,
            aa_total == aa_rays,
            1 <= aa_ray_i <= aa_total + 1,
            (average_color, rng.state) == spec_pixel_samples(
                world@,
                *camera,
                n_columns as int,
                n_rows as int,
                x as int,
                y as int,
                (aa_ray_i - 1) as nat,
                pixel_state,
            ),
        decreases aa_total + 1 - aa_ray_i,
    {
        proof {
            reveal(spec_pixel_samples);
        }
        let ray = aa_ray_for(camera, n_columns, n_rows, x, y, rng);
        let aa_ray_color = ray.color(world, rng, MAX_SCATTER_DEPTH);
        let divisor = Scalar::from_int(aa_ray_i);
        proof {
            assert(divisor.units >= 1_000_000);
        }
        average_color = average_color.add(aa_ray_color.sub(average_color).div(divisor));
        aa_ray_i = aa_ray_i + 1;
    }
    gamma_correct(average_color).mul(Scalar::from_int(255))
}

/// Renders the scene: for every pixel, `aa_rays` jittered camera rays
/// are traced and averaged, gamma corrected, and scaled to the display
/// range of 255.  Rows are emitted from the top of the image downward.
pub fn gen_image(
    world: &Vec<Sphere>,
    camera: Camera,
    horizontal_pixels: Scalar,
    aa_rays: i32,
    rng: &mut Rng,
) -> (image: Image)
    requires
        camera.spec_wf(),
        camera.aspect_ratio.units != 0,
        1 <= aa_rays,
        2 <= spec_image_columns(horizontal_pixels) <= i32::MAX,
        2 <= spec_image_rows(horizontal_pixels, camera) <= i32::MAX,
        spec_image_columns(horizontal_pixels) * spec_image_rows(horizontal_pixels, camera)
            <= usize::MAX,
    ensures
        image.columns == spec_image_columns(horizontal_pixels),
        image.rows == spec_image_rows(horizontal_pixels, camera),
        image.max_channel_value == Scalar::spec_from_int(255),
        image.pixel_colors@.len() == image.columns * image.rows,
        (image.pixel_colors@, final(rng).state) == spec_render_pixels(
            world@,
            camera,
            image.columns as int,
            image.rows as int,
            aa_rays as nat,
            (image.columns * image.rows) as nat,
            old(rng).state,
        ),
{
    let n_columns: i64 = horizontal_pixels.round();
    let n_rows: i64 = horizontal_pixels.div(camera.aspect_ratio).round();
    let max_channel_value = Scalar::from_int(255);
    let mut pixel_colors: Vec<Vec3> = Vec::new();
    proof {
        reveal(spec_render_pixels);
    }
    let ghost s0 = rng.state;
    let mut y: i64 = n_rows;
    while y > 0
        invariant
            camera.spec_wf(),
            1 <= aa_rays,
            2 <= n_columns <= i32::MAX,
            2 <= n_rows <= i32::MAX,
            n_columns * n_rows <= usize::MAX,
            0 <= y <= n_rows,
            pixel_colors@.len() == (n_rows - y) * n_columns,
            (pixel_colors@, rng.state) == spec_render_pixels(
                world@,
                camera,
                n_columns as int,
                n_rows as int,
                aa_rays as nat,
                ((n_rows - y) * n_columns) as nat,
                s0,
            ),
        decreases y,
    {
        y = y - 1;
        let mut x: i64 = 0;
        proof {
            assert((n_rows - 1 - y) * n_columns >= 0) by (nonlinear_arith)
                requires
                    0 <= n_rows - 1 - y,
                    0 <= n_columns,
            ;
            assert((n_rows - 1 - y) * n_columns == (n_rows - (y + 1)) * n_columns);
            assert((n_rows - 1 - y) * n_columns + n_columns <= n_rows * n_columns)
                by (nonlinear_arith)
                requires
                    0 <= y,
                    0 <= n_columns,
                    (n_rows - 1 - y) * n_columns == (n_rows - (y + 1)) * n_columns,
            ;
        }
        while x < n_columns
            invariant
                camera.spec_wf(),
                1 <= aa_rays,
                2 <= n_columns <= i32::MAX,
                2 <= n_rows <= i32::MAX,
                n_columns * n_rows <= usize::MAX,
                0 <= y < n_rows,
                0 <= x <= n_columns,
                pixel_colors@.len() == (n_rows - 1 - y) * n_columns + x,
                (n_rows - 1 - y) * n_columns + n_columns <= n_rows * n_columns,
                (pixel_colors@, rng.state) == spec_render_pixels(
                    world@,
                    camera,
                    n_columns as int,
                    n_rows as int,
                    aa_rays as nat,
                    ((n_rows - 1 - y) * n_columns + x) as nat,
                    s0,
                ),
            decreases n_columns - x,
        {
            let ghost k = (n_rows - 1 - y) * (n_columns as int) + x;
            proof {
                reveal(spec_render_pixels);
                lemma_fundamental_div_mod_converse(k, n_columns as int, n_rows - 1 - y, x as int);
            }
            let c = render_pixel(world, &camera, n_columns, n_rows, x, y, aa_rays, rng);
            pixel_colors.push(c);
            x = x + 1;
        }
        proof {
            assert((n_rows - 1 - y) * n_columns + n_columns == (n_rows - y) * n_columns)
                by (nonlinear_arith);
        }
    }
    proof {
        assert((n_rows - 0) * n_columns == n_rows * n_columns);
        assert(n_rows * n_columns == n_columns * n_rows) by (nonlinear_arith);
    }
    Image { columns: n_columns as i32, rows: n_rows as i32, max_channel_value, pixel_colors }
}

} // verus!
