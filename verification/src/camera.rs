//! The camera: an orthonormal basis over a scene, the projection of pixels
//! onto a plane at unit distance, and the bounded path-tracing integrator.
//! Every render call seeds its per-pixel generators from one seed and the
//! pixel's absolute position, so disjoint region renders compose into
//! exactly the full frame.

use crate::colour::{rgb, Colour};
use crate::hit::{Hit, MaterialHit};
use crate::material::spec_material_colour;
use crate::image::Image;
use crate::material::scatter_inputs_check;
use crate::num::{div_i128, lemma_div_scaled, lemma_mul_bound, lemma_tdiv_bound, tdiv};
use crate::ray::{Ray, COORD_LIMIT};
use crate::rng::{entropy_seed, mix_seed, rng_from_seed};
use crate::trig::{acos_fp, tan_half_deg, PI_FP};
use crate::vec3::{
    dot_wide, in_range, spec_cross, spec_dot, spec_normalised, Vec3, MIN_UNIT_DOT, NORM_LIMIT, UNIT,
};
use crate::WorldVec;
use vstd::arithmetic::div_mod::{lemma_div_is_ordered, lemma_fundamental_div_mod_converse};
use vstd::prelude::*;

verus! {

/// Largest magnitude of an `up` / `forward` input coordinate.
pub const CAM_VEC_LIMIT: i64 = 2_000_000_000_000;

/// Largest frame dimension a render accepts.
pub const DIM_LIMIT: usize = 10_000;

/// Largest sample count per pixel a render accepts.
pub const SAMPLE_LIMIT: usize = 1_000_000;

#[derive(Debug)]
pub struct Camera<T: Hit> {
    scene: T,
    origin: WorldVec,
    up: WorldVec,
    right: WorldVec,
    forward: WorldVec,
}

#[derive(Debug, PartialEq, Eq)]
pub enum RenderError {
    InvalidRegion { region: ((usize, usize), (usize, usize)), size: (usize, usize) },
}

/// What `Camera::new` needs of its vectors: in range, nonzero, and not
/// parallel, so that each normalisation and cross product is nondegenerate.
pub open spec fn camera_inputs_ok(origin: WorldVec, up: WorldVec, forward: WorldVec) -> bool {
    let c1 = spec_cross(spec_normalised(up), spec_normalised(forward));
    let r = spec_normalised(c1);
    let f = spec_cross(r, up);  // the re-derived forward, before normalisation
    &&& in_range(origin, COORD_LIMIT as int)
    &&& in_range(up, CAM_VEC_LIMIT as int)
    &&& spec_dot(up, up) >= 1
    &&& in_range(forward, CAM_VEC_LIMIT as int)
    &&& spec_dot(forward, forward) >= 1
    &&& spec_dot(c1, c1) >= 1
    &&& spec_dot(f, f) >= 1
}

/// The forward direction `new_looking_at` derives: from the origin to the
/// target, normalised.
pub open spec fn spec_look_forward(origin: WorldVec, looking_at: WorldVec) -> Vec3<i64> {
    spec_normalised(
        Vec3(
            (looking_at.0 - origin.0) as i64,
            (looking_at.1 - origin.1) as i64,
            (looking_at.2 - origin.2) as i64,
        ),
    )
}

/// The up vector `new_looking_at` re-derives from the forward direction and
/// the raw up input.
pub open spec fn spec_look_up(origin: WorldVec, up: WorldVec, looking_at: WorldVec) -> Vec3<i64> {
    let forward = spec_look_forward(origin, looking_at);
    let right0 = spec_cross(spec_normalised(up), spec_normalised(forward));
    spec_cross(spec_normalised(forward), spec_normalised(right0))
}

/// What `Camera::new_looking_at` needs: the target is distinct from the
/// origin, and the basis the derived vectors span is nondegenerate.
pub open spec fn looking_at_inputs_ok(origin: WorldVec, up: WorldVec, looking_at: WorldVec) -> bool {
    let diff = Vec3(
        (looking_at.0 - origin.0) as i64,
        (looking_at.1 - origin.1) as i64,
        (looking_at.2 - origin.2) as i64,
    );
    let forward = spec_look_forward(origin, looking_at);
    let right0 = spec_cross(spec_normalised(up), spec_normalised(forward));
    &&& in_range(origin, COORD_LIMIT as int)
    &&& in_range(looking_at, COORD_LIMIT as int)
    &&& in_range(up, CAM_VEC_LIMIT as int)
    &&& spec_dot(up, up) >= 1
    &&& spec_dot(diff, diff) >= 1
    &&& spec_dot(right0, right0) >= 1
    &&& camera_inputs_ok(origin, spec_look_up(origin, up, looking_at), forward)
}

impl<T: Hit> Camera<T> {
    pub closed spec fn spec_scene(self) -> T {
        self.scene
    }

    pub closed spec fn spec_origin(self) -> WorldVec {
        self.origin
    }

    pub closed spec fn spec_up(self) -> WorldVec {
        self.up
    }

    pub closed spec fn spec_right(self) -> WorldVec {
        self.right
    }

    pub closed spec fn spec_forward(self) -> WorldVec {
        self.forward
    }

    /// The basis a constructor leaves behind: origin in range, all three
    /// basis vectors unit length up to rounding.
    #[verifier::type_invariant]
    pub open spec fn wf(self) -> bool {
        &&& in_range(self.spec_origin(), COORD_LIMIT as int)
        &&& in_range(self.spec_up(), UNIT as int)
        &&& in_range(self.spec_right(), UNIT as int)
        &&& in_range(self.spec_forward(), UNIT as int)
        &&& spec_dot(self.spec_forward(), self.spec_forward()) >= MIN_UNIT_DOT
    }

    /// Build the camera basis: `right` is the normalised cross product of
    /// the normalised `up` and `forward`; `forward` is then re-derived as
    /// the normalised `right x up` so the basis is orthogonal even from
    /// imprecise inputs; `up` is stored normalised.
    pub fn new(scene: T, origin: WorldVec, up: WorldVec, forward: WorldVec) -> (cam: Camera<T>)
        requires
            camera_inputs_ok(origin, up, forward),
        ensures
            cam.spec_scene() == scene,
            cam.spec_origin() == origin,
            cam.spec_up() == spec_normalised(up),
            cam.spec_right() == spec_normalised(
                spec_cross(spec_normalised(up), spec_normalised(forward)),
            ),
            cam.spec_forward() == spec_normalised(
                spec_cross(
                    spec_normalised(spec_cross(spec_normalised(up), spec_normalised(forward))),
                    up,
                ),
            ),
    {
        let nup = up.normalised();
        let nfwd = forward.normalised();
        let c1 = nup.cross(nfwd);
        proof {
            crate::vec3::lemma_cross_range(nup, nfwd, UNIT as int, UNIT as int);
        }
        let right = c1.normalised();
        // Now, re-generate the forward vector so that it's definitely
        // pointing forward.
        let fvec = cross_wide(right, up);
        proof {
            crate::vec3::lemma_cross_range(right, up, UNIT as int, CAM_VEC_LIMIT as int);
        }
        let forward2 = fvec.normalised();
        Camera { scene, origin, up: nup, forward: forward2, right }
    }

    /// As `new`, but aimed: `forward` is the direction from the origin to
    /// `looking_at`, and `up` is re-derived to span the same plane.
    pub fn new_looking_at(scene: T, origin: WorldVec, up: WorldVec, looking_at: WorldVec) -> (cam:
        Camera<T>)
        requires
            looking_at_inputs_ok(origin, up, looking_at),
        ensures
            cam.spec_scene() == scene,
            cam.spec_origin() == origin,
            ({
                let fwd = spec_look_forward(origin, looking_at);
                let up2 = spec_look_up(origin, up, looking_at);
                &&& cam.spec_up() == spec_normalised(up2)
                &&& cam.spec_right() == spec_normalised(
                    spec_cross(spec_normalised(up2), spec_normalised(fwd)),
                )
                &&& cam.spec_forward() == spec_normalised(
                    spec_cross(
                        spec_normalised(spec_cross(spec_normalised(up2), spec_normalised(fwd))),
                        up2,
                    ),
                )
            }),
    {
        // First, figure out what the forward vector would be.
        let diff = Vec3(
            looking_at.0 - origin.0,
            looking_at.1 - origin.1,
            looking_at.2 - origin.2,
        );
        let forward = diff.normalised();
        // Now, we figure out a right vector. This is up x forward.
        let right0 = up.normalised().cross(forward.normalised());
        proof {
            crate::vec3::lemma_cross_range(
                spec_normalised(up),
                spec_normalised(forward),
                UNIT as int,
                UNIT as int,
            );
        }
        // Finally, regenerate up from these pair of vectors.
        let up2 = forward.normalised().cross(right0.normalised());
        Camera::new(scene, origin, up2, forward)
    }

    pub fn get_origin(&self) -> (r: WorldVec)
        ensures
            r == self.spec_origin(),
    {
        self.origin
    }

    pub fn get_up(&self) -> (r: WorldVec)
        ensures
            r == self.spec_up(),
    {
        self.up
    }

    pub fn get_right(&self) -> (r: WorldVec)
        ensures
            r == self.spec_right(),
    {
        self.right
    }

    pub fn get_forward(&self) -> (r: WorldVec)
        ensures
            r == self.spec_forward(),
    {
        self.forward
    }

    /// Render the full frame: the whole-frame special case of
    /// `render_region`, seeded from entropy.
    pub fn render(
        &self,
        x_size: usize,
        y_size: usize,
        fov_degrees: u64,
        bounces: usize,
        samples_per_pixel: usize,
    ) -> (im: Image)
        requires
            x_size <= DIM_LIMIT,
            y_size <= DIM_LIMIT,
            samples_per_pixel <= SAMPLE_LIMIT,
            1 <= fov_degrees <= 179,
        ensures
            im.wf(),
            im.spec_x() == x_size,
            im.spec_y() == y_size,
            samples_per_pixel == 0 ==> forall|x: int, y: int|
                0 <= x < x_size && 0 <= y < y_size ==> #[trigger] im.spec_pixel(x, y) == (Vec3(
                    0u8,
                    0u8,
                    0u8,
                )),
            samples_per_pixel >= 1 ==> forall|x: int, y: int|
                0 <= x < x_size && 0 <= y < y_size ==> pixel_quantized(
                    #[trigger] im.spec_pixel(x, y),
                    samples_per_pixel as int,
                ),
            samples_per_pixel >= 1 && (forall|rr: Ray|
                rr.traceable() ==> !(#[trigger] self.spec_scene().spec_hits(rr)))
                ==> forall|x: int, y: int|
                0 <= x < x_size && 0 <= y < y_size ==> (#[trigger] im.spec_pixel(x, y)).2 == 255,
    {
        let r = self.render_region(
            (0, 0),
            (x_size, y_size),
            x_size,
            y_size,
            fov_degrees,
            bounces,
            samples_per_pixel,
        );
        r.unwrap()
    }

    /// Render a sub-rectangle of the frame, seeded from entropy. `Ok`
    /// exactly when the region fits inside the frame.
    pub fn render_region(
        &self,
        region_top_left: (usize, usize),
        region_size: (usize, usize),
        x_size: usize,
        y_size: usize,
        fov_degrees: u64,
        bounces: usize,
        samples_per_pixel: usize,
    ) -> (r: Result<Image, RenderError>)
        requires
            region_top_left.0 + region_size.0 <= usize::MAX,
            region_top_left.1 + region_size.1 <= usize::MAX,
            x_size <= DIM_LIMIT,
            y_size <= DIM_LIMIT,
            samples_per_pixel <= SAMPLE_LIMIT,
            1 <= fov_degrees <= 179,
        ensures
            r is Ok <==> region_top_left.0 + region_size.0 <= x_size && region_top_left.1
                + region_size.1 <= y_size,
            r matches Ok(im) ==> im.wf() && im.spec_x() == region_size.0 && im.spec_y()
                == region_size.1,
            samples_per_pixel == 0 ==> (r matches Ok(im) ==> forall|x: int, y: int|
                0 <= x < region_size.0 && 0 <= y < region_size.1 ==> #[trigger] im.spec_pixel(
                    x,
                    y,
                ) == (Vec3(0u8, 0u8, 0u8))),
            samples_per_pixel >= 1 ==> (r matches Ok(im) ==> forall|x: int, y: int|
                0 <= x < region_size.0 && 0 <= y < region_size.1 ==> pixel_quantized(
                    #[trigger] im.spec_pixel(x, y),
                    samples_per_pixel as int,
                )),
            samples_per_pixel >= 1 && (forall|rr: Ray|
                rr.traceable() ==> !(#[trigger] self.spec_scene().spec_hits(rr))) ==> (
            r matches Ok(im) ==> forall|x: int, y: int|
                0 <= x < region_size.0 && 0 <= y < region_size.1 ==> (#[trigger] im.spec_pixel(
                    x,
                    y,
                )).2 == 255),
            r matches Err(e) ==> e == (RenderError::InvalidRegion {
                region: (
                    region_top_left,
                    (
                        (region_top_left.0 + region_size.0) as usize,
                        (region_top_left.1 + region_size.1) as usize,
                    ),
                ),
                size: (x_size, y_size),
            }),
    {
        self.render_region_seeded(
            region_top_left,
            region_size,
            x_size,
            y_size,
            fov_degrees,
            bounces,
            samples_per_pixel,
            entropy_seed(),
        )
    }

    /// As `render_region`, with the random seed supplied by the caller.
    /// The generator of each pixel sample is derived from the seed and the
    /// sample's absolute frame position alone, so rendering the frame in
    /// disjoint regions with one seed reproduces the full-frame render
    /// pixel for pixel.
    pub fn render_region_seeded(
        &self,
        region_top_left: (usize, usize),
        region_size: (usize, usize),
        x_size: usize,
        y_size: usize,
        fov_degrees: u64,
        bounces: usize,
        samples_per_pixel: usize,
        seed: u64,
    ) -> (r: Result<Image, RenderError>)
        requires
            region_top_left.0 + region_size.0 <= usize::MAX,
            region_top_left.1 + region_size.1 <= usize::MAX,
            x_size <= DIM_LIMIT,
            y_size <= DIM_LIMIT,
            samples_per_pixel <= SAMPLE_LIMIT,
            1 <= fov_degrees <= 179,
        ensures
            r is Ok <==> region_top_left.0 + region_size.0 <= x_size && region_top_left.1
                + region_size.1 <= y_size,
            r matches Ok(im) ==> im.wf() && im.spec_x() == region_size.0 && im.spec_y()
                == region_size.1,
            samples_per_pixel == 0 ==> (r matches Ok(im) ==> forall|x: int, y: int|
                0 <= x < region_size.0 && 0 <= y < region_size.1 ==> #[trigger] im.spec_pixel(
                    x,
                    y,
                ) == (Vec3(0u8, 0u8, 0u8))),
            samples_per_pixel >= 1 ==> (r matches Ok(im) ==> forall|x: int, y: int|
                0 <= x < region_size.0 && 0 <= y < region_size.1 ==> pixel_quantized(
                    #[trigger] im.spec_pixel(x, y),
                    samples_per_pixel as int,
                )),
            samples_per_pixel >= 1 && (forall|rr: Ray|
                rr.traceable() ==> !(#[trigger] self.spec_scene().spec_hits(rr))) ==> (
            r matches Ok(im) ==> forall|x: int, y: int|
                0 <= x < region_size.0 && 0 <= y < region_size.1 ==> (#[trigger] im.spec_pixel(
                    x,
                    y,
                )).2 == 255),
            r matches Err(e) ==> e == (RenderError::InvalidRegion {
                region: (
                    region_top_left,
                    (
                        (region_top_left.0 + region_size.0) as usize,
                        (region_top_left.1 + region_size.1) as usize,
                    ),
                ),
                size: (x_size, y_size),
            }),
    {
        proof {
            use_type_invariant(self);
        }
        // First, check that the region is correct.
        if region_top_left.0 + region_size.0 > x_size || region_top_left.1 + region_size.1 > y_size
        {
            return Err(
                RenderError::InvalidRegion {
                    region: (
                        region_top_left,
                        (
                            region_top_left.0 + region_size.0,
                            region_top_left.1 + region_size.1,
                        ),
                    ),
                    size: (x_size, y_size),
                },
            );
        }
        // The projection plane sits at unit distance, so its half-width is
        // the tangent of half the (horizontal) field of view.
        let half_width: i64 = tan_half_deg(fov_degrees);
        let xdiv: i128 = if x_size == 0 {
            1
        } else {
            x_size as i128
        };
        let ydiv: i128 = if y_size == 0 {
            1
        } else {
            y_size as i128
        };
        proof {
            lemma_tdiv_bound(2 * half_width, xdiv as int, 4_800_000_000_000);
        }
        let delta: i64 = div_i128(2 * (half_width as i128), xdiv) as i64;
        proof {
            lemma_mul_bound(delta as int, y_size as int, 4_800_000_000_000, DIM_LIMIT as int);
            lemma_tdiv_bound(delta as int * y_size, 2, 48_000_000_000_000_000);
        }
        // Crop rather than warp: the vertical half-height reuses the
        // horizontal pixel step.
        let half_height: i64 = div_i128((delta as i128) * (y_size as i128), 2) as i64;
        proof {
            lemma_mul_bound(2 * half_height as int, 1, 96_000_000_000_000_000, 1);
            lemma_tdiv_bound(2 * half_height as int, ydiv as int, 96_000_000_000_000_000);
            lemma_tdiv_bound(2 * half_width as int, xdiv as int, 4_800_000_000_000);
        }
        // Per-pixel jitter ranges for antialiasing.
        let pixel_width: i64 = div_i128(2 * (half_width as i128), xdiv) as i64;
        let pixel_height: i64 = div_i128(2 * (half_height as i128), ydiv) as i64;
        let jx_max: i64 = (if pixel_width < 0 {
            -pixel_width
        } else {
            pixel_width
        }) / 2;
        let jy_max: i64 = (if pixel_height < 0 {
            -pixel_height
        } else {
            pixel_height
        }) / 2;
        // Top-left corner of the projection plane, relative to the origin.
        proof {
            lemma_basis_term_bound(self.right, half_width as int, 2_400_000_000_000);
            lemma_basis_term_bound(self.up, half_height as int, 48_000_000_000_000_000);
        }
        let tlx: i64 = self.origin.0 - scaled(self.right.0, half_width) + scaled(
            self.up.0,
            half_height,
        );
        let tly: i64 = self.origin.1 - scaled(self.right.1, half_width) + scaled(
            self.up.1,
            half_height,
        );
        let tlz: i64 = self.origin.2 - scaled(self.right.2, half_width) + scaled(
            self.up.2,
            half_height,
        );
        let fhat = self.forward.normalised();
        let w = region_size.0;
        let h = region_size.1;
        proof {
            lemma_mul_bound(w as int, h as int, DIM_LIMIT as int, DIM_LIMIT as int);
        }
        let mut image = Image::new(w, h);
        proof {
            if samples_per_pixel >= 1 {
                lemma_quantize_zero(samples_per_pixel as int);
                assert(0 <= samples_per_pixel as int * UNIT) by (nonlinear_arith)
                    requires
                        samples_per_pixel >= 1,
                        UNIT == 1_000_000i64,
                ;
                assert forall|a: int, b: int| 0 <= a < w && 0 <= b < h implies pixel_quantized(
                    #[trigger] image.spec_pixel(a, b),
                    samples_per_pixel as int,
                ) by {
                    assert(image.spec_pixel(a, b) == (Vec3(
                        spec_quantize(0, samples_per_pixel as int) as u8,
                        spec_quantize(0, samples_per_pixel as int) as u8,
                        spec_quantize(0, samples_per_pixel as int) as u8,
                    )));
                }
            }
        }
        let mut lj: usize = 0;
        while lj < h
            invariant
                lj <= h,
                image.wf(),
                image.spec_x() == w,
                image.spec_y() == h,
                samples_per_pixel == 0 ==> forall|a: int, b: int|
                    0 <= a < w && 0 <= b < h ==> #[trigger] image.spec_pixel(a, b) == (Vec3(
                        0u8,
                        0u8,
                        0u8,
                    )),
                samples_per_pixel >= 1 ==> forall|a: int, b: int|
                    0 <= a < w && 0 <= b < h ==> pixel_quantized(
                        #[trigger] image.spec_pixel(a, b),
                        samples_per_pixel as int,
                    ),
                samples_per_pixel >= 1 && (forall|rr: Ray|
                    rr.traceable() ==> !(#[trigger] self.spec_scene().spec_hits(rr)))
                    ==> forall|a: int, b: int|
                    0 <= a < w && 0 <= b < lj ==> (#[trigger] image.spec_pixel(a, b)).2 == 255,
                w <= DIM_LIMIT,
                h <= DIM_LIMIT,
                region_top_left.0 + w <= x_size,
                region_top_left.1 + h <= y_size,
                x_size <= DIM_LIMIT,
                y_size <= DIM_LIMIT,
                samples_per_pixel <= SAMPLE_LIMIT,
                self.wf(),
                in_range(Vec3(tlx, tly, tlz), 100_000_000_000_000_000int),
                in_range(fhat, UNIT as int),
                spec_dot(fhat, fhat) >= MIN_UNIT_DOT,
                -4_800_000_000_000 <= delta <= 4_800_000_000_000,
                0 <= jx_max <= 2_400_000_000_000,
                0 <= jy_max <= 48_000_000_000_000_000,
            decreases h - lj,
        {
            let mut li: usize = 0;
            while li < w
                invariant
                    li <= w,
                    lj < h,
                    image.wf(),
                    image.spec_x() == w,
                    image.spec_y() == h,
                    samples_per_pixel == 0 ==> forall|a: int, b: int|
                        0 <= a < w && 0 <= b < h ==> #[trigger] image.spec_pixel(a, b) == (Vec3(
                            0u8,
                            0u8,
                            0u8,
                        )),
                    samples_per_pixel >= 1 ==> forall|a: int, b: int|
                        0 <= a < w && 0 <= b < h ==> pixel_quantized(
                            #[trigger] image.spec_pixel(a, b),
                            samples_per_pixel as int,
                        ),
                    samples_per_pixel >= 1 && (forall|rr: Ray|
                        rr.traceable() ==> !(#[trigger] self.spec_scene().spec_hits(rr)))
                        ==> forall|a: int, b: int|
                        0 <= a < w && 0 <= b < lj ==> (#[trigger] image.spec_pixel(a, b)).2
                            == 255,
                    samples_per_pixel >= 1 && (forall|rr: Ray|
                        rr.traceable() ==> !(#[trigger] self.spec_scene().spec_hits(rr)))
                        ==> forall|a: int|
                        0 <= a < li ==> (#[trigger] image.spec_pixel(a, lj as int)).2 == 255,
                    w <= DIM_LIMIT,
                    h <= DIM_LIMIT,
                    region_top_left.0 + w <= x_size,
                    region_top_left.1 + h <= y_size,
                    x_size <= DIM_LIMIT,
                    y_size <= DIM_LIMIT,
                    samples_per_pixel <= SAMPLE_LIMIT,
                    self.wf(),
                    in_range(Vec3(tlx, tly, tlz), 100_000_000_000_000_000int),
                    in_range(fhat, UNIT as int),
                    spec_dot(fhat, fhat) >= MIN_UNIT_DOT,
                    -4_800_000_000_000 <= delta <= 4_800_000_000_000,
                    0 <= jx_max <= 2_400_000_000_000,
                    0 <= jy_max <= 48_000_000_000_000_000,
                decreases w - li,
            {
                let i = region_top_left.0 + li;
                let j = region_top_left.1 + lj;
                let mut acc0: i64 = 0;
                let mut acc1: i64 = 0;
                let mut acc2: i64 = 0;
                let mut s: usize = 0;
                while s < samples_per_pixel
                    invariant
                        s <= samples_per_pixel,
                        samples_per_pixel <= SAMPLE_LIMIT,
                        0 <= acc0 <= s * UNIT,
                        0 <= acc1 <= s * UNIT,
                        0 <= acc2 <= s * UNIT,
                        (forall|rr: Ray|
                            rr.traceable() ==> !(#[trigger] self.spec_scene().spec_hits(rr)))
                            ==> acc2 == s * UNIT,
                        i <= 110_000,
                        j <= 110_000,
                        li < w,
                        lj < h,
                        w <= DIM_LIMIT,
                        h <= DIM_LIMIT,
                        self.wf(),
                        in_range(Vec3(tlx, tly, tlz), 100_000_000_000_000_000int),
                        in_range(fhat, UNIT as int),
                        spec_dot(fhat, fhat) >= MIN_UNIT_DOT,
                        -4_800_000_000_000 <= delta <= 4_800_000_000_000,
                        0 <= jx_max <= 2_400_000_000_000,
                        0 <= jy_max <= 48_000_000_000_000_000,
                    decreases samples_per_pixel - s,
                {
                    let mut rng = rng_from_seed(mix_seed(seed, i as u64, j as u64, s as u64));
                    let jy: i64 = crate::rng::rng_range(&mut rng, -jy_max, jy_max);
                    let jx: i64 = crate::rng::rng_range(&mut rng, -jx_max, jx_max);
                    // The plane point of this pixel, jittered within the
                    // pixel for antialiasing.
                    proof {
                        lemma_mul_bound(delta as int, i as int, 4_800_000_000_000, 110_000);
                        lemma_mul_bound(delta as int, j as int, 4_800_000_000_000, 110_000);
                        lemma_basis_term_bound(self.right, delta as int * i, 528_000_000_000_000_000);
                        lemma_basis_term_bound(self.up, delta as int * j, 528_000_000_000_000_000);
                        lemma_basis_term_bound(self.up, jy as int, 48_000_000_000_000_000);
                        lemma_basis_term_bound(self.right, jx as int, 2_400_000_000_000);
                    }
                    let px: i64 = tlx + scaled2(self.right.0, delta, i) - scaled2(
                        self.up.0,
                        delta,
                        j,
                    ) + scaled(self.up.0, jy) + scaled(self.right.0, jx) + fhat.0;
                    let py: i64 = tly + scaled2(self.right.1, delta, i) - scaled2(
                        self.up.1,
                        delta,
                        j,
                    ) + scaled(self.up.1, jy) + scaled(self.right.1, jx) + fhat.1;
                    let pz: i64 = tlz + scaled2(self.right.2, delta, i) - scaled2(
                        self.up.2,
                        delta,
                        j,
                    ) + scaled(self.up.2, jy) + scaled(self.right.2, jx) + fhat.2;
                    let dv = Vec3(px - self.origin.0, py - self.origin.1, pz - self.origin.2);
                    let dd = dot_wide(dv, dv);
                    let direction = if dd > 0 {
                        dv.normalised()
                    } else {
                        // Degenerate plane point exactly on the origin:
                        // fall back to the view direction.
                        fhat
                    };
                    let current_ray = Ray::new(self.origin, direction);
                    let (colour, _sample_path) = self.trace_sample(current_ray, bounces, &mut rng);
                    proof {
                        use_type_invariant(colour);
                    }
                    acc0 = acc0 + colour.get_red();
                    acc1 = acc1 + colour.get_green();
                    acc2 = acc2 + colour.get_blue();
                    s = s + 1;
                }
                // Average over the samples and quantize to 8 bits.
                let q0 = quantize(acc0, samples_per_pixel);
                let q1 = quantize(acc1, samples_per_pixel);
                let q2 = quantize(acc2, samples_per_pixel);
                let ghost before = image;
                image.set(li, lj, Vec3(q0, q1, q2));
                proof {
                    if samples_per_pixel >= 1 {
                        assert forall|a: int, b: int| 0 <= a < w && 0 <= b < h implies pixel_quantized(
                            #[trigger] image.spec_pixel(a, b),
                            samples_per_pixel as int,
                        ) by {
                            if a == li as int && b == lj as int {
                                assert(image.spec_pixel(a, b) == (Vec3(
                                    spec_quantize(acc0 as int, samples_per_pixel as int) as u8,
                                    spec_quantize(acc1 as int, samples_per_pixel as int) as u8,
                                    spec_quantize(acc2 as int, samples_per_pixel as int) as u8,
                                )));
                            } else {
                                assert(image.spec_pixel(a, b) == before.spec_pixel(a, b));
                            }
                        }
                        if forall|rr: Ray|
                            rr.traceable() ==> !(#[trigger] self.spec_scene().spec_hits(rr)) {
                            lemma_quantize_full(samples_per_pixel as int);
                            assert forall|a: int|
                                0 <= a < li + 1 implies (#[trigger] image.spec_pixel(
                                a,
                                lj as int,
                            )).2 == 255 by {
                                if a < li as int {
                                    assert(image.spec_pixel(a, lj as int) == before.spec_pixel(
                                        a,
                                        lj as int,
                                    ));
                                }
                            }
                            assert forall|a: int, b: int|
                                0 <= a < w && 0 <= b < lj implies (#[trigger] image.spec_pixel(
                                a,
                                b,
                            )).2 == 255 by {
                                assert(image.spec_pixel(a, b) == before.spec_pixel(a, b));
                            }
                        }
                    }
                }
                li = li + 1;
            }
            proof {
                if samples_per_pixel >= 1 && forall|rr: Ray|
                    rr.traceable() ==> !(#[trigger] self.spec_scene().spec_hits(rr)) {
                    assert forall|a: int, b: int|
                        0 <= a < w && 0 <= b < lj + 1 implies (#[trigger] image.spec_pixel(
                        a,
                        b,
                    )).2 == 255 by {
                        if b == lj as int {
                            assert(image.spec_pixel(a, lj as int).2 == 255);
                        }
                    }
                }
            }
            lj = lj + 1;
        }
        Ok(image)
    }

    /// Trace one sample: follow the ray through up to `bounces` scatter
    /// events, then walk the recorded path backward from the sky colour,
    /// attenuating at each surface. The result is a colour (all channels in
    /// `[0, UNIT]`); its exact value rests on the random scatter draws.
    /// Trace one sample: follow the ray through up to `bounces` scatter
    /// events, then run the backward pass (`colour_along_path`) from the
    /// sky colour of the ray the path ended on. The recorded path and the
    /// final ray are returned as ghost data: which path is walked rests on
    /// the random scatter draws, but the colour is pinned exactly as a
    /// function of them, and a primary ray the scene misses always keeps
    /// its path empty.
    fn trace_sample(&self, primary: Ray, bounces: usize, rng: &mut rand::rngs::SmallRng) -> (res: (
        Colour,
        Ghost<(Seq<MaterialHit>, Ray)>,
    ))
        requires
            primary.traceable(),
        ensures
            path_ok(res.1@.0),
            res.1@.1.traceable(),
            rgb(res.0) == spec_path_colour(
                res.1@.0,
                0,
                spec_sky_channels(spec_normalised(res.1@.1.spec_direction())),
            ),
            !self.spec_scene().spec_hits(primary) || bounces == 0 ==> res.1@.0.len() == 0
                && res.1@.1 == primary,
            (forall|rr: Ray|
                rr.traceable() ==> !(#[trigger] self.spec_scene().spec_hits(rr)))
                ==> res.0.spec_blue() == UNIT,
    {
        // Forward pass: record the path of material hits.
        let mut current_ray = primary;
        let mut reverse_path: Vec<MaterialHit> = Vec::new();
        let mut bounce: usize = 0;
        while bounce < bounces
            invariant
                primary.traceable(),
                current_ray.traceable(),
                path_ok(reverse_path@),
                !self.spec_scene().spec_hits(primary) || bounces == 0 ==> reverse_path@.len()
                    == 0 && current_ray == primary,
                (forall|rr: Ray|
                    rr.traceable() ==> !(#[trigger] self.spec_scene().spec_hits(rr)))
                    ==> reverse_path@.len() == 0 && current_ray == primary,
            decreases bounces - bounce,
        {
            match self.scene.hit(&current_ray) {
                Some(material_hit) => {
                    let normal = material_hit.intersected_surface_normal;
                    if !scatter_inputs_check(&current_ray, &normal) {
                        // Degenerate geometry pushed the hit out of range;
                        // end the path here rather than follow it.
                        break ;
                    }
                    let new_ray = material_hit.material.sample_gathering_ray(
                        &current_ray,
                        &normal,
                        rng,
                    );
                    reverse_path.push(material_hit);
                    if new_ray.is_traceable() {
                        current_ray = new_ray;
                    } else {
                        break ;
                    }
                },
                None => { break ; },
            }
            bounce = bounce + 1;
        }
        // Backward pass, from the colour of the sky the final ray escaped
        // into.
        let colour = colour_along_path(&reverse_path, &current_ray);
        proof {
            if forall|rr: Ray| rr.traceable() ==> !(#[trigger] self.spec_scene().spec_hits(rr)) {
                crate::vec3::lemma_normalised_in_range(current_ray.spec_direction());
                lemma_sky_blue(spec_normalised(current_ray.spec_direction()));
            }
        }
        (colour, Ghost((reverse_path@, current_ray)))
    }
}

/// Conditions every recorded path node satisfies (checked before a node is
/// recorded): its surface normal has an in-range origin, a direction no
/// longer than a unit, and a nonzero direction.
pub open spec fn path_ok(s: Seq<MaterialHit>) -> bool {
    forall|k: int|
        0 <= k < s.len() ==> {
            let n = (#[trigger] s[k]).intersected_surface_normal;
            &&& in_range(n.spec_origin(), COORD_LIMIT as int)
            &&& in_range(n.spec_direction(), UNIT as int)
            &&& spec_dot(n.spec_direction(), n.spec_direction()) >= 1
        }
}

/// Decide `camera_inputs_ok` at run time, so unverified callers can test
/// `Camera::new`'s precondition before building a camera.
pub fn camera_inputs_check(origin: &WorldVec, up: &WorldVec, forward: &WorldVec) -> (b: bool)
    ensures
        b == camera_inputs_ok(*origin, *up, *forward),
{
    if !(origin.0 >= -COORD_LIMIT && origin.0 <= COORD_LIMIT && origin.1 >= -COORD_LIMIT
        && origin.1 <= COORD_LIMIT && origin.2 >= -COORD_LIMIT && origin.2 <= COORD_LIMIT) {
        return false;
    }
    if !(up.0 >= -CAM_VEC_LIMIT && up.0 <= CAM_VEC_LIMIT && up.1 >= -CAM_VEC_LIMIT && up.1
        <= CAM_VEC_LIMIT && up.2 >= -CAM_VEC_LIMIT && up.2 <= CAM_VEC_LIMIT) {
        return false;
    }
    if !(forward.0 >= -CAM_VEC_LIMIT && forward.0 <= CAM_VEC_LIMIT && forward.1 >= -CAM_VEC_LIMIT
        && forward.1 <= CAM_VEC_LIMIT && forward.2 >= -CAM_VEC_LIMIT && forward.2
        <= CAM_VEC_LIMIT) {
        return false;
    }
    if dot_wide(*up, *up) < 1 || dot_wide(*forward, *forward) < 1 {
        return false;
    }
    let nup = up.normalised();
    let nfwd = forward.normalised();
    let c1 = nup.cross(nfwd);
    proof {
        crate::vec3::lemma_cross_range(nup, nfwd, UNIT as int, UNIT as int);
    }
    if dot_wide(c1, c1) < 1 {
        return false;
    }
    let r = c1.normalised();
    let f = cross_wide(r, *up);
    proof {
        crate::vec3::lemma_cross_range(r, *up, UNIT as int, CAM_VEC_LIMIT as int);
    }
    dot_wide(f, f) >= 1
}

/// Decide `looking_at_inputs_ok` at run time, so unverified callers can
/// test `Camera::new_looking_at`'s precondition first.
pub fn looking_at_inputs_check(origin: &WorldVec, up: &WorldVec, looking_at: &WorldVec) -> (b:
    bool)
    ensures
        b == looking_at_inputs_ok(*origin, *up, *looking_at),
{
    if !(origin.0 >= -COORD_LIMIT && origin.0 <= COORD_LIMIT && origin.1 >= -COORD_LIMIT
        && origin.1 <= COORD_LIMIT && origin.2 >= -COORD_LIMIT && origin.2 <= COORD_LIMIT) {
        return false;
    }
    if !(looking_at.0 >= -COORD_LIMIT && looking_at.0 <= COORD_LIMIT && looking_at.1
        >= -COORD_LIMIT && looking_at.1 <= COORD_LIMIT && looking_at.2 >= -COORD_LIMIT
        && looking_at.2 <= COORD_LIMIT) {
        return false;
    }
    if !(up.0 >= -CAM_VEC_LIMIT && up.0 <= CAM_VEC_LIMIT && up.1 >= -CAM_VEC_LIMIT && up.1
        <= CAM_VEC_LIMIT && up.2 >= -CAM_VEC_LIMIT && up.2 <= CAM_VEC_LIMIT) {
        return false;
    }
    if dot_wide(*up, *up) < 1 {
        return false;
    }
    let diff = Vec3(looking_at.0 - origin.0, looking_at.1 - origin.1, looking_at.2 - origin.2);
    if dot_wide(diff, diff) < 1 {
        return false;
    }
    let forward = diff.normalised();
    let right0 = up.normalised().cross(forward.normalised());
    proof {
        crate::vec3::lemma_cross_range(
            spec_normalised(*up),
            spec_normalised(forward),
            UNIT as int,
            UNIT as int,
        );
    }
    if dot_wide(right0, right0) < 1 {
        return false;
    }
    let up2 = forward.normalised().cross(right0.normalised());
    camera_inputs_check(origin, &up2, &forward)
}

/// Cross product of a unit vector with a raw basis input, whose wider range
/// `Vec3::cross` does not admit.
fn cross_wide(a: Vec3<i64>, b: Vec3<i64>) -> (r: Vec3<i64>)
    requires
        in_range(a, UNIT as int),
        in_range(b, CAM_VEC_LIMIT as int),
    ensures
        r == spec_cross(a, b),
{
    proof {
        lemma_mul_bound(a.1 as int, b.2 as int, UNIT as int, CAM_VEC_LIMIT as int);
        lemma_mul_bound(a.2 as int, b.1 as int, UNIT as int, CAM_VEC_LIMIT as int);
        lemma_mul_bound(a.2 as int, b.0 as int, UNIT as int, CAM_VEC_LIMIT as int);
        lemma_mul_bound(a.0 as int, b.2 as int, UNIT as int, CAM_VEC_LIMIT as int);
        lemma_mul_bound(a.0 as int, b.1 as int, UNIT as int, CAM_VEC_LIMIT as int);
        lemma_mul_bound(a.1 as int, b.0 as int, UNIT as int, CAM_VEC_LIMIT as int);
    }
    let x: i128 = (a.1 as i128) * (b.2 as i128) - (a.2 as i128) * (b.1 as i128);
    let y: i128 = (a.2 as i128) * (b.0 as i128) - (a.0 as i128) * (b.2 as i128);
    let z: i128 = (a.0 as i128) * (b.1 as i128) - (a.1 as i128) * (b.0 as i128);
    Vec3(x as i64, y as i64, z as i64)
}

/// The sky gradient for a (fixed-point) unit direction: a blend between
/// white and sky blue keyed on the direction's height. The blue channel is
/// one for every direction.
pub open spec fn spec_sky_channels(nd: Vec3<i64>) -> (int, int, int) {
    let t = (nd.1 + UNIT) / 2;
    (
        (UNIT - t) + (500_000 * t) / (UNIT as int),
        (UNIT - t) + (700_000 * t) / (UNIT as int),
        (UNIT - t) + (1_000_000 * t) / (UNIT as int),
    )
}

/// The colour of one sample after the backward pass over nodes `k ..` of a
/// recorded path, starting from the sky colour `start`: the last-recorded
/// node is attenuated first, the node nearest the camera last. Materials'
/// attenuations do not read the angle of incidence, so the fold is a
/// function of the path and the start colour alone.
pub open spec fn spec_path_colour(s: Seq<MaterialHit>, k: int, start: (int, int, int)) -> (
    int,
    int,
    int,
)
    decreases s.len() - k,
{
    if k < 0 || k >= s.len() {
        start
    } else {
        spec_material_colour(
            s[k].material,
            spec_path_colour(s, k + 1, start),
            s[k].intersected_surface_normal,
        )
    }
}

/// The pixel value is a quantised per-channel accumulator of `samples`
/// sample colours, each channel sum in `[0, samples * UNIT]`.
pub open spec fn pixel_quantized(p: Vec3<u8>, samples: int) -> bool {
    exists|a0: int, a1: int, a2: int|
        {
            &&& 0 <= a0 <= samples * UNIT
            &&& 0 <= a1 <= samples * UNIT
            &&& 0 <= a2 <= samples * UNIT
            &&& p == (Vec3(
                #[trigger] spec_quantize(a0, samples) as u8,
                #[trigger] spec_quantize(a1, samples) as u8,
                #[trigger] spec_quantize(a2, samples) as u8,
            ))
        }
}

/// The sky colour of the ray a sample's path ended on.
pub fn sky_colour(final_ray: &Ray) -> (c: Colour)
    requires
        final_ray.traceable(),
    ensures
        rgb(c) == spec_sky_channels(spec_normalised(final_ray.spec_direction())),
{
    let dirhat = final_ray.get_direction().normalised();
    let t: i64 = div_i128((dirhat.1 as i128) + (UNIT as i128), 2) as i64;
    proof {
        lemma_sky_channel(500_000, t as int);
        lemma_sky_channel(700_000, t as int);
        lemma_sky_channel(1_000_000, t as int);
    }
    let c0: i64 = (UNIT - t) + div_i128(500_000 * (t as i128), UNIT as i128) as i64;
    let c1: i64 = (UNIT - t) + div_i128(700_000 * (t as i128), UNIT as i128) as i64;
    let c2: i64 = (UNIT - t) + div_i128(1_000_000 * (t as i128), UNIT as i128) as i64;
    Colour::new(c0, c1, c2)
}

/// The sky's blue channel is exactly one for every unit direction.
proof fn lemma_sky_blue(nd: Vec3<i64>)
    requires
        -UNIT <= nd.1 <= UNIT,
    ensures
        spec_sky_channels(nd).2 == UNIT as int,
{
    let t = (nd.1 + UNIT as int) / 2;
    crate::num::lemma_div_le(nd.1 + UNIT as int, 2);
    lemma_div_is_ordered(nd.1 + UNIT as int, 2 * UNIT as int, 2);
    lemma_div_scaled(UNIT as int, 1, 2);
    assert(UNIT as int * 2 == 2 * UNIT as int) by (nonlinear_arith);
    lemma_div_scaled(t, 1, UNIT as int);
    assert(1_000_000 * t == t * UNIT) by (nonlinear_arith)
        requires
            UNIT == 1_000_000i64,
    ;
}

/// The backward pass: start from the sky colour of the ray the path ended
/// on and attenuate through the recorded hits, nearest the sky first. The
/// first-processed node's angle of incidence is exactly pi; later nodes use
/// the angle between the travel direction into the node and its normal
/// (materials presently ignore the angle, and the contract says so by
/// omitting it).
pub fn colour_along_path(path: &Vec<MaterialHit>, final_ray: &Ray) -> (c: Colour)
    requires
        path_ok(path@),
        final_ray.traceable(),
    ensures
        rgb(c) == spec_path_colour(
            path@,
            0,
            spec_sky_channels(spec_normalised(final_ray.spec_direction())),
        ),
{
    let start = sky_colour(final_ray);
    let ghost sky = spec_sky_channels(spec_normalised(final_ray.spec_direction()));
    let mut colour = start;
    let mut k: usize = path.len();
    while k > 0
        invariant
            k <= path@.len(),
            path_ok(path@),
            rgb(colour) == spec_path_colour(path@, k as int, sky),
        decreases k,
    {
        k = k - 1;
        let current = &path[k];
        let angle: i64 = if k + 1 == path.len() {
            PI_FP
        } else {
            // The direction light travelled into this node: from this
            // node's surface point to the next recorded one.
            let prev = &path[k + 1];
            let tv = Vec3(
                prev.intersected_surface_normal.origin.0
                    - current.intersected_surface_normal.origin.0,
                prev.intersected_surface_normal.origin.1
                    - current.intersected_surface_normal.origin.1,
                prev.intersected_surface_normal.origin.2
                    - current.intersected_surface_normal.origin.2,
            );
            let td = dot_wide(tv, tv);
            if td > 0 {
                let th = tv.normalised();
                let nh = current.intersected_surface_normal.get_direction().normalised();
                let d: i64 = th.dot(nh);
                proof {
                    crate::vec3::lemma_dot_range(th, nh, UNIT as int);
                    lemma_tdiv_bound(d as int, UNIT as int, 3_000_000_000_000);
                    lemma_div_scaled(3_000_000, 1, UNIT as int);
                    assert(3_000_000 * UNIT == 3_000_000_000_000int) by (nonlinear_arith)
                        requires
                            UNIT == 1_000_000i64,
                    ;
                }
                acos_fp(div_i128(d as i128, UNIT as i128) as i64)
            } else {
                // Coincident surface points leave no travel direction;
                // fall back to the no-attenuation angle.
                PI_FP
            }
        };
        colour = current.material.colour(colour, &current.intersected_surface_normal, angle);
    }
    colour
}

/// Averaging `samples >= 1` colours of full blue quantises to 255.
proof fn lemma_quantize_full(samples: int)
    requires
        1 <= samples <= SAMPLE_LIMIT,
    ensures
        spec_quantize(samples * UNIT, samples) == 255,
{
    let x = samples * UNIT as int;
    assert(2 * x * 255 + samples * UNIT as int == 255 * (2 * samples * UNIT as int) + x && 0 <= x
        && x < 2 * samples * UNIT as int && 2 * samples * UNIT as int != 0) by (nonlinear_arith)
        requires
            x == samples * UNIT as int,
            1 <= samples,
            UNIT == 1_000_000i64,
    ;
    lemma_fundamental_div_mod_converse(
        2 * (samples * UNIT as int) * 255 + samples * UNIT as int,
        2 * samples * UNIT as int,
        255,
        x,
    );
}

/// An all-zero accumulator quantises to black.
proof fn lemma_quantize_zero(samples: int)
    requires
        1 <= samples <= SAMPLE_LIMIT,
    ensures
        spec_quantize(0, samples) == 0,
{
    let x = samples * UNIT as int;
    assert(2 * 0 * 255 + samples * UNIT as int == 0 * (2 * samples * UNIT as int) + x && 0 <= x
        && x < 2 * samples * UNIT as int && 2 * samples * UNIT as int != 0) by (nonlinear_arith)
        requires
            x == samples * UNIT as int,
            1 <= samples,
            UNIT == 1_000_000i64,
    ;
    lemma_fundamental_div_mod_converse(
        2 * 0 * 255 + samples * UNIT as int,
        2 * samples * UNIT as int,
        0,
        x,
    );
}

/// `b * s / UNIT` for a basis component `b`: one term of a plane-point sum.
fn scaled(b: i64, s: i64) -> (r: i64)
    requires
        -UNIT <= b <= UNIT,
        -100_000_000_000_000_000 <= s <= 100_000_000_000_000_000,
    ensures
        r == tdiv(b * s, UNIT as int),
        -100_000_000_000_000_000 <= r <= 100_000_000_000_000_000,
{
    proof {
        lemma_basis_term_bound(Vec3(b, b, b), s as int, 100_000_000_000_000_000int);
    }
    div_i128((b as i128) * (s as i128), UNIT as i128) as i64
}

/// `b * (d * i) / UNIT`: the stepped variant of `scaled`.
fn scaled2(b: i64, d: i64, i: usize) -> (r: i64)
    requires
        -UNIT <= b <= UNIT,
        -4_800_000_000_000 <= d <= 4_800_000_000_000,
        i <= 110_000,
    ensures
        r == tdiv(b * (d * i), UNIT as int),
        -528_000_000_000_000_000 <= r <= 528_000_000_000_000_000,
{
    proof {
        lemma_mul_bound(d as int, i as int, 4_800_000_000_000, 110_000);
        lemma_basis_term_bound(Vec3(b, b, b), d as int * (i as int), 528_000_000_000_000_000int);
    }
    div_i128((b as i128) * ((d as i128) * (i as i128)), UNIT as i128) as i64
}

/// One basis component times a bounded scalar, rescaled by `UNIT`, keeps
/// the scalar's bound.
proof fn lemma_basis_term_bound(v: Vec3<i64>, s: int, bound: int)
    requires
        in_range(v, UNIT as int),
        0 <= bound,
        -bound <= s <= bound,
    ensures
        -(UNIT as int * bound) <= v.0 * s <= UNIT as int * bound,
        -(UNIT as int * bound) <= v.1 * s <= UNIT as int * bound,
        -(UNIT as int * bound) <= v.2 * s <= UNIT as int * bound,
        -bound <= tdiv(v.0 * s, UNIT as int) <= bound,
        -bound <= tdiv(v.1 * s, UNIT as int) <= bound,
        -bound <= tdiv(v.2 * s, UNIT as int) <= bound,
{
    lemma_mul_bound(v.0 as int, s, UNIT as int, bound);
    lemma_mul_bound(v.1 as int, s, UNIT as int, bound);
    lemma_mul_bound(v.2 as int, s, UNIT as int, bound);
    lemma_tdiv_bound(v.0 * s, UNIT as int, UNIT as int * bound);
    lemma_tdiv_bound(v.1 * s, UNIT as int, UNIT as int * bound);
    lemma_tdiv_bound(v.2 * s, UNIT as int, UNIT as int * bound);
    lemma_div_scaled(bound, 1, UNIT as int);
    assert(bound * UNIT == UNIT as int * bound) by (nonlinear_arith);
}

/// One sky-gradient channel stays within `[0, UNIT]`.
proof fn lemma_sky_channel(sc: int, t: int)
    requires
        0 <= sc <= UNIT,
        0 <= t <= UNIT,
    ensures
        0 <= (UNIT - t) + tdiv(sc * t, UNIT as int) <= UNIT,
        -(UNIT as int * UNIT) <= sc * t <= UNIT as int * UNIT,
{
    lemma_mul_bound(sc, t, UNIT as int, UNIT as int);
    assert(sc * t >= 0 && sc * t <= UNIT as int * t) by (nonlinear_arith)
        requires
            0 <= sc <= UNIT,
            0 <= t,
    ;
    crate::num::lemma_div_le(sc * t, UNIT as int);
    lemma_div_is_ordered(sc * t, UNIT as int * t, UNIT as int);
    lemma_div_scaled(t, 1, UNIT as int);
    assert(t * UNIT == UNIT as int * t) by (nonlinear_arith);
}

/// The cross product of two basis inputs is exactly orthogonal to both, so
/// the basis the camera constructors build is orthogonal before the final
/// normalisations round it; `vec3::lemma_cross_orthogonal` carries the
/// algebra.
pub proof fn lemma_camera_basis_orthogonal(up: WorldVec, forward: WorldVec)
    requires
        in_range(up, CAM_VEC_LIMIT as int),
        in_range(forward, CAM_VEC_LIMIT as int),
        spec_dot(up, up) >= 1,
        spec_dot(forward, forward) >= 1,
    ensures
        spec_dot(
            spec_cross(spec_normalised(up), spec_normalised(forward)),
            spec_normalised(up),
        ) == 0,
        spec_dot(
            spec_cross(spec_normalised(up), spec_normalised(forward)),
            spec_normalised(forward),
        ) == 0,
{
    crate::vec3::lemma_normalised_in_range(up);
    crate::vec3::lemma_normalised_in_range(forward);
    crate::vec3::lemma_cross_orthogonal(spec_normalised(up), spec_normalised(forward));
}

/// Average `acc` over `samples` and rescale from `[0, UNIT]` to 8 bits,
/// rounding to nearest (half away from zero); zero samples yield black.
pub open spec fn spec_quantize(acc: int, samples: int) -> int {
    if samples <= 0 {
        0
    } else {
        (2 * acc * 255 + samples * UNIT) / (2 * samples * UNIT)
    }
}

/// Quantize one accumulated channel.
fn quantize(acc: i64, samples: usize) -> (q: u8)
    requires
        samples <= SAMPLE_LIMIT,
        0 <= acc <= samples * UNIT,
    ensures
        q == spec_quantize(acc as int, samples as int),
{
    if samples == 0 {
        return 0;
    }
    proof {
        lemma_quantize_bounds(acc as int, samples as int);
    }
    let num: i128 = 2 * (acc as i128) * 255 + (samples as i128) * (UNIT as i128);
    let den: i128 = 2 * (samples as i128) * (UNIT as i128);
    div_i128(num, den) as u8
}

/// The quantized channel is at most 255.
proof fn lemma_quantize_bounds(acc: int, samples: int)
    requires
        1 <= samples <= SAMPLE_LIMIT,
        0 <= acc <= samples * UNIT,
    ensures
        0 <= spec_quantize(acc, samples) <= 255,
        2 * acc * 255 + samples * UNIT <= 1_022_000_000_000_000_000,
        2 <= 2 * samples * UNIT <= 2_000_000_000_000,
        tdiv(2 * acc * 255 + samples * UNIT, 2 * samples * UNIT) == spec_quantize(acc, samples),
{
    let x = samples * UNIT;
    assert(1_000_000 <= x <= 1_000_000_000_000 && 2 * acc * 255 <= 510 * x && 0 <= 2 * acc * 255)
        by (nonlinear_arith)
        requires
            1 <= samples <= SAMPLE_LIMIT,
            0 <= acc <= samples * UNIT,
            x == samples * UNIT,
            UNIT == 1_000_000i64,
            SAMPLE_LIMIT == 1_000_000usize,
    ;
    let num = 2 * acc * 255 + x;
    crate::num::lemma_div_le(num, 2 * x);
    lemma_div_is_ordered(num, 511 * x, 2 * x);
    lemma_div_scaled(511, 2, x);
    assert(511 * x == (511int) * x && 2 * x == (2int) * x);
    assert((511int) / 2 == 255);
    assert(2 * samples * UNIT == 2 * x) by (nonlinear_arith)
        requires
            x == samples * UNIT,
    ;
}

} // verus!
