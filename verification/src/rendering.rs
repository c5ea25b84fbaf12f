//! The render pipeline: shading, nearest-hit resolution, sampling and
//! downsampling.

use vstd::prelude::*;
use crate::cameras::{wf_camera, Camera};
use crate::fixed::{fmul, fp_mul, fp_powi, lemma_fmul_bound, lemma_mul_abs_bound, sabs, sp_powi, SCALE};
use crate::geometry::{sp_hit, sp_normal_at, wf_geometry, Geometry, MAX_COORD, T_MAX};
use crate::lighting::{sc_add, sc_mul, sc_new, sc_scale, Color, ColorV, Light};
use crate::materials::{wf_material, Material, COEF_MAX};
use crate::objects::{wf_object, Object};
use crate::ray::{wf_ray, Ray};
use crate::vector::{bounded3, sv_add, sv_dot, sv_normalize, sv_scale, sv_sub, V3};

verus! {

/// Whether shading reproduces the historical behavior exactly, or clamps
/// negative diffuse and specular terms at zero first.
///
/// In the literal mode a light behind a surface subtracts, and a specular
/// power of a negative base alternates in sign; the corrected mode floors
/// both terms at zero before weighting and exponentiation.
#[derive(Clone, Copy, PartialEq, Eq, Structural, Debug)]
pub enum ShadingMode {
    Literal,
    Corrected,
}

/// A value forced into one fixed-point unit either way.  A dot product of
/// two unit vectors lies there mathematically; rounding can push it a hair
/// past, so the specular base is pinned before exponentiation.
pub open spec fn sp_clamp_unit(x: int) -> int {
    if x > SCALE as int {
        SCALE as int
    } else if x < -(SCALE as int) {
        -(SCALE as int)
    } else {
        x
    }
}

/// The scalar weight one light adds at a hit: the diffuse term times the
/// material's diffusion, plus the specular power times its specularity.
pub open spec fn sp_shade_scalar(dir: V3, normal: V3, ld: V3, m: Material, mode: ShadingMode) -> int {
    let diffusion: int = sv_dot(ld, normal);
    let specularity: int = sv_dot(sv_normalize(sv_sub(ld, dir)), normal);
    let dterm: int = if mode is Corrected && diffusion < 0 {
        0
    } else {
        diffusion
    };
    let sbase: int = sp_clamp_unit(
        if mode is Corrected && specularity < 0 {
            0
        } else {
            specularity
        },
    );
    fmul(dterm, m.diffusion as int) + fmul(sp_powi(sbase, m.shininess as nat), m.specularity as int)
}

/// One light's color contribution at a hit point: the light's color times
/// the material's color, scaled by the shading weight.
pub open spec fn sp_light_contribution(
    dir: V3,
    hit: V3,
    normal: V3,
    m: Material,
    light: Light,
    mode: ShadingMode,
) -> ColorV {
    let ld: V3 = sv_normalize(sv_sub(light.position@, hit));
    sc_scale(sc_mul(light.color@, m.color@), sp_shade_scalar(dir, normal, ld, m, mode))
}

/// The clamped sum of every light's contribution, black for no lights.
pub open spec fn sp_shade_sum(
    dir: V3,
    hit: V3,
    normal: V3,
    m: Material,
    lights: Seq<Light>,
    mode: ShadingMode,
) -> ColorV
    decreases lights.len(),
{
    if lights.len() == 0 {
        sc_new(0, 0, 0)
    } else {
        sc_add(
            sp_shade_sum(dir, hit, normal, m, lights.drop_last(), mode),
            sp_light_contribution(dir, hit, normal, m, lights.last(), mode),
        )
    }
}

/// The color shaded at the hit `t` of a ray against one primitive.
pub open spec fn sp_color_at(
    ray: Ray,
    t: int,
    g: Geometry,
    m: Material,
    lights: Seq<Light>,
    mode: ShadingMode,
) -> ColorV {
    let hit: V3 = sv_add(ray.origin@, sv_scale(ray.direction@, t));
    sp_shade_sum(ray.direction@, hit, sp_normal_at(g, hit), m, lights, mode)
}

/// Every light's position lies within scene bounds.
pub open spec fn wf_lights(s: Seq<Light>) -> bool {
    forall|i: int| 0 <= i < s.len() ==> bounded3(#[trigger] s[i].position@, MAX_COORD as int)
}

/// Every entry's primitive and material are well formed.
pub open spec fn wf_entries(s: Seq<(Geometry, Material)>) -> bool {
    forall|i: int|
        0 <= i < s.len() ==> wf_geometry((#[trigger] s[i]).0) && wf_material(s[i].1)
}

/// The nearest forward hit over a flattened entry sequence: the entry of
/// smallest hit parameter, the earliest of equals.
pub open spec fn sp_nearest(entries: Seq<(Geometry, Material)>, ray: Ray) -> Option<(int, int)>
    decreases entries.len(),
{
    if entries.len() == 0 {
        None
    } else {
        match sp_hit(entries.last().0, ray) {
            Some(t) => match sp_nearest(entries.drop_last(), ray) {
                Some(p) => if t < p.1 {
                    Some((entries.len() - 1, t))
                } else {
                    Some(p)
                },
                None => Some((entries.len() - 1, t)),
            },
            None => sp_nearest(entries.drop_last(), ray),
        }
    }
}

/// The color a ray resolves to: the shading of its nearest hit, or pure
/// black ("background") when it hits nothing.
pub open spec fn sp_ray_color(
    ray: Ray,
    entries: Seq<(Geometry, Material)>,
    lights: Seq<Light>,
    mode: ShadingMode,
) -> ColorV {
    match sp_nearest(entries, ray) {
        Some(p) => sp_color_at(ray, p.1, entries[p.0].0, entries[p.0].1, lights, mode),
        None => sc_new(0, 0, 0),
    }
}

/// Every object of a scene is well formed.
pub open spec fn wf_objects(s: Seq<Object>) -> bool {
    forall|i: int| 0 <= i < s.len() ==> wf_object(#[trigger] s[i])
}

/// The flattened (primitive, material) pairs of a sequence of objects, in
/// object order, mesh order within an object.
pub open spec fn sp_entries_of(objects: Seq<Object>) -> Seq<(Geometry, Material)>
    decreases objects.len(),
{
    if objects.len() == 0 {
        Seq::empty()
    } else {
        sp_entries_of(objects.drop_last()) + Seq::new(
            objects.last().mesh@.len(),
            |i: int| (objects.last().mesh@[i], objects.last().material),
        )
    }
}

/// The mathematical values of a buffer of colors, element for element.
pub open spec fn sp_color_views(s: Seq<Color>) -> Seq<ColorV> {
    s.map_values(|c: Color| c@)
}

/// Where sample `l` of pixel `k`'s block sits in the row-major sample
/// buffer, for supersampling factor `a` and image width `w`.
pub open spec fn sp_block_index(a: int, w: int, k: int, l: int) -> int {
    (a * (k / w) + l / a) * (a * w) + (a * (k % w) + l % a)
}

/// The channelwise sum of the first `l` samples of pixel `k`'s block.
pub open spec fn sp_block_sum(samples: Seq<ColorV>, a: int, w: int, k: int, l: int) -> (int, int, int)
    decreases l,
{
    if l <= 0 {
        (0, 0, 0)
    } else {
        let rest: (int, int, int) = sp_block_sum(samples, a, w, k, l - 1);
        let c: ColorV = samples[sp_block_index(a, w, k, l - 1)];
        (rest.0 + c.red, rest.1 + c.green, rest.2 + c.blue)
    }
}

/// One output pixel: the unweighted average of its `a * a` contributing
/// samples, each channel rounded down once, after the exact sum.
pub open spec fn sp_pixel(samples: Seq<ColorV>, a: int, w: int, k: int) -> ColorV {
    ColorV {
        red: sp_block_sum(samples, a, w, k, a * a).0 / (a * a),
        green: sp_block_sum(samples, a, w, k, a * a).1 / (a * a),
        blue: sp_block_sum(samples, a, w, k, a * a).2 / (a * a),
    }
}

/// Downsampling with factor one is the identity: a pixel's block is the one
/// sample of the same index, averaged over one.
pub proof fn lemma_downsample_identity(samples: Seq<ColorV>, w: int, k: int)
    requires
        w >= 1,
        0 <= k < samples.len(),
    ensures
        sp_pixel(samples, 1, w, k) == samples[k],
{
    vstd::arithmetic::div_mod::lemma_fundamental_div_mod(k, w);
    vstd::arithmetic::mul::lemma_mul_is_commutative(w, k / w);
    assert(sp_block_index(1, w, k, 0) == k);
    assert(sp_block_sum(samples, 1, w, k, 0) == (0int, 0int, 0int));
    assert(sp_block_sum(samples, 1, w, k, 1) == (
        samples[k].red,
        samples[k].green,
        samples[k].blue,
    ));
    vstd::arithmetic::div_mod::lemma_div_basics(samples[k].red);
    vstd::arithmetic::div_mod::lemma_div_basics(samples[k].green);
    vstd::arithmetic::div_mod::lemma_div_basics(samples[k].blue);
}

/// The (unnormalized) direction of sample `k` on the focal plane: the
/// sample grid is centered on the viewing axis, rows count down from the
/// image top, and the plane sits one focal length down the negative
/// principal axis.
pub open spec fn sp_sample_dir(camera: Camera, sw: int, sh: int, k: int) -> V3 {
    let fph: int = fmul(camera.tan_half_fov as int, 2 * camera.focal_length);
    let ss: int = crate::fixed::div_trunc(fph, sh);
    V3 {
        x: crate::fixed::div_trunc((2 * (k % sw) - (sw - 1)) * ss, 2),
        y: -crate::fixed::div_trunc((2 * (k / sw) - (sh - 1)) * ss, 2),
        z: -camera.focal_length,
    }
}

/// The ray of sample `k`: from the camera origin toward the sample point.
pub open spec fn sp_sample_ray(camera: Camera, sw: int, sh: int, k: int) -> Ray {
    let dirv: V3 = sv_normalize(sp_sample_dir(camera, sw, sh, k));
    Ray {
        origin: camera.origin,
        direction: crate::vector::Vector3 {
            x: dirv.x as i64,
            y: dirv.y as i64,
            z: dirv.z as i64,
        },
    }
}

/// The color of sample `k`: its ray resolved and shaded over the scene.
pub open spec fn sp_sample_color(
    entries: Seq<(Geometry, Material)>,
    lights: Seq<Light>,
    camera: Camera,
    sw: int,
    sh: int,
    k: int,
    mode: ShadingMode,
) -> ColorV {
    sp_ray_color(sp_sample_ray(camera, sw, sh, k), entries, lights, mode)
}

impl Ray {
    /// The entry with the smallest nonnegative hit parameter for this ray,
    /// with its index; nothing when every entry misses.  Of entries hitting
    /// at the same parameter, the first in entry order is returned, so the
    /// choice is deterministic.
    pub fn nearest_hit(&self, entries: &Vec<(Geometry, Material)>) -> (r: Option<(usize, i64)>)
        requires
            wf_entries(entries@),
            wf_ray(*self),
            bounded3(self.origin@, MAX_COORD as int),
        ensures
            match r {
                Some(it) => {
                    &&& (it.0 as int) < entries@.len()
                    &&& sp_hit(entries@[it.0 as int].0, *self) == Some(it.1 as int)
                    &&& 0 <= it.1 <= T_MAX
                    &&& sp_nearest(entries@, *self) == Some((it.0 as int, it.1 as int))
                    &&& forall|j: int|
                        0 <= j < entries@.len() && #[trigger] sp_hit(entries@[j].0, *self) is Some
                            ==> it.1 as int <= sp_hit(entries@[j].0, *self)->0
                    &&& forall|j: int|
                        0 <= j < it.0 as int && #[trigger] sp_hit(entries@[j].0, *self) is Some
                            ==> (it.1 as int) < sp_hit(entries@[j].0, *self)->0
                },
                None => {
                    &&& sp_nearest(entries@, *self) is None
                    &&& forall|j: int|
                        0 <= j < entries@.len() ==> #[trigger] sp_hit(entries@[j].0, *self) is None
                },
            },
    {
        let mut best: Option<(usize, i64)> = None;
        let mut i: usize = 0;
        proof {
            assert(entries@.subrange(0, 0) =~= Seq::<(Geometry, Material)>::empty());
        }
        while i < entries.len()
            invariant
                i <= entries@.len(),
                wf_entries(entries@),
                wf_ray(*self),
                bounded3(self.origin@, MAX_COORD as int),
                match best {
                    Some(it) => {
                        &&& (it.0 as int) < i as int
                        &&& sp_hit(entries@[it.0 as int].0, *self) == Some(it.1 as int)
                        &&& 0 <= it.1 <= T_MAX
                        &&& sp_nearest(entries@.subrange(0, i as int), *self) == Some(
                            (it.0 as int, it.1 as int),
                        )
                        &&& forall|j: int|
                            0 <= j < i as int && #[trigger] sp_hit(entries@[j].0, *self) is Some
                                ==> it.1 as int <= sp_hit(entries@[j].0, *self)->0
                        &&& forall|j: int|
                            0 <= j < it.0 as int && #[trigger] sp_hit(entries@[j].0, *self) is Some
                                ==> (it.1 as int) < sp_hit(entries@[j].0, *self)->0
                    },
                    None => {
                        &&& sp_nearest(entries@.subrange(0, i as int), *self) is None
                        &&& forall|j: int|
                            0 <= j < i as int ==> #[trigger] sp_hit(entries@[j].0, *self) is None
                    },
                },
            decreases entries@.len() - i,
        {
            let t_opt: Option<i64> = entries[i].0.intersection(self);
            proof {
                assert(entries@.subrange(0, i + 1).drop_last() =~= entries@.subrange(0, i as int));
                assert(entries@.subrange(0, i + 1).last() == entries@[i as int]);
            }
            match t_opt {
                Some(t) => {
                    match best {
                        Some(bt) => {
                            if t < bt.1 {
                                best = Some((i, t));
                            }
                        },
                        None => {
                            best = Some((i, t));
                        },
                    }
                },
                None => {},
            }
            i = i + 1;
        }
        proof {
            assert(entries@.subrange(0, entries@.len() as int) =~= entries@);
        }
        best
    }

    /// The color this ray is shaded with at hit `t` of the given primitive:
    /// the clamped sum over all lights of the Phong-style local model.
    pub fn color_at(
        &self,
        t: i64,
        geometry: &Geometry,
        material: &Material,
        lights: &Vec<Light>,
        mode: ShadingMode,
    ) -> (r: Color)
        requires
            wf_ray(*self),
            bounded3(self.origin@, MAX_COORD as int),
            0 <= t <= T_MAX,
            wf_geometry(*geometry),
            wf_material(*material),
            wf_lights(lights@),
        ensures
            r@ == sp_color_at(*self, t as int, *geometry, *material, lights@, mode),
    {
        let hit_point: crate::vector::Vector3 = self.point_at(t);
        let hit_normal: crate::vector::Vector3 = geometry.normal_at(&hit_point);
        let mut acc: Color = Color::new_black();
        let mut i: usize = 0;
        proof {
            assert(lights@.subrange(0, 0) =~= Seq::<Light>::empty());
        }
        while i < lights.len()
            invariant
                i <= lights@.len(),
                wf_ray(*self),
                bounded3(self.origin@, MAX_COORD as int),
                0 <= t <= T_MAX,
                wf_geometry(*geometry),
                wf_material(*material),
                wf_lights(lights@),
                hit_point@ == sv_add(self.origin@, sv_scale(self.direction@, t as int)),
                bounded3(hit_point@, crate::geometry::POINT_MAX as int),
                hit_normal@ == sp_normal_at(*geometry, hit_point@),
                bounded3(hit_normal@, SCALE as int),
                acc@ == sp_shade_sum(
                    self.direction@,
                    hit_point@,
                    hit_normal@,
                    *material,
                    lights@.subrange(0, i as int),
                    mode,
                ),
            decreases lights@.len() - i,
        {
            let light: &Light = &lights[i];
            let ld: crate::vector::Vector3 = light.direction_from(&hit_point);
            proof {
                crate::vector::lemma_sv_dot_bound(ld@, hit_normal@, SCALE as int, SCALE as int);
            }
            let diffusion: i64 = ld.dot(&hit_normal);
            let half: crate::vector::Vector3 = ld.sub(&self.direction).normalize();
            proof {
                crate::vector::lemma_sv_dot_bound(half@, hit_normal@, SCALE as int, SCALE as int);
            }
            let specularity: i64 = half.dot(&hit_normal);
            let raw_dterm: i64 = if matches!(mode, ShadingMode::Corrected) && diffusion < 0 {
                0
            } else {
                diffusion
            };
            let raw_sbase: i64 = if matches!(mode, ShadingMode::Corrected) && specularity < 0 {
                0
            } else {
                specularity
            };
            let sbase: i64 = if raw_sbase > SCALE {
                SCALE
            } else if raw_sbase < -SCALE {
                -SCALE
            } else {
                raw_sbase
            };
            let spow: i64 = fp_powi(sbase, material.shininess);
            proof {
                lemma_mul_abs_bound(raw_dterm as int, material.diffusion as int, 0x3_0000, COEF_MAX as int);
                lemma_fmul_bound(raw_dterm as int, material.diffusion as int, 0x3_0000, COEF_MAX as int);
                lemma_mul_abs_bound(spow as int, material.specularity as int, SCALE as int, COEF_MAX as int);
                lemma_fmul_bound(spow as int, material.specularity as int, SCALE as int, COEF_MAX as int);
            }
            let term: i64 = fp_mul(raw_dterm, material.diffusion) + fp_mul(
                spow,
                material.specularity,
            );
            let contribution: Color = light.color.mul(&material.color).scale(term);
            let next: Color = acc.add(&contribution);
            proof {
                assert(lights@.subrange(0, i + 1).drop_last() =~= lights@.subrange(0, i as int));
                assert(lights@.subrange(0, i + 1).last() == lights@[i as int]);
            }
            acc = next;
            i = i + 1;
        }
        proof {
            assert(lights@.subrange(0, lights@.len() as int) =~= lights@);
        }
        acc
    }

    /// The color this ray resolves to over the flattened entries: the
    /// shading of the nearest hit, or pure black when nothing is hit.
    pub fn color(
        &self,
        entries: &Vec<(Geometry, Material)>,
        lights: &Vec<Light>,
        mode: ShadingMode,
    ) -> (r: Color)
        requires
            wf_entries(entries@),
            wf_lights(lights@),
            wf_ray(*self),
            bounded3(self.origin@, MAX_COORD as int),
        ensures
            r@ == sp_ray_color(*self, entries@, lights@, mode),
    {
        match self.nearest_hit(entries) {
            Some(it) => self.color_at(it.1, &entries[it.0].0, &entries[it.0].1, lights, mode),
            None => Color::new_black(),
        }
    }
}

/// Averages non-overlapping `amount x amount` blocks of samples into each
/// output pixel with equal weight, block boundaries aligned to the pixel
/// grid: each output channel is the exact sum over its block, divided once
/// by the number of samples, rounded down.
pub fn downsample(
    samples: &Vec<Color>,
    amount: u32,
    image_width: u32,
    image_height: u32,
) -> (r: Vec<Color>)
    requires
        1 <= amount,
        1 <= image_width,
        1 <= image_height,
        image_width * amount <= 0x4000,
        image_height * amount <= 0x4000,
        samples@.len() == image_width * image_height * amount * amount,
    ensures
        r@.len() == image_width * image_height,
        forall|k: int|
            0 <= k < r@.len() ==> #[trigger] r@[k]@ == sp_pixel(
                sp_color_views(samples@),
                amount as int,
                image_width as int,
                k,
            ),
{
    proof {
        assert((amount as int) * (amount as int) <= 0x1000_0000 && 1 <= (amount as int) * (
        amount as int) && amount as int <= 0x4000 && image_width as int <= 0x4000
            && image_height as int <= 0x4000 && (image_width as int) * (image_height as int)
            <= 0x1000_0000) by (nonlinear_arith)
            requires
                1 <= amount as int,
                1 <= image_width as int,
                1 <= image_height as int,
                (image_width as int) * (amount as int) <= 0x4000,
                (image_height as int) * (amount as int) <= 0x4000,
        ;
    }
    let num_pixels: usize = (image_width as usize) * (image_height as usize);
    let spp: u64 = (amount as u64) * (amount as u64);
    let ghost sview: Seq<ColorV> = sp_color_views(samples@);
    let mut out: Vec<Color> = Vec::new();
    let mut k: usize = 0;
    while k < num_pixels
        invariant
            1 <= amount,
            1 <= image_width,
            1 <= image_height,
            image_width * amount <= 0x4000,
            image_height * amount <= 0x4000,
            samples@.len() == image_width * image_height * amount * amount,
            num_pixels == image_width * image_height,
            spp == (amount as int) * (amount as int),
            1 <= spp <= 0x1000_0000,
            amount <= 0x4000,
            image_width <= 0x4000,
            image_height <= 0x4000,
            sview == sp_color_views(samples@),
            out@.len() == k,
            k <= num_pixels,
            forall|p: int|
                0 <= p < k ==> #[trigger] out@[p]@ == sp_pixel(
                    sview,
                    amount as int,
                    image_width as int,
                    p,
                ),
        decreases num_pixels - k,
    {
        proof {
            vstd::arithmetic::div_mod::lemma_multiply_divide_lt(
                k as int,
                image_width as int,
                image_height as int,
            );
            vstd::arithmetic::div_mod::lemma_mod_bound(k as int, image_width as int);
        }
        let i0: u64 = (k as u64) / (image_width as u64);
        let j0: u64 = (k as u64) % (image_width as u64);
        let mut sr: u64 = 0;
        let mut sg: u64 = 0;
        let mut sb: u64 = 0;
        let mut l: u64 = 0;
        while l < spp
            invariant
                1 <= amount,
                1 <= image_width,
                1 <= image_height,
                image_width * amount <= 0x4000,
                image_height * amount <= 0x4000,
                samples@.len() == image_width * image_height * amount * amount,
                spp == (amount as int) * (amount as int),
                1 <= spp <= 0x1000_0000,
                amount <= 0x4000,
                image_width <= 0x4000,
                image_height <= 0x4000,
                sview == sp_color_views(samples@),
                k < num_pixels,
                num_pixels == image_width * image_height,
                i0 == k as int / image_width as int,
                j0 == k as int % image_width as int,
                i0 <= image_height - 1,
                j0 <= image_width - 1,
                l <= spp,
                sr == sp_block_sum(sview, amount as int, image_width as int, k as int, l as int).0,
                sg == sp_block_sum(sview, amount as int, image_width as int, k as int, l as int).1,
                sb == sp_block_sum(sview, amount as int, image_width as int, k as int, l as int).2,
                sr <= l * 65536,
                sg <= l * 65536,
                sb <= l * 65536,
            decreases spp - l,
        {
            proof {
                vstd::arithmetic::div_mod::lemma_multiply_divide_lt(
                    l as int,
                    amount as int,
                    amount as int,
                );
                vstd::arithmetic::div_mod::lemma_mod_bound(l as int, amount as int);
                assert((amount as int) * (i0 as int) + (l as int) / (amount as int) <= (
                amount as int) * (image_height as int) - 1) by (nonlinear_arith)
                    requires
                        i0 as int <= image_height as int - 1,
                        (l as int) / (amount as int) <= amount as int - 1,
                        0 <= (l as int) / (amount as int),
                        amount as int >= 1,
                        i0 as int >= 0,
                ;
                assert((amount as int) * (j0 as int) + (l as int) % (amount as int) <= (
                amount as int) * (image_width as int) - 1) by (nonlinear_arith)
                    requires
                        j0 as int <= image_width as int - 1,
                        (l as int) % (amount as int) <= amount as int - 1,
                        0 <= (l as int) % (amount as int),
                        amount as int >= 1,
                        j0 as int >= 0,
                ;
            }
            proof {
                vstd::arithmetic::mul::lemma_mul_upper_bound(
                    amount as int,
                    0x4000,
                    i0 as int,
                    0x4000,
                );
                vstd::arithmetic::mul::lemma_mul_upper_bound(
                    amount as int,
                    0x4000,
                    j0 as int,
                    0x4000,
                );
                vstd::arithmetic::mul::lemma_mul_nonnegative(amount as int, i0 as int);
                vstd::arithmetic::mul::lemma_mul_nonnegative(amount as int, j0 as int);
            }
            let row: u64 = (amount as u64) * i0 + l / (amount as u64);
            let col: u64 = (amount as u64) * j0 + l % (amount as u64);
            proof {
                assert((row as int) * ((amount as int) * (image_width as int)) + (col as int) < (
                image_width as int) * (image_height as int) * (amount as int) * (
                amount as int)) by (nonlinear_arith)
                    requires
                        row as int <= (amount as int) * (image_height as int) - 1,
                        col as int <= (amount as int) * (image_width as int) - 1,
                        0 <= row as int,
                        0 <= col as int,
                        1 <= amount as int,
                        1 <= image_width as int,
                        1 <= image_height as int,
                ;
                assert(row as int <= 0x3FFF && col as int <= 0x3FFF && (amount as int) * (
                image_width as int) <= 0x4000) by (nonlinear_arith)
                    requires
                        row as int <= (amount as int) * (image_height as int) - 1,
                        col as int <= (amount as int) * (image_width as int) - 1,
                        (image_height as int) * (amount as int) <= 0x4000,
                        (image_width as int) * (amount as int) <= 0x4000,
                ;
                vstd::arithmetic::mul::lemma_mul_upper_bound(
                    row as int,
                    0x3FFF,
                    (amount as int) * (image_width as int),
                    0x4000,
                );
                vstd::arithmetic::mul::lemma_mul_nonnegative(
                    row as int,
                    (amount as int) * (image_width as int),
                );
            }
            let idx: usize = (row * ((amount as u64) * (image_width as u64)) + col) as usize;
            proof {
                assert(row as int == (amount as int) * ((k as int) / (image_width as int)) + (
                l as int) / (amount as int));
                assert(col as int == (amount as int) * ((k as int) % (image_width as int)) + (
                l as int) % (amount as int));
                assert(idx as int == (row as int) * ((amount as int) * (image_width as int)) + (
                col as int));
                assert(idx as int == sp_block_index(
                    amount as int,
                    image_width as int,
                    k as int,
                    l as int,
                ));
                assert(sview[idx as int] == samples@[idx as int]@);
            }
            let s: &Color = &samples[idx];
            let red: i64 = s.red();
            let green: i64 = s.green();
            let blue: i64 = s.blue();
            sr = sr + (red as u64);
            sg = sg + (green as u64);
            sb = sb + (blue as u64);
            l = l + 1;
        }
        let pr: u64 = sr / spp;
        let pg: u64 = sg / spp;
        let pb: u64 = sb / spp;
        proof {
            vstd::arithmetic::div_mod::lemma_div_is_ordered(sr as int, spp * 65536, spp as int);
            vstd::arithmetic::div_mod::lemma_div_is_ordered(sg as int, spp * 65536, spp as int);
            vstd::arithmetic::div_mod::lemma_div_is_ordered(sb as int, spp * 65536, spp as int);
            vstd::arithmetic::div_mod::lemma_div_by_multiple(65536, spp as int);
            vstd::arithmetic::div_mod::lemma_div_pos_is_pos(sr as int, spp as int);
            vstd::arithmetic::div_mod::lemma_div_pos_is_pos(sg as int, spp as int);
            vstd::arithmetic::div_mod::lemma_div_pos_is_pos(sb as int, spp as int);
        }
        let pixel: Color = Color::new(pr as i64, pg as i64, pb as i64);
        out.push(pixel);
        k = k + 1;
    }
    out
}

/// The flattened row-major byte buffer of a pixel row: three 8-bit channel
/// values per pixel, in red, green, blue order, no padding.
pub fn image_buffer(pixels: &Vec<Color>) -> (r: Vec<u8>)
    requires
        pixels@.len() <= 0x1000_0000,
    ensures
        r@.len() == 3 * pixels@.len(),
        forall|k: int|
            0 <= k < pixels@.len() ==> r@[3 * k] == crate::lighting::channel_byte(
                #[trigger] pixels@[k]@.red,
            ),
        forall|k: int|
            0 <= k < pixels@.len() ==> r@[3 * k + 1] == crate::lighting::channel_byte(
                #[trigger] pixels@[k]@.green,
            ),
        forall|k: int|
            0 <= k < pixels@.len() ==> r@[3 * k + 2] == crate::lighting::channel_byte(
                #[trigger] pixels@[k]@.blue,
            ),
{
    let mut buffer: Vec<u8> = Vec::new();
    let mut i: usize = 0;
    while i < pixels.len()
        invariant
            pixels@.len() <= 0x1000_0000,
            i <= pixels@.len(),
            buffer@.len() == 3 * i,
            forall|k: int|
                0 <= k < i ==> buffer@[3 * k] == crate::lighting::channel_byte(
                    #[trigger] pixels@[k]@.red,
                ),
            forall|k: int|
                0 <= k < i ==> buffer@[3 * k + 1] == crate::lighting::channel_byte(
                    #[trigger] pixels@[k]@.green,
                ),
            forall|k: int|
                0 <= k < i ==> buffer@[3 * k + 2] == crate::lighting::channel_byte(
                    #[trigger] pixels@[k]@.blue,
                ),
        decreases pixels@.len() - i,
    {
        let bytes: [u8; 3] = pixels[i].as_8_bit_array();
        let ghost before: Seq<u8> = buffer@;
        buffer.push(bytes[0]);
        buffer.push(bytes[1]);
        buffer.push(bytes[2]);
        proof {
            assert(buffer@[3 * (i as int)] == bytes[0]);
            assert(buffer@[3 * (i as int) + 1] == bytes[1]);
            assert(buffer@[3 * (i as int) + 2] == bytes[2]);
            assert forall|k: int| 0 <= k < i + 1 implies buffer@[3 * k]
                == crate::lighting::channel_byte(#[trigger] pixels@[k]@.red) && buffer@[3 * k + 1]
                == crate::lighting::channel_byte(pixels@[k]@.green) && buffer@[3 * k + 2]
                == crate::lighting::channel_byte(pixels@[k]@.blue) by {
                if k < i {
                    assert(0 <= 3 * k && 3 * k + 2 < before.len());
                    assert(buffer@[3 * k] == before[3 * k]);
                    assert(buffer@[3 * k + 1] == before[3 * k + 1]);
                    assert(buffer@[3 * k + 2] == before[3 * k + 2]);
                }
            }
        }
        i = i + 1;
    }
    buffer
}

/// Renders the scene: one ray per virtual sample over a grid of
/// `width * anti_aliasing` by `height * anti_aliasing`, each resolved and
/// shaded, then downsampled to the output size by exact block averaging.
/// The result is the row-major pixel buffer.
pub fn render(
    objects: &Vec<Object>,
    lights: &Vec<Light>,
    camera: &Camera,
    image_width: u32,
    image_height: u32,
    anti_aliasing: u32,
    mode: ShadingMode,
) -> (r: Vec<Color>)
    requires
        wf_objects(objects@),
        wf_lights(lights@),
        wf_camera(*camera),
        1 <= image_width,
        1 <= image_height,
        1 <= anti_aliasing,
        image_width * anti_aliasing <= 0x4000,
        image_height * anti_aliasing <= 0x4000,
    ensures
        r@.len() == image_width * image_height,
        forall|k: int|
            0 <= k < r@.len() ==> #[trigger] r@[k]@ == sp_pixel(
                Seq::new(
                    ((image_width * anti_aliasing) * (image_height * anti_aliasing)) as nat,
                    |s: int|
                        sp_sample_color(
                            sp_entries_of(objects@),
                            lights@,
                            *camera,
                            (image_width * anti_aliasing) as int,
                            (image_height * anti_aliasing) as int,
                            s,
                            mode,
                        ),
                ),
                anti_aliasing as int,
                image_width as int,
                k,
            ),
{
    let mut entries: Vec<(Geometry, Material)> = Vec::new();
    let mut oi: usize = 0;
    proof {
        assert(objects@.subrange(0, 0) =~= Seq::<Object>::empty());
    }
    while oi < objects.len()
        invariant
            wf_objects(objects@),
            oi <= objects@.len(),
            entries@ == sp_entries_of(objects@.subrange(0, oi as int)),
            wf_entries(entries@),
        decreases objects@.len() - oi,
    {
        let object: &Object = &objects[oi];
        let mut chunk: Vec<(Geometry, Material)> = object.iter();
        let ghost chunk0: Seq<(Geometry, Material)> = chunk@;
        let ghost before: Seq<(Geometry, Material)> = entries@;
        entries.append(&mut chunk);
        proof {
            assert(objects@.subrange(0, oi + 1).drop_last() =~= objects@.subrange(0, oi as int));
            assert(objects@.subrange(0, oi + 1).last() == objects@[oi as int]);
            assert(chunk0 =~= Seq::new(
                objects@[oi as int].mesh@.len(),
                |i: int| (objects@[oi as int].mesh@[i], objects@[oi as int].material),
            ));
            assert(entries@ == sp_entries_of(objects@.subrange(0, oi + 1)));
            assert forall|j: int|
                0 <= j < entries@.len() implies wf_geometry((#[trigger] entries@[j]).0)
                && wf_material(entries@[j].1) by {
                if j < before.len() {
                    assert(entries@[j] == before[j]);
                } else {
                    assert(entries@[j] == chunk0[j - before.len()]);
                    assert(wf_object(objects@[oi as int]));
                }
            }
        }
        oi = oi + 1;
    }
    proof {
        assert(objects@.subrange(0, objects@.len() as int) =~= objects@);
    }
    let sw: u32 = image_width * anti_aliasing;
    let sh: u32 = image_height * anti_aliasing;
    proof {
        assert(1 <= (image_width as int) * (anti_aliasing as int) && 1 <= (image_height as int)
            * (anti_aliasing as int)) by (nonlinear_arith)
            requires
                1 <= image_width as int,
                1 <= image_height as int,
                1 <= anti_aliasing as int,
        ;
        vstd::arithmetic::mul::lemma_mul_upper_bound(sw as int, 0x4000, sh as int, 0x4000);
        vstd::arithmetic::mul::lemma_mul_nonnegative(sw as int, sh as int);
    }
    let num_samples: usize = (sw as usize) * (sh as usize);
    let fph: i64 = camera.focal_plane_height();
    let ss: i64 = crate::fixed::fp_div_int(fph, sh as i64);
    let mut samples: Vec<Color> = Vec::new();
    let mut k: usize = 0;
    while k < num_samples
        invariant
            wf_entries(entries@),
            wf_lights(lights@),
            wf_camera(*camera),
            entries@ == sp_entries_of(objects@),
            1 <= sw,
            1 <= sh,
            sw <= 0x4000,
            sh <= 0x4000,
            sw == image_width * anti_aliasing,
            sh == image_height * anti_aliasing,
            num_samples == sw * sh,
            fph as int == fmul(camera.tan_half_fov as int, 2 * camera.focal_length),
            0 <= fph <= 0x1_0000_0000,
            ss as int == crate::fixed::div_trunc(fph as int, sh as int),
            sabs(ss as int) <= 0x1_0000_0000,
            samples@.len() == k,
            k <= num_samples,
            forall|s: int|
                0 <= s < k ==> #[trigger] samples@[s]@ == sp_sample_color(
                    entries@,
                    lights@,
                    *camera,
                    sw as int,
                    sh as int,
                    s,
                    mode,
                ),
        decreases num_samples - k,
    {
        proof {
            vstd::arithmetic::div_mod::lemma_multiply_divide_lt(k as int, sw as int, sh as int);
            vstd::arithmetic::div_mod::lemma_mod_bound(k as int, sw as int);
        }
        let i0: u64 = (k as u64) / (sw as u64);
        let j0: u64 = (k as u64) % (sw as u64);
        let jj: i64 = 2 * (j0 as i64) - (sw as i64 - 1);
        let ii: i64 = 2 * (i0 as i64) - (sh as i64 - 1);
        proof {
            lemma_mul_abs_bound(jj as int, ss as int, 0x8000, 0x1_0000_0000);
            lemma_mul_abs_bound(ii as int, ss as int, 0x8000, 0x1_0000_0000);
        }
        let px: i64 = crate::fixed::fp_div_int(jj * ss, 2);
        let py: i64 = -crate::fixed::fp_div_int(ii * ss, 2);
        let dir: crate::vector::Vector3 = crate::vector::Vector3::new(
            px,
            py,
            -camera.focal_length,
        );
        let ray: Ray = Ray::new(camera.origin, dir);
        proof {
            assert(dir@ == sp_sample_dir(*camera, sw as int, sh as int, k as int));
            assert(ray == sp_sample_ray(*camera, sw as int, sh as int, k as int));
        }
        let c: Color = ray.color(&entries, lights, mode);
        samples.push(c);
        k = k + 1;
    }
    proof {
        assert((sw as int) * (sh as int) == (image_width as int) * (image_height as int) * (
        anti_aliasing as int) * (anti_aliasing as int)) by (nonlinear_arith)
            requires
                sw as int == (image_width as int) * (anti_aliasing as int),
                sh as int == (image_height as int) * (anti_aliasing as int),
        ;
    }
    let pixels: Vec<Color> = downsample(&samples, anti_aliasing, image_width, image_height);
    proof {
        assert(sp_color_views(samples@) =~= Seq::new(
            (sw * sh) as nat,
            |s: int|
                sp_sample_color(
                    sp_entries_of(objects@),
                    lights@,
                    *camera,
                    sw as int,
                    sh as int,
                    s,
                    mode,
                ),
        ));
    }
    pixels
}

} // verus!
