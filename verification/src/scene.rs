//! The scene: models, lights, and the recursive reflective trace.

use crate::fixed::{fdiv, fmul, lemma_abs_mul_le, lemma_tdiv_bound, lemma_tdiv_signs, tdiv, ONE};
use crate::geometry::{geom_hit, geom_wf, GeomV, Geometry};
use crate::intersection::{Intersection, IntersectionV};
use crate::ray::{
    mk_ray, ray_contains, ray_wf, Ray, RayV, COORD_MAX, ORIGIN_MAX, T_LIMIT,
};
use crate::vec3::{
    bounded, dot_v, is_zero, len_v, lemma_dot_ok, neg_v, scale_v, sub_v, unit_v, V3, Vec3,
};
use vstd::prelude::*;

verus! {

/// The smallest representable positive step: excludes a secondary ray's
/// own origin, so a hit surface does not shadow or reflect itself.
pub const T_EPS: i128 = 1;

/// Bound on a light's intensity.
pub const INTENSITY_MAX: i128 = 0x100000000;

/// Bound on the number of lights a scene may carry.
pub const LIGHTS_MAX: usize = 0x10000;

/// An RGB color with 8-bit channels.
#[derive(Copy, Clone, Debug, PartialEq, Eq, Structural)]
pub struct Rgb {
    pub r: u8,
    pub g: u8,
    pub b: u8,
}

impl Rgb {
    pub fn new(r: u8, g: u8, b: u8) -> (c: Rgb)
        ensures
            c == (Rgb { r, g, b }),
    {
        Rgb { r, g, b }
    }
}

/// Ghost image of a material.
pub struct MaterialV {
    pub color: Rgb,
    pub reflective: int,
}

/// A surface color and a reflectivity coefficient in `[0, ONE]`.
#[derive(Copy, Clone, Debug, PartialEq, Eq, Structural)]
pub struct Material {
    pub color: Rgb,
    pub reflective: i128,
}

impl View for Material {
    type V = MaterialV;

    open spec fn view(&self) -> MaterialV {
        MaterialV { color: self.color, reflective: self.reflective as int }
    }
}

pub open spec fn material_wf(m: MaterialV) -> bool {
    0 <= m.reflective <= ONE
}

/// Ghost image of a point light.
pub struct LightV {
    pub intensity: int,
    pub position: V3,
}

/// A point light: an intensity and a world position.
#[derive(Copy, Clone, Debug, PartialEq, Eq, Structural)]
pub struct PointLight {
    pub intensity: i128,
    pub position: Vec3,
}

impl View for PointLight {
    type V = LightV;

    open spec fn view(&self) -> LightV {
        LightV { intensity: self.intensity as int, position: self.position@ }
    }
}

pub open spec fn light_wf(l: LightV) -> bool {
    0 <= l.intensity <= INTENSITY_MAX && bounded(l.position, COORD_MAX as int)
}

/// Ghost image of a model.
pub struct ModelV {
    pub geometry: GeomV,
    pub material: MaterialV,
}

/// One scene object: a primitive paired with its material.
#[derive(Clone, Debug)]
pub struct Model {
    pub geometry: Geometry,
    pub material: Material,
}

impl View for Model {
    type V = ModelV;

    open spec fn view(&self) -> ModelV {
        ModelV { geometry: self.geometry@, material: self.material@ }
    }
}

pub open spec fn model_wf(m: ModelV) -> bool {
    geom_wf(m.geometry) && material_wf(m.material)
}

/// Ghost image of a scene.
pub struct SceneV {
    pub objects: Seq<ModelV>,
    pub lights: Seq<LightV>,
    pub depth: int,
    pub background: Rgb,
}

/// The scene: models, lights, a recursion-depth limit for reflection,
/// and a background color.  Built once, then read-only while tracing.
#[derive(Clone, Debug)]
pub struct Scene {
    pub objects: Vec<Model>,
    pub lights: Vec<PointLight>,
    pub depth: u16,
    pub background: Rgb,
}

impl View for Scene {
    type V = SceneV;

    open spec fn view(&self) -> SceneV {
        SceneV {
            objects: self.objects@.map_values(|m: Model| m@),
            lights: self.lights@.map_values(|l: PointLight| l@),
            depth: self.depth as int,
            background: self.background,
        }
    }
}

pub open spec fn scene_wf(s: SceneV) -> bool {
    &&& forall|i: int| 0 <= i < s.objects.len() ==> model_wf(#[trigger] s.objects[i])
    &&& forall|i: int| 0 <= i < s.lights.len() ==> light_wf(#[trigger] s.lights[i])
    &&& s.lights.len() <= LIGHTS_MAX
}

/// The closest hit among the first `n` models: index and hit record,
/// first-encountered winning ties.
pub open spec fn closest_upto(objs: Seq<ModelV>, r: RayV, n: int) -> Option<(int, IntersectionV)>
    decreases n,
{
    if n <= 0 {
        None
    } else {
        let prev: Option<(int, IntersectionV)> = closest_upto(objs, r, n - 1);
        match geom_hit(objs[n - 1].geometry, r) {
            Some(c) => match prev {
                Some(pi) => if c.t < pi.1.t && ray_contains(r, c.t) {
                    Some((n - 1, c))
                } else {
                    prev
                },
                None => if ray_contains(r, c.t) {
                    Some((n - 1, c))
                } else {
                    prev
                },
            },
            None => prev,
        }
    }
}

/// The closest hit over the whole scene.
pub open spec fn closest_hit(s: SceneV, r: RayV) -> Option<(int, IntersectionV)> {
    closest_upto(s.objects, r, s.objects.len() as int)
}

/// Relates the executable closest-hit result to its ghost image.
pub open spec fn closest_view(o: Option<(usize, Intersection)>) -> Option<(int, IntersectionV)> {
    match o {
        Some((i, h)) => Some((i as int, h@)),
        None => None,
    }
}

/// What the closest-hit fold returns: the hit of the model it names, no
/// other model hits strictly closer, and earlier models do not even tie.
pub proof fn lemma_closest_upto_characterization(objs: Seq<ModelV>, r: RayV, n: int)
    requires
        n <= objs.len(),
    ensures
        match closest_upto(objs, r, n) {
            Some((i, h)) => {
                &&& 0 <= i < n
                &&& geom_hit(objs[i].geometry, r) == Some(h)
                &&& ray_contains(r, h.t)
                &&& forall|j: int|
                    0 <= j < n ==> match #[trigger] geom_hit(objs[j].geometry, r) {
                        Some(hj) => hj.t >= h.t && (j < i ==> hj.t > h.t),
                        None => true,
                    }
            },
            None => forall|j: int| 0 <= j < n ==> #[trigger] geom_hit(objs[j].geometry, r) is None,
        },
    decreases n,
{
    if n > 0 {
        lemma_closest_upto_characterization(objs, r, n - 1);
        crate::geometry::lemma_geom_hit_contained(objs[n - 1].geometry, r);
        let prev: Option<(int, IntersectionV)> = closest_upto(objs, r, n - 1);
        let cur: Option<IntersectionV> = geom_hit(objs[n - 1].geometry, r);
        match closest_upto(objs, r, n) {
            Some((i, h)) => {
                assert forall|j: int| 0 <= j < n implies match #[trigger] geom_hit(
                    objs[j].geometry,
                    r,
                ) {
                    Some(hj) => hj.t >= h.t && (j < i ==> hj.t > h.t),
                    None => true,
                } by {
                    if j < n - 1 {
                        // Covered by the induction hypothesis, possibly
                        // through the kept previous best.
                    }
                }
            },
            None => {},
        }
    }
}

/// Saturation bound for accumulated light: far beyond the intensity that
/// turns every channel white, so the cap is invisible in any rendered
/// color, but it keeps the running sum representable.
pub const LIGHT_CAP: i128 = 0x10000000000000000000000000000;

/// The Lambertian contribution of one light at a hit:
/// `intensity * max(0, N.L) / (|N| * |L|)`, and zero when a denominator
/// degenerates to zero.
pub open spec fn light_intensity_v(l: LightV, h: IntersectionV) -> int {
    let lv: V3 = sub_v(l.position, h.point);
    let r: int = dot_v(h.normal, lv);
    if r > 0 {
        let den: int = fmul(len_v(h.normal), len_v(lv));
        if den == 0 {
            0
        } else {
            fdiv(fmul(l.intensity, r), den)
        }
    } else {
        0
    }
}

/// The contribution of one light, after the shadow test: a light whose
/// shadow ray hits anything is fully occluded, with no distance check
/// against the light itself.  A light exactly at the hit point, or a hit
/// point too far out to anchor a shadow ray, contributes nothing.
pub open spec fn light_term(objs: Seq<ModelV>, l: LightV, h: IntersectionV) -> int {
    let dir: V3 = sub_v(l.position, h.point);
    if is_zero(dir) || !bounded(h.point, ORIGIN_MAX as int) {
        0
    } else {
        let sray: RayV = mk_ray(h.point, dir, T_EPS as int, T_LIMIT as int);
        if closest_upto(objs, sray, objs.len() as int) is Some {
            0
        } else {
            light_intensity_v(l, h)
        }
    }
}

/// Light accumulated over the first `n` lights, saturating at
/// `LIGHT_CAP`.
pub open spec fn lightning_upto(objs: Seq<ModelV>, lights: Seq<LightV>, h: IntersectionV, n: int)
    -> int
    decreases n,
{
    if n <= 0 {
        0
    } else {
        let sum: int = lightning_upto(objs, lights, h, n - 1) + light_term(objs, lights[n - 1], h);
        if sum > LIGHT_CAP {
            LIGHT_CAP as int
        } else {
            sum
        }
    }
}

/// Total light reaching a hit from all unoccluded lights.
pub open spec fn lightning_v(s: SceneV, h: IntersectionV) -> int {
    lightning_upto(s.objects, s.lights, h, s.lights.len() as int)
}

/// One light contributes a nonnegative, bounded amount.
proof fn lemma_light_term_bounds(objs: Seq<ModelV>, l: LightV, h: IntersectionV)
    requires
        light_wf(l),
        bounded(h.point, 0x80000000000),
        bounded(h.normal, COORD_MAX as int),
    ensures
        0 <= light_term(objs, l, h),
        light_term(objs, l, h) <= 0x100000000000000000000000000000,
        0 <= light_intensity_v(l, h) <= 0x100000000000000000000000000000,
{
    let lv: V3 = sub_v(l.position, h.point);
    let r: int = dot_v(h.normal, lv);
    lemma_dot_ok(h.normal, lv, COORD_MAX as int, 0x100000000000);
    crate::fixed::lemma_tdiv_quot_le(
        crate::vec3::dot_raw(h.normal, lv),
        ONE as int,
        0x100000000000000000,
    );
    if r > 0 {
        let den: int = fmul(len_v(h.normal), len_v(lv));
        if den != 0 {
            lemma_abs_mul_le(l.intensity, r, INTENSITY_MAX as int, 0x100000000000000000);
            crate::fixed::lemma_tdiv_quot_le(
                l.intensity * r,
                ONE as int,
                0x1000000000000000000000,
            );
            let num: int = fmul(l.intensity, r);
            assert(num >= 0) by {
                assert(l.intensity * r >= 0) by (nonlinear_arith)
                    requires
                        l.intensity >= 0 && r > 0,
                ;
                lemma_tdiv_signs(l.intensity * r, ONE as int);
            }
            lemma_abs_mul_le(num, ONE as int, 0x1000000000000000000000, ONE as int);
            crate::fixed::lemma_tdiv_bound(num * (ONE as int), den);
            assert(fdiv(num, den) >= 0) by {
                assert(num * (ONE as int) >= 0) by (nonlinear_arith)
                    requires
                        num >= 0,
                ;
                lemma_tdiv_signs(num * (ONE as int), den);
                lemma_len_nonneg(h.normal);
                lemma_len_nonneg(lv);
                assert(len_v(h.normal) * len_v(lv) >= 0) by (nonlinear_arith)
                    requires
                        len_v(h.normal) >= 0 && len_v(lv) >= 0,
                ;
                lemma_tdiv_signs(len_v(h.normal) * len_v(lv), ONE as int);
            }
        }
    }
}

/// Lengths are integer square roots, hence nonnegative.
proof fn lemma_len_nonneg(a: V3)
    ensures
        len_v(a) >= 0,
{
    crate::vec3::lemma_dot_self_nonneg(a);
    crate::fixed::lemma_isqrt_exists(crate::vec3::dot_raw(a, a));
}

/// Accumulated light stays within `[0, LIGHT_CAP]`.
proof fn lemma_lightning_upto_bounds(
    objs: Seq<ModelV>,
    lights: Seq<LightV>,
    h: IntersectionV,
    n: int,
)
    requires
        n <= lights.len(),
        forall|i: int| 0 <= i < lights.len() ==> light_wf(#[trigger] lights[i]),
        bounded(h.point, 0x80000000000),
        bounded(h.normal, COORD_MAX as int),
    ensures
        0 <= lightning_upto(objs, lights, h, n) <= LIGHT_CAP,
    decreases n,
{
    if n > 0 {
        lemma_lightning_upto_bounds(objs, lights, h, n - 1);
        lemma_light_term_bounds(objs, lights[n - 1], h);
    }
}

/// The color channel produced by direct light: scaled by the intensity
/// and clamped at full brightness.
pub open spec fn shade_channel(c: int, inten: int) -> int {
    let v: int = tdiv(c * inten, ONE as int);
    if v > 255 {
        255
    } else {
        v
    }
}

pub open spec fn shade_v(c: Rgb, inten: int) -> Rgb {
    Rgb {
        r: shade_channel(c.r as int, inten) as u8,
        g: shade_channel(c.g as int, inten) as u8,
        b: shade_channel(c.b as int, inten) as u8,
    }
}

/// One blended channel: the local part weighted by `ONE - reflective`,
/// the reflected part by `reflective`, each truncated.
pub open spec fn blend_channel(local: int, refl_c: int, reflective: int) -> int {
    tdiv(local * ((ONE as int) - reflective), ONE as int) + tdiv(
        refl_c * reflective,
        ONE as int,
    )
}

pub open spec fn blend_v(local: Rgb, refl_color: Rgb, reflective: int) -> Rgb {
    Rgb {
        r: blend_channel(local.r as int, refl_color.r as int, reflective) as u8,
        g: blend_channel(local.g as int, refl_color.g as int, reflective) as u8,
        b: blend_channel(local.b as int, refl_color.b as int, reflective) as u8,
    }
}

/// A blended channel of two 8-bit channels stays within 8 bits.
proof fn lemma_blend_channel(local: int, refl_c: int, reflective: int)
    requires
        0 <= local <= 255,
        0 <= refl_c <= 255,
        0 <= reflective <= ONE,
    ensures
        0 <= blend_channel(local, refl_c, reflective) <= 255,
        0 <= tdiv(local * ((ONE as int) - reflective), ONE as int) <= 255,
        0 <= tdiv(refl_c * reflective, ONE as int) <= 255,
{
    let w: int = (ONE as int) - reflective;
    assert(0 <= local * w <= 255 * w) by (nonlinear_arith)
        requires
            0 <= local <= 255 && w >= 0,
    ;
    assert(0 <= refl_c * reflective <= 255 * reflective) by (nonlinear_arith)
        requires
            0 <= refl_c <= 255 && reflective >= 0,
    ;
    let cr: int = tdiv(local * w, ONE as int);
    let cl: int = tdiv(refl_c * reflective, ONE as int);
    lemma_tdiv_signs(local * w, ONE as int);
    lemma_tdiv_signs(refl_c * reflective, ONE as int);
    crate::fixed::lemma_trem_nonneg(local * w, ONE as int);
    crate::fixed::lemma_trem_nonneg(refl_c * reflective, ONE as int);
    assert(cr * (ONE as int) + cl * (ONE as int) <= 255 * w + 255 * reflective);
}

/// The color seen along a ray, up to `depth` reflective bounces: the
/// background when nothing is hit; otherwise the lit local color,
/// blended with the recursively traced reflection when the material
/// reflects and the depth allows.
pub open spec fn trace_v(s: SceneV, r: RayV, depth: nat) -> Rgb
    decreases depth,
{
    match closest_hit(s, r) {
        None => s.background,
        Some((idx, h)) => {
            let inten: int = lightning_v(s, h);
            let color: Rgb = shade_v(s.objects[idx].material.color, inten);
            let reflective: int = s.objects[idx].material.reflective;
            if depth <= 0 || reflective <= 0 {
                color
            } else if is_zero(h.normal) || !bounded(h.point, ORIGIN_MAX as int) {
                color
            } else {
                let n: V3 = unit_v(h.normal);
                let d: V3 = neg_v(r.direction);
                let rdir: V3 = sub_v(scale_v(n, 2 * dot_v(n, d)), d);
                if is_zero(rdir) {
                    color
                } else {
                    let rray: RayV = mk_ray(h.point, rdir, T_EPS as int, T_LIMIT as int);
                    let rc: Rgb = trace_v(s, rray, (depth - 1) as nat);
                    blend_v(color, rc, reflective)
                }
            }
        },
    }
}

/// Scales each channel by the intensity, clamped at white.
fn shade(c: Rgb, inten: i128) -> (r: Rgb)
    requires
        0 <= inten <= LIGHT_CAP,
    ensures
        r == shade_v(c, inten as int),
{
    proof {
        lemma_shade_channel(c.r as int, inten as int);
        lemma_shade_channel(c.g as int, inten as int);
        lemma_shade_channel(c.b as int, inten as int);
    }
    let r: i128 = crate::fixed::div_t(crate::fixed::mul_i(c.r as i128, inten), ONE);
    let g: i128 = crate::fixed::div_t(crate::fixed::mul_i(c.g as i128, inten), ONE);
    let b: i128 = crate::fixed::div_t(crate::fixed::mul_i(c.b as i128, inten), ONE);
    Rgb {
        r: if r > 255 {
            255
        } else {
            r as u8
        },
        g: if g > 255 {
            255
        } else {
            g as u8
        },
        b: if b > 255 {
            255
        } else {
            b as u8
        },
    }
}

/// A shaded channel is nonnegative and its product fits.
proof fn lemma_shade_channel(c: int, inten: int)
    requires
        0 <= c <= 255,
        0 <= inten <= LIGHT_CAP,
    ensures
        0 <= c * inten <= 0x40000000000000000000000000000000,
        0 <= shade_channel(c, inten) <= 255,
{
    assert(0 <= c * inten <= 255 * (LIGHT_CAP as int)) by (nonlinear_arith)
        requires
            0 <= c <= 255 && 0 <= inten <= LIGHT_CAP,
    ;
    lemma_tdiv_signs(c * inten, ONE as int);
}

/// Blends the local and reflected colors by the reflectivity.
fn blend(local: Rgb, refl_color: Rgb, reflective: i128) -> (r: Rgb)
    requires
        0 <= reflective <= ONE,
    ensures
        r == blend_v(local, refl_color, reflective as int),
{
    proof {
        lemma_blend_channel(local.r as int, refl_color.r as int, reflective as int);
        lemma_blend_channel(local.g as int, refl_color.g as int, reflective as int);
        lemma_blend_channel(local.b as int, refl_color.b as int, reflective as int);
    }
    let w: i128 = ONE - reflective;
    let cr_r: i128 = crate::fixed::div_t(crate::fixed::mul_i(local.r as i128, w), ONE);
    let cl_r: i128 = crate::fixed::div_t(crate::fixed::mul_i(refl_color.r as i128, reflective), ONE);
    let cr_g: i128 = crate::fixed::div_t(crate::fixed::mul_i(local.g as i128, w), ONE);
    let cl_g: i128 = crate::fixed::div_t(crate::fixed::mul_i(refl_color.g as i128, reflective), ONE);
    let cr_b: i128 = crate::fixed::div_t(crate::fixed::mul_i(local.b as i128, w), ONE);
    let cl_b: i128 = crate::fixed::div_t(crate::fixed::mul_i(refl_color.b as i128, reflective), ONE);
    Rgb { r: (cr_r + cl_r) as u8, g: (cr_g + cl_g) as u8, b: (cr_b + cl_b) as u8 }
}

impl PointLight {
    pub fn pos(&self) -> (r: Vec3)
        ensures
            r@ == self@.position,
    {
        self.position
    }

    /// The Lambertian contribution of this light at a hit.
    pub fn intensity(&self, intersection: &Intersection) -> (r: i128)
        requires
            light_wf(self@),
            bounded(intersection@.point, 0x80000000000),
            bounded(intersection@.normal, COORD_MAX as int),
        ensures
            r == light_intensity_v(self@, intersection@),
            0 <= r <= 0x100000000000000000000000000000,
    {
        proof {
            lemma_light_term_bounds(Seq::empty(), self@, intersection@);
        }
        let l: Vec3 = self.position.sub(&intersection.point);
        proof {
            lemma_dot_ok(intersection@.normal, l@, COORD_MAX as int, 0x100000000000);
            crate::fixed::lemma_tdiv_quot_le(
                crate::vec3::dot_raw(intersection@.normal, l@),
                ONE as int,
                0x100000000000000000,
            );
            lemma_dot_ok(intersection@.normal, intersection@.normal, COORD_MAX as int,
                COORD_MAX as int);
            lemma_dot_ok(l@, l@, 0x100000000000, 0x100000000000);
        }
        let r: i128 = intersection.normal.dot(&l);
        if r > 0 {
            let ln: i128 = intersection.normal.len();
            let ll: i128 = l.len();
            proof {
                assert(ln <= 0x10000000000) by (nonlinear_arith)
                    requires
                        0 <= ln,
                        (ln as int) * (ln as int) <= crate::vec3::dot_raw(
                            intersection@.normal,
                            intersection@.normal,
                        ),
                        crate::vec3::dot_raw(intersection@.normal, intersection@.normal)
                            < 0x100000000000000000000,
                ;
                assert(ll <= 0x1000000000000) by (nonlinear_arith)
                    requires
                        0 <= ll,
                        (ll as int) * (ll as int) <= crate::vec3::dot_raw(l@, l@),
                        crate::vec3::dot_raw(l@, l@) < 0x1000000000000000000000000,
                ;
                lemma_abs_mul_le(ln as int, ll as int, 0x10000000000, 0x1000000000000);
                lemma_abs_mul_le(self@.intensity, r as int, INTENSITY_MAX as int,
                    0x100000000000000000);
                crate::fixed::lemma_tdiv_quot_le(
                    self@.intensity * r,
                    ONE as int,
                    0x1000000000000000000000,
                );
            }
            let den: i128 = crate::fixed::mul_fx(ln, ll);
            if den == 0 {
                0
            } else {
                let num: i128 = crate::fixed::mul_fx(self.intensity, r);
                proof {
                    lemma_abs_mul_le(num as int, ONE as int, 0x1000000000000000000000, ONE as int);
                }
                crate::fixed::div_fx(num, den)
            }
        } else {
            0
        }
    }
}

impl Scene {
    /// An empty scene over a background color, with the default
    /// reflection depth.
    pub fn new(background: Rgb) -> (s: Scene)
        ensures
            s@.objects.len() == 0,
            s@.lights.len() == 0,
            s@.depth == 2,
            s@.background == background,
            scene_wf(s@),
    {
        Scene { lights: Vec::new(), objects: Vec::new(), depth: 2, background }
    }

    /// Scans all models linearly and keeps the hit with the smallest
    /// `t`; the first-encountered model wins exact ties.
    pub fn closest_intersection(&self, ray: &Ray) -> (r: Option<(usize, Intersection)>)
        requires
            scene_wf(self@),
            ray_wf(ray@),
        ensures
            closest_view(r) == closest_hit(self@, ray@),
            // The returned hit belongs to the model it names, and no
            // model hits strictly closer; among exact ties the
            // first-encountered model wins.
            r matches Some((i, h)) ==> {
                &&& (i as int) < self@.objects.len()
                &&& geom_hit(self@.objects[i as int].geometry, ray@) == Some(h@)
                &&& ray_contains(ray@, h@.t)
                &&& forall|j: int|
                    0 <= j < self@.objects.len() ==> match #[trigger] geom_hit(
                        self@.objects[j].geometry,
                        ray@,
                    ) {
                        Some(hj) => hj.t >= h@.t && (j < i as int ==> hj.t > h@.t),
                        None => true,
                    }
            },
            r is None ==> forall|j: int|
                0 <= j < self@.objects.len() ==> #[trigger] geom_hit(
                    self@.objects[j].geometry,
                    ray@,
                ) is None,
    {
        proof {
            lemma_closest_upto_characterization(self@.objects, ray@, self@.objects.len() as int);
        }
        let mut closest: Option<(usize, Intersection)> = None;
        let mut idx: usize = 0;
        while idx < self.objects.len()
            invariant
                idx <= self.objects.len(),
                self@.objects.len() == self.objects.len(),
                scene_wf(self@),
                ray_wf(ray@),
                closest_view(closest) == closest_upto(self@.objects, ray@, idx as int),
            decreases self.objects.len() - idx,
        {
            proof {
                assert(self@.objects[idx as int] == self.objects@[idx as int]@);
            }
            let model: &Model = &self.objects[idx];
            if let Some(intr) = model.geometry.intersection(ray) {
                let better: bool = match &closest {
                    Option::None => true,
                    Option::Some((_, c)) => intr.t < c.t,
                };
                if better && ray.contains(intr.t) {
                    closest = Some((idx, intr));
                }
            }
            idx = idx + 1;
        }
        closest
    }

    /// Accumulates the contribution of every light that is not occluded,
    /// casting one shadow ray per light.
    pub fn lightning(&self, intersection: &Intersection) -> (r: i128)
        requires
            scene_wf(self@),
            bounded(intersection@.point, 0x80000000000),
            bounded(intersection@.normal, COORD_MAX as int),
        ensures
            r == lightning_v(self@, intersection@),
            0 <= r <= LIGHT_CAP,
    {
        let mut intensity: i128 = 0;
        let mut idx: usize = 0;
        while idx < self.lights.len()
            invariant
                idx <= self.lights.len(),
                self@.lights.len() == self.lights.len(),
                scene_wf(self@),
                bounded(intersection@.point, 0x80000000000),
                bounded(intersection@.normal, COORD_MAX as int),
                intensity == lightning_upto(
                    self@.objects,
                    self@.lights,
                    intersection@,
                    idx as int,
                ),
                0 <= intensity <= LIGHT_CAP,
            decreases self.lights.len() - idx,
        {
            proof {
                assert(self@.lights[idx as int] == self.lights@[idx as int]@);
                lemma_light_term_bounds(self@.objects, self@.lights[idx as int], intersection@);
            }
            let light: PointLight = self.lights[idx];
            let direction: Vec3 = light.position.sub(&intersection.point);
            if (direction.x == 0 && direction.y == 0 && direction.z == 0) || !in_origin_range(
                &intersection.point,
            ) {
                // No shadow ray can be anchored here; the light adds
                // nothing.
            } else {
                let sray: Ray = Ray::new(intersection.point, direction, T_EPS, T_LIMIT);
                if self.closest_intersection(&sray).is_some() {
                    // The light is fully occluded.
                } else {
                    let contribution: i128 = light.intensity(intersection);
                    intensity = intensity + contribution;
                    if intensity > LIGHT_CAP {
                        intensity = LIGHT_CAP;
                    }
                }
            }
            idx = idx + 1;
        }
        intensity
    }

    /// The color seen along a ray, with reflection bounded by `depth`.
    pub fn trace_limited(&self, ray: &Ray, depth: u16) -> (c: Rgb)
        requires
            scene_wf(self@),
            ray_wf(ray@),
        ensures
            c == trace_v(self@, ray@, depth as nat),
        decreases depth,
    {
        match self.closest_intersection(ray) {
            None => self.background,
            Some((idx, intr)) => {
                proof {
                    lemma_closest_upto_characterization(
                        self@.objects,
                        ray@,
                        self@.objects.len() as int,
                    );
                    assert(self@.objects[idx as int] == self.objects@[idx as int]@);
                    crate::geometry::lemma_geom_hit_bounds(
                        self@.objects[idx as int].geometry,
                        ray@,
                    );
                }
                let inten: i128 = self.lightning(&intr);
                let reflective: i128 = self.objects[idx].material.reflective;
                let color: Rgb = shade(self.objects[idx].material.color, inten);
                if depth == 0 || reflective <= 0 {
                    return color;
                }
                if (intr.normal.x == 0 && intr.normal.y == 0 && intr.normal.z == 0)
                    || !in_origin_range(&intr.point) {
                    // No reflection ray can be built: keep the local
                    // color.
                    return color;
                }
                proof {
                    lemma_dot_ok(intr@.normal, intr@.normal, COORD_MAX as int, COORD_MAX as int);
                    lemma_abs_mul_le(intr@.normal.x, ONE as int, COORD_MAX as int, ONE as int);
                    lemma_abs_mul_le(intr@.normal.y, ONE as int, COORD_MAX as int, ONE as int);
                    lemma_abs_mul_le(intr@.normal.z, ONE as int, COORD_MAX as int, ONE as int);
                }
                let n: Vec3 = intr.normal.unit();
                let d: Vec3 = ray.direction().inverse();
                proof {
                    lemma_dot_ok(n@, d@, ONE as int, 0x40000);
                    crate::fixed::lemma_tdiv_quot_le(
                        crate::vec3::dot_raw(n@, d@),
                        ONE as int,
                        0x100000,
                    );
                }
                let k: i128 = 2 * n.dot(&d);
                proof {
                    lemma_abs_mul_le(n@.x, k as int, ONE as int, 0x200000);
                    lemma_abs_mul_le(n@.y, k as int, ONE as int, 0x200000);
                    lemma_abs_mul_le(n@.z, k as int, ONE as int, 0x200000);
                    crate::fixed::lemma_tdiv_bound(n@.x * k, ONE as int);
                    crate::fixed::lemma_tdiv_bound(n@.y * k, ONE as int);
                    crate::fixed::lemma_tdiv_bound(n@.z * k, ONE as int);
                }
                let direction: Vec3 = n.scale(k).sub(&d);
                if direction.x == 0 && direction.y == 0 && direction.z == 0 {
                    // A degenerate mirror direction: keep the local
                    // color.
                    return color;
                }
                let rray: Ray = Ray::new(intr.point, direction, T_EPS, T_LIMIT);
                let reflected: Rgb = self.trace_limited(&rray, depth - 1);
                blend(color, reflected, reflective)
            },
        }
    }

    /// The entry point of the tracer: one color per primary ray, with
    /// the scene's configured reflection depth.
    pub fn trace(&self, ray: &Ray) -> (c: Rgb)
        requires
            scene_wf(self@),
            ray_wf(ray@),
        ensures
            c == trace_v(self@, ray@, self@.depth as nat),
    {
        self.trace_limited(ray, self.depth)
    }

    /// Runtime check of `scene_wf`, for scenes assembled outside
    /// verified code.
    pub fn is_wf(&self) -> (b: bool)
        ensures
            b == scene_wf(self@),
    {
        if self.lights.len() > LIGHTS_MAX {
            return false;
        }
        let mut idx: usize = 0;
        while idx < self.objects.len()
            invariant
                idx <= self.objects.len(),
                self@.objects.len() == self.objects.len(),
                self@.lights.len() == self.lights.len(),
                forall|j: int| 0 <= j < idx ==> model_wf(#[trigger] self@.objects[j]),
            decreases self.objects.len() - idx,
        {
            proof {
                assert(self@.objects[idx as int] == self.objects@[idx as int]@);
            }
            let m: &Model = &self.objects[idx];
            if !m.geometry.is_wf() || m.material.reflective < 0 || m.material.reflective > ONE {
                return false;
            }
            idx = idx + 1;
        }
        let mut lix: usize = 0;
        while lix < self.lights.len()
            invariant
                lix <= self.lights.len(),
                self@.lights.len() == self.lights.len(),
                self@.objects.len() == self.objects.len(),
                forall|j: int| 0 <= j < self@.objects.len() ==> model_wf(#[trigger] self@.objects[j]),
                forall|j: int| 0 <= j < lix ==> light_wf(#[trigger] self@.lights[j]),
                self.lights.len() <= LIGHTS_MAX,
            decreases self.lights.len() - lix,
        {
            proof {
                assert(self@.lights[lix as int] == self.lights@[lix as int]@);
            }
            let l: &PointLight = &self.lights[lix];
            if l.intensity < 0 || l.intensity > INTENSITY_MAX || !in_coord_range_v(&l.position) {
                return false;
            }
            lix = lix + 1;
        }
        true
    }
}

/// A material that does not reflect makes the trace independent of the
/// depth limit: the reflection branch is never taken, so the lit local
/// color is returned whatever depth remains.
pub proof fn lemma_zero_reflectivity_ignores_depth(s: SceneV, r: RayV, d1: nat, d2: nat)
    requires
        closest_hit(s, r) matches Some((i, h)) ==> s.objects[i].material.reflective <= 0,
    ensures
        trace_v(s, r, d1) == trace_v(s, r, d2),
{
}

/// A scene with no models traces to exactly its background color, for
/// any ray and any depth.
pub proof fn lemma_empty_scene_background(s: SceneV, r: RayV, d: nat)
    requires
        s.objects.len() == 0,
    ensures
        trace_v(s, r, d) == s.background,
{
}

/// Over two models that both hit, the closest-hit query returns the one
/// with the strictly smaller parameter, never the farther one.
pub proof fn lemma_closest_prefers_nearer(
    s: SceneV,
    r: RayV,
    h0: IntersectionV,
    h1: IntersectionV,
)
    requires
        s.objects.len() == 2,
        geom_hit(s.objects[0].geometry, r) == Some(h0),
        geom_hit(s.objects[1].geometry, r) == Some(h1),
    ensures
        h0.t < h1.t ==> closest_hit(s, r) == Some((0int, h0)),
        h1.t < h0.t ==> closest_hit(s, r) == Some((1int, h1)),
{
    crate::geometry::lemma_geom_hit_contained(s.objects[0].geometry, r);
    crate::geometry::lemma_geom_hit_contained(s.objects[1].geometry, r);
    reveal_with_fuel(closest_upto, 3);
}

/// Runtime check that a point lies within the ray-origin bound.
fn in_origin_range(v: &Vec3) -> (b: bool)
    ensures
        b == bounded(v@, ORIGIN_MAX as int),
{
    v.x >= -ORIGIN_MAX && v.x <= ORIGIN_MAX && v.y >= -ORIGIN_MAX && v.y <= ORIGIN_MAX && v.z
        >= -ORIGIN_MAX && v.z <= ORIGIN_MAX
}

/// Runtime check that a point lies within the geometry bound.
fn in_coord_range_v(v: &Vec3) -> (b: bool)
    ensures
        b == bounded(v@, COORD_MAX as int),
{
    v.x >= -COORD_MAX && v.x <= COORD_MAX && v.y >= -COORD_MAX && v.y <= COORD_MAX && v.z
        >= -COORD_MAX && v.z <= COORD_MAX
}

} // verus!
