//! What holds of every material.
use crate::hit_record::{HitData, HitRecord};
use crate::material::dielectric::Dielectric;
use crate::material::{Diffuse, Lambertian, Material, Metal};
use crate::math::vector::{spec_cos_theta, spec_refract, spec_refract_perpendicular, V3};
use crate::sampling::Sample;
use crate::scalar::{is_isqrt, lemma_isqrt_unique, Real, ONE};
use crate::texture::{lemma_unit_color_product, Texture};
use vstd::prelude::*;

verus! {

/// A texture whose colours lie between zero and one gives such a colour at
/// every place.
pub proof fn lemma_reflectance_color(texture: Texture, uv: (Real, Real))
    requires
        texture.wf(),
        texture.is_reflectance(),
    ensures
        texture.spec_color(uv).is_unit_color(),
{
    match texture {
        Texture::SolidColor(t) => {},
        Texture::Checkered(t) => {},
        Texture::Image(t) => {
            let i = t.spec_index(uv);
            lemma_cell_in_grid(uv.0, t.width);
            lemma_cell_in_grid((ONE - crate::texture::clamp_unit(uv.1)) as Real, t.height);
            assert(0 <= i < t.width * t.height) by (nonlinear_arith)
                requires
                    i == crate::texture::cell_index(
                        (ONE - crate::texture::clamp_unit(uv.1)) as Real,
                        t.height,
                    ) * t.width + crate::texture::cell_index(uv.0, t.width),
                    0 <= crate::texture::cell_index(uv.0, t.width) < t.width,
                    0 <= crate::texture::cell_index(
                        (ONE - crate::texture::clamp_unit(uv.1)) as Real,
                        t.height,
                    ) < t.height,
            ;
            assert(t.data@[i].is_unit_color());
            lemma_unit_color_product(t.data@[i], t.tint);
        },
    }
}

/// The cell that holds a fraction of a row is a cell of the row.
pub proof fn lemma_cell_in_grid(x: Real, n: u32)
    requires
        n > 0,
    ensures
        0 <= crate::texture::cell_index(x, n) < n,
{
    let c = crate::texture::clamp_unit(x);
    assert(0 <= c * n) by (nonlinear_arith)
        requires
            0 <= c,
            0 <= n,
    ;
    vstd::arithmetic::div_mod::lemma_div_pos_is_pos(c * n, 0x10_0000);
}

/// Energy is not gained at a surface that does not emit: where the
/// colours of a material's texture lie between zero and one, so does every
/// component of the attenuation that it returns.
pub proof fn lemma_attenuation_is_bounded(
    material: Material,
    hit: HitRecord,
    hit_data: HitData,
    sample: Sample,
)
    requires
        material.wf(),
        !(material is DiffuseLight),
        material.texture().is_reflectance(),
    ensures
        material.spec_scatter(hit, hit_data, sample) matches Some((_, attenuation))
            ==> attenuation.is_unit_color(),
{
    reveal(Diffuse::spec_scatter);
    reveal(Lambertian::spec_scatter);
    reveal(Metal::spec_scatter);
    reveal(Dielectric::spec_scatter);
    lemma_reflectance_color(material.texture(), hit_data.uv);
}

/// A light scatters nothing, and nothing but a light emits.
pub proof fn lemma_lights_end_paths(
    material: Material,
    hit: HitRecord,
    hit_data: HitData,
    sample: Sample,
)
    ensures
        material is DiffuseLight ==> material.spec_scatter(hit, hit_data, sample) is None,
        !(material is DiffuseLight) ==> material.spec_emitted(hit_data.uv) == (V3 {
            x: 0,
            y: 0,
            z: 0,
        }),
{
}

/// A vector of length exactly one whose every component fits a real.
pub open spec fn is_exact_unit(n: V3) -> bool {
    n.wf() && n.dot_wide(n) == ONE * ONE
}

/// A ray that meets a surface head-on is not bent: refraction leaves the
/// direction opposite to an exact unit normal as it is, whatever the ratio
/// of the refractive indices.
pub proof fn lemma_refract_head_on(normal: V3, index: Real)
    requires
        is_exact_unit(normal),
    ensures
        spec_refract(normal.spec_neg(), normal, index) == normal.spec_neg(),
{
    let d = normal.spec_neg();
    assert(d.x == -normal.x && d.y == -normal.y && d.z == -normal.z);
    assert(d.dot_wide(normal) == -(ONE * ONE)) by (nonlinear_arith)
        requires
            d.x == -normal.x && d.y == -normal.y && d.z == -normal.z,
            normal.x * normal.x + normal.y * normal.y + normal.z * normal.z == ONE * ONE,
            d.dot_wide(normal) == d.x * normal.x + d.y * normal.y + d.z * normal.z,
    ;
    assert(d.spec_dot(normal) == -ONE);
    assert(spec_cos_theta(d, normal) == ONE);
    lemma_scale_by_one(normal);
    assert(normal.spec_scale(ONE) == normal);
    let zero = V3 { x: 0, y: 0, z: 0 };
    assert(d.spec_plus(normal) == zero);
    lemma_scale_zero(index);
    let perpendicular = spec_refract_perpendicular(d, normal, index);
    assert(perpendicular == zero);
    assert(perpendicular.spec_dot(perpendicular) == 0);
    assert(is_isqrt(ONE * 0x10_0000, ONE as int)) by (nonlinear_arith);
    lemma_isqrt_unique(ONE * 0x10_0000, ONE as int);
    lemma_scale_by_minus_one(normal);
}

/// To scale by one changes nothing.
pub proof fn lemma_scale_by_one(v: V3)
    requires
        v.wf(),
    ensures
        v.spec_scale(ONE) == v,
{
    vstd::arithmetic::div_mod::lemma_div_multiples_vanish(v.x as int, 0x10_0000);
    vstd::arithmetic::div_mod::lemma_div_multiples_vanish(v.y as int, 0x10_0000);
    vstd::arithmetic::div_mod::lemma_div_multiples_vanish(v.z as int, 0x10_0000);
    assert(v.x * ONE == 0x10_0000 * v.x) by (nonlinear_arith);
    assert(v.y * ONE == 0x10_0000 * v.y) by (nonlinear_arith);
    assert(v.z * ONE == 0x10_0000 * v.z) by (nonlinear_arith);
}

/// To scale by minus one changes the sign.
pub proof fn lemma_scale_by_minus_one(v: V3)
    requires
        v.wf(),
    ensures
        v.spec_scale((-ONE) as Real) == v.spec_neg(),
{
    vstd::arithmetic::div_mod::lemma_div_multiples_vanish(-(v.x as int), 0x10_0000);
    vstd::arithmetic::div_mod::lemma_div_multiples_vanish(-(v.y as int), 0x10_0000);
    vstd::arithmetic::div_mod::lemma_div_multiples_vanish(-(v.z as int), 0x10_0000);
    assert(v.x * (-ONE) == 0x10_0000 * (-(v.x as int))) by (nonlinear_arith);
    assert(v.y * (-ONE) == 0x10_0000 * (-(v.y as int))) by (nonlinear_arith);
    assert(v.z * (-ONE) == 0x10_0000 * (-(v.z as int))) by (nonlinear_arith);
}

/// The zero vector stays zero under every scale.
pub proof fn lemma_scale_zero(k: Real)
    ensures
        (V3 { x: 0, y: 0, z: 0 }).spec_scale(k) == (V3 { x: 0, y: 0, z: 0 }),
{
    assert(0 * k == 0) by (nonlinear_arith);
}

/// A vector of length exactly one is its own normalisation.
pub proof fn lemma_normalize_exact_unit(v: V3)
    requires
        is_exact_unit(v),
    ensures
        v.spec_normalize() == v,
{
    assert(is_isqrt(ONE * ONE, ONE as int)) by (nonlinear_arith);
    lemma_isqrt_unique(ONE * ONE, ONE as int);
    vstd::arithmetic::div_mod::lemma_div_multiples_vanish(v.x as int, 0x10_0000);
    vstd::arithmetic::div_mod::lemma_div_multiples_vanish(v.y as int, 0x10_0000);
    vstd::arithmetic::div_mod::lemma_div_multiples_vanish(v.z as int, 0x10_0000);
    assert(v.x * 0x10_0000 == 0x10_0000 * v.x) by (nonlinear_arith);
    assert(v.y * 0x10_0000 == 0x10_0000 * v.y) by (nonlinear_arith);
    assert(v.z * 0x10_0000 == 0x10_0000 * v.z) by (nonlinear_arith);
}

/// Through a slab and out again: a ray that meets a dielectric head-on and
/// is refracted goes on in the direction it came in, through a front face
/// and through a back face alike. What enters a slab of glass along the
/// normal therefore leaves it parallel to its entry.
pub proof fn lemma_dielectric_head_on(
    glass: Dielectric,
    normal: V3,
    front_face: bool,
    fraction: Real,
)
    requires
        is_exact_unit(normal),
        !glass.spec_reflects(normal.spec_neg(), normal, front_face, fraction),
    ensures
        glass.spec_direction(normal.spec_neg(), normal, front_face, fraction)
            == normal.spec_neg(),
{
    let d = normal.spec_neg();
    assert(d.x == -normal.x && d.y == -normal.y && d.z == -normal.z);
    assert(d.dot_wide(d) == ONE * ONE) by (nonlinear_arith)
        requires
            d.x == -normal.x && d.y == -normal.y && d.z == -normal.z,
            normal.x * normal.x + normal.y * normal.y + normal.z * normal.z == ONE * ONE,
            d.dot_wide(d) == d.x * d.x + d.y * d.y + d.z * d.z,
    ;
    lemma_normalize_exact_unit(d);
    lemma_refract_head_on(normal, glass.spec_relative_index(front_face));
}

} // verus!
