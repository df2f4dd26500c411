//! The three kinds of surface material, and what each makes of a ray that
//! hits it. What chance decides is asked of functions that the caller
//! hands in: a random vector of unit length, and a random number between
//! nothing and one.

use crate::color::Color;
use crate::geometry::Vec3;
use crate::numbers::{answers_all, at_most, at_most_spec, total_arithmetic, Number};
use crate::objects::{HitRecord, HitResult};
use crate::order::{lane_gt, lane_lt, obeys_order};
use crate::ray::Ray;
use core::ops::Neg;
use vstd::prelude::*;
use vstd::std_specs::ops::{AddSpec, DivSpec, MulSpec, NegSpec, SubSpec};

verus! {

/// A matte surface, which sends a ray on in a direction near its normal.
#[derive(Clone, Copy, Debug)]
pub struct Lambertian<T> {
    pub albedo: Color<T>,
}

impl<T: Copy> Lambertian<T> {
    pub fn new(albedo: Color<T>) -> (r: Lambertian<T>)
        ensures
            r.albedo == albedo,
    {
        Lambertian { albedo }
    }
}

impl<T: Number> Lambertian<T> {
    /// What the surface makes of a hit when chance gives the unit vector
    /// `drawn`: the ray goes on from the place of the hit along the sum of
    /// `drawn` and the normal, or along the normal itself where the two
    /// cancel, and takes the color of the surface.
    pub open spec fn scattered<'a, M>(
        &self,
        hit_record: HitRecord<'a, T, M>,
        drawn: Vec3<T>,
        epsilon: T,
        zero: T,
    ) -> HitResult<T> {
        let candidate = drawn.add_spec(hit_record.normal);
        HitResult {
            attenuation: self.albedo,
            scattered_ray: Some(
                Ray {
                    origin: hit_record.location,
                    direction: if candidate.near_zero_spec(epsilon, zero) {
                        hit_record.normal
                    } else {
                        candidate
                    },
                },
            ),
        }
    }

    /// What the surface makes of a hit; see [`Lambertian::scattered`].
    pub fn get_hit_result<'a, M, R: Fn() -> Vec3<T>>(
        &self,
        hit_record: &HitRecord<'a, T, M>,
        epsilon: T,
        zero: T,
        random_unit_vector: &R,
    ) -> (r: HitResult<T>)
        requires
            total_arithmetic::<T>(),
            random_unit_vector.requires(()),
        ensures
            exists|drawn: Vec3<T>| #[trigger]
                random_unit_vector.ensures((), drawn) && r == self.scattered(
                    *hit_record,
                    drawn,
                    epsilon,
                    zero,
                ),
    {
        let drawn = random_unit_vector();
        let candidate = drawn.add(hit_record.normal());
        let direction = if candidate.near_zero(epsilon, zero) {
            hit_record.normal()
        } else {
            candidate
        };
        let r = HitResult::new_scattered(self.albedo, Ray::new(hit_record.location(), direction));
        assert(r == self.scattered(*hit_record, drawn, epsilon, zero));
        r
    }
}

/// A mirror whose reflections are blurred by its fuzzy factor.
#[derive(Clone, Copy, Debug)]
pub struct Metal<T> {
    pub albedo: Color<T>,
    pub fuzzy_factor: T,
}

impl<T: Copy + PartialOrd> Metal<T> {
    /// The metal of the given color. A fuzzy factor that is not below
    /// `one` is taken to be `one`.
    pub fn new(albedo: Color<T>, fuzzy_factor: T, one: T) -> (r: Metal<T>)
        ensures
            r.albedo == albedo,
            obeys_order::<T, T>() ==> r.fuzzy_factor == (if lane_lt(fuzzy_factor, one) {
                fuzzy_factor
            } else {
                one
            }),
    {
        Metal {
            albedo,
            fuzzy_factor: if fuzzy_factor < one {
                fuzzy_factor
            } else {
                one
            },
        }
    }
}

impl<T: Number> Metal<T> {
    /// What the mirror makes of a hit of `ray` when chance gives the unit
    /// vector `drawn`: the ray goes on from the place of the hit, mirrored
    /// at the surface and pushed aside by `drawn` times the fuzzy factor,
    /// and takes the color of the metal.
    pub open spec fn scattered<'a, M>(
        &self,
        ray: Ray<T>,
        hit_record: HitRecord<'a, T, M>,
        drawn: Vec3<T>,
    ) -> HitResult<T> {
        HitResult {
            attenuation: self.albedo,
            scattered_ray: Some(
                Ray {
                    origin: hit_record.location,
                    direction: ray.direction.reflect_spec(hit_record.normal).add_spec(
                        drawn.mul_spec(self.fuzzy_factor),
                    ),
                },
            ),
        }
    }

    /// What the mirror makes of a hit of `ray`; see [`Metal::scattered`].
    pub fn get_hit_result<'a, M, R: Fn() -> Vec3<T>>(
        &self,
        ray: &Ray<T>,
        hit_record: &HitRecord<'a, T, M>,
        random_unit_vector: &R,
    ) -> (r: HitResult<T>)
        requires
            total_arithmetic::<T>(),
            random_unit_vector.requires(()),
        ensures
            exists|drawn: Vec3<T>| #[trigger]
                random_unit_vector.ensures((), drawn) && r == self.scattered(
                    *ray,
                    *hit_record,
                    drawn,
                ),
    {
        let mirrored = ray.direction().reflect(&hit_record.normal());
        let drawn = random_unit_vector();
        let reflected = mirrored.add(drawn.mul(self.fuzzy_factor));
        let r = HitResult::new_scattered(self.albedo, Ray::new(hit_record.location(), reflected));
        assert(r == self.scattered(*ray, *hit_record, drawn));
        r
    }
}

/// A clear material such as glass, which bends a ray or mirrors it.
#[derive(Clone, Copy, Debug)]
pub struct Dielectric<T> {
    pub index_of_refraction: T,
    pub hollow: bool,
}

impl<T: Copy> Dielectric<T> {
    pub fn new(index_of_refraction: T, hollow: bool) -> (r: Dielectric<T>)
        ensures
            r.index_of_refraction == index_of_refraction,
            r.hollow == hollow,
    {
        Dielectric { index_of_refraction, hollow }
    }
}

impl<T: Number> Dielectric<T> {
    /// The share of the light that a clear surface mirrors, after Schlick:
    /// with `r0` the square of `(1 - n) / (1 + n)` for the index `n`, the
    /// sum of `r0` and of `1 - r0` times the fifth power of `1 - cosine`.
    pub open spec fn reflectance_spec(cosine: T, index_of_refraction: T, one: T) -> T {
        let ratio = one.sub_spec(index_of_refraction).div_spec(one.add_spec(index_of_refraction));
        let r0 = ratio.mul_spec(ratio);
        let x = one.sub_spec(cosine);
        let square = x.mul_spec(x);
        r0.add_spec(one.sub_spec(r0).mul_spec(x.mul_spec(square.mul_spec(square))))
    }

    /// The share of the light that a clear surface mirrors.
    pub fn reflectance(cosine: T, index_of_refraction: T, one: T) -> (r: T)
        requires
            total_arithmetic::<T>(),
        ensures
            r == Self::reflectance_spec(cosine, index_of_refraction, one),
    {
        let ratio = (one - index_of_refraction) / (one + index_of_refraction);
        let r0 = ratio * ratio;
        let x = one - cosine;
        let square = x * x;
        r0 + (one - r0) * (x * (square * square))
    }

    /// The ratio by which a ray is bent: the inverse of the index of
    /// refraction for a ray that enters through the front face, and the
    /// index itself for one that leaves.
    pub open spec fn refraction_ratio(&self, front_face: bool, one: T) -> T {
        if front_face {
            one.div_spec(self.index_of_refraction)
        } else {
            self.index_of_refraction
        }
    }

    /// The normal that the material works with: that of the hit, or for a
    /// hollow shell the same normal reversed.
    pub open spec fn surface_normal(&self, normal: Vec3<T>) -> Vec3<T> {
        if self.hollow {
            normal.neg_spec()
        } else {
            normal
        }
    }

    /// The cosine of the angle between the ray and the normal, held down
    /// to `one`.
    pub open spec fn cos_theta<'a, M>(
        &self,
        ray: Ray<T>,
        hit_record: HitRecord<'a, T, M>,
        one: T,
    ) -> T {
        at_most_spec(
            ray.direction.neg_spec().dot_spec(self.surface_normal(hit_record.normal)),
            one,
        )
    }

    /// The number whose root is the sine of the angle between the ray and
    /// the normal: one less the square of the cosine.
    pub open spec fn sine_radicand<'a, M>(
        &self,
        ray: Ray<T>,
        hit_record: HitRecord<'a, T, M>,
        one: T,
    ) -> T {
        let cos_theta = self.cos_theta(ray, hit_record, one);
        one.sub_spec(cos_theta.mul_spec(cos_theta))
    }

    /// Whether the ray cannot be bent, because by Snell's law the sine of
    /// the angle behind the surface would exceed `one`.
    pub open spec fn cannot_refract<'a, M>(
        &self,
        hit_record: HitRecord<'a, T, M>,
        one: T,
        sin_theta: T,
    ) -> bool {
        lane_gt(self.refraction_ratio(hit_record.front_face, one).mul_spec(sin_theta), one)
    }

    /// Whether a ray that could be bent is mirrored all the same, because
    /// the share of light that the surface mirrors exceeds the number
    /// `drawn` for this ray.
    pub open spec fn mirrors_by_chance<'a, M>(
        &self,
        ray: Ray<T>,
        hit_record: HitRecord<'a, T, M>,
        one: T,
        drawn: T,
    ) -> bool {
        lane_gt(
            Self::reflectance_spec(
                self.cos_theta(ray, hit_record, one),
                self.refraction_ratio(hit_record.front_face, one),
                one,
            ),
            drawn,
        )
    }

    /// The ray mirrored at the surface. A clear material takes no color
    /// from the light: the attenuation is `white`.
    pub open spec fn mirrored<'a, M>(
        &self,
        ray: Ray<T>,
        hit_record: HitRecord<'a, T, M>,
        white: Color<T>,
    ) -> HitResult<T> {
        HitResult {
            attenuation: white,
            scattered_ray: Some(
                Ray {
                    origin: hit_record.location,
                    direction: ray.direction.reflect_spec(self.surface_normal(hit_record.normal)),
                },
            ),
        }
    }

    /// The number whose root the bending of the ray asks for; see
    /// [`Vec3::refract_radicand`].
    pub open spec fn bend_radicand<'a, M>(
        &self,
        ray: Ray<T>,
        hit_record: HitRecord<'a, T, M>,
        one: T,
        zero: T,
    ) -> T {
        ray.direction.refract_radicand(
            self.surface_normal(hit_record.normal),
            self.refraction_ratio(hit_record.front_face, one),
            one,
            zero,
        )
    }

    /// The ray bent at the surface, where `root` is the root of
    /// [`Dielectric::bend_radicand`].
    pub open spec fn bent<'a, M>(
        &self,
        ray: Ray<T>,
        hit_record: HitRecord<'a, T, M>,
        white: Color<T>,
        one: T,
        root: T,
    ) -> HitResult<T> {
        HitResult {
            attenuation: white,
            scattered_ray: Some(
                Ray {
                    origin: hit_record.location,
                    direction: ray.direction.refract_spec(
                        self.surface_normal(hit_record.normal),
                        self.refraction_ratio(hit_record.front_face, one),
                        one,
                        root,
                    ),
                },
            ),
        }
    }

    /// Whether `result` is what the material makes of a ray that can be
    /// bent: mirrored where chance, asked through `draw`, has it so, and
    /// else bent, with a root that `sqrt` gives.
    pub open spec fn may_bend<'a, M, S: Fn(T) -> T, D: Fn() -> T>(
        &self,
        sqrt: &S,
        draw: &D,
        ray: Ray<T>,
        hit_record: HitRecord<'a, T, M>,
        white: Color<T>,
        one: T,
        zero: T,
        result: HitResult<T>,
    ) -> bool {
        exists|drawn: T| #[trigger]
            draw.ensures((), drawn) && if self.mirrors_by_chance(ray, hit_record, one, drawn) {
                result == self.mirrored(ray, hit_record, white)
            } else {
                exists|root: T| #[trigger]
                    sqrt.ensures((self.bend_radicand(ray, hit_record, one, zero),), root) && result
                        == self.bent(ray, hit_record, white, one, root)
            }
    }

    /// Whether `result` is what the material makes of a hit of `ray`: the
    /// ray is mirrored where it cannot be bent, which the sine that `sqrt`
    /// gives decides, and else [`Dielectric::may_bend`] holds of it.
    pub open spec fn may_scatter<'a, M, S: Fn(T) -> T, D: Fn() -> T>(
        &self,
        sqrt: &S,
        draw: &D,
        ray: Ray<T>,
        hit_record: HitRecord<'a, T, M>,
        white: Color<T>,
        one: T,
        zero: T,
        result: HitResult<T>,
    ) -> bool {
        exists|sin_theta: T| #[trigger]
            sqrt.ensures((self.sine_radicand(ray, hit_record, one),), sin_theta) && if self.cannot_refract(
                hit_record,
                one,
                sin_theta,
            ) {
                result == self.mirrored(ray, hit_record, white)
            } else {
                self.may_bend(sqrt, draw, ray, hit_record, white, one, zero, result)
            }
    }

    /// What the material makes of a hit of `ray`: it always sends the ray
    /// on, mirrored or bent, and takes no color from it.
    pub fn get_hit_result<'a, M, S: Fn(T) -> T, D: Fn() -> T>(
        &self,
        ray: &Ray<T>,
        hit_record: &HitRecord<'a, T, M>,
        white: Color<T>,
        one: T,
        zero: T,
        sqrt: &S,
        draw: &D,
    ) -> (r: HitResult<T>)
        requires
            total_arithmetic::<T>(),
            answers_all(sqrt),
            draw.requires(()),
        ensures
            r.scattered_ray is Some,
            r.attenuation == white,
            self.may_scatter(sqrt, draw, *ray, *hit_record, white, one, zero, r),
    {
        let refraction_ratio = if hit_record.front_face() {
            one / self.index_of_refraction
        } else {
            self.index_of_refraction
        };
        let normal = if self.hollow {
            hit_record.normal().neg()
        } else {
            hit_record.normal()
        };
        assert(refraction_ratio == self.refraction_ratio(hit_record.front_face, one));
        assert(normal == self.surface_normal(hit_record.normal));
        let cos_theta = at_most(ray.direction().neg().dot(&normal), one);
        assert(cos_theta == self.cos_theta(*ray, *hit_record, one));
        let radicand = one - cos_theta * cos_theta;
        assert(radicand == self.sine_radicand(*ray, *hit_record, one));
        let sin_theta = sqrt(radicand);
        assert(sqrt.ensures((self.sine_radicand(*ray, *hit_record, one),), sin_theta));
        let cannot_refract = refraction_ratio * sin_theta > one;
        assert(cannot_refract == self.cannot_refract(*hit_record, one, sin_theta));
        if cannot_refract {
            let direction = ray.direction().reflect(&normal);
            let r = HitResult::new_scattered(white, Ray::new(hit_record.location(), direction));
            assert(r == self.mirrored(*ray, *hit_record, white));
            return r;
        }
        let drawn = draw();
        let mirrors = Self::reflectance(cos_theta, refraction_ratio, one) > drawn;
        assert(mirrors == self.mirrors_by_chance(*ray, *hit_record, one, drawn));
        let direction = if mirrors {
            ray.direction().reflect(&normal)
        } else {
            ray.direction().refract(&normal, refraction_ratio, one, zero, sqrt)
        };
        let r = HitResult::new_scattered(white, Ray::new(hit_record.location(), direction));
        proof {
            assert(draw.ensures((), drawn));
            if mirrors {
                assert(r == self.mirrored(*ray, *hit_record, white));
            } else {
                let root = choose|root: T| #[trigger]
                    sqrt.ensures(
                        (ray.direction.refract_radicand(normal, refraction_ratio, one, zero),),
                        root,
                    ) && direction == ray.direction.refract_spec(
                        normal,
                        refraction_ratio,
                        one,
                        root,
                    );
                assert(sqrt.ensures((self.bend_radicand(*ray, *hit_record, one, zero),), root));
                assert(r == self.bent(*ray, *hit_record, white, one, root));
            }
            assert(self.may_bend(sqrt, draw, *ray, *hit_record, white, one, zero, r));
        }
        r
    }
}

/// The material of a surface.
#[derive(Clone, Copy, Debug)]
pub enum Material<T> {
    Lambertian(Lambertian<T>),
    Metal(Metal<T>),
    Dielectric(Dielectric<T>),
}

impl<T: Number> Material<T> {
    /// Whether `result` is what the material makes of a hit of `ray`, for
    /// what `sqrt`, `random_unit_vector` and `draw` give.
    pub open spec fn may_scatter<'a, M, S: Fn(T) -> T, R: Fn() -> Vec3<T>, D: Fn() -> T>(
        &self,
        sqrt: &S,
        random_unit_vector: &R,
        draw: &D,
        ray: Ray<T>,
        hit_record: HitRecord<'a, T, M>,
        white: Color<T>,
        one: T,
        zero: T,
        epsilon: T,
        result: HitResult<T>,
    ) -> bool {
        match self {
            Material::Lambertian(matte) => exists|drawn: Vec3<T>| #[trigger]
                random_unit_vector.ensures((), drawn) && result == matte.scattered(
                    hit_record,
                    drawn,
                    epsilon,
                    zero,
                ),
            Material::Metal(metal) => exists|drawn: Vec3<T>| #[trigger]
                random_unit_vector.ensures((), drawn) && result == metal.scattered(
                    ray,
                    hit_record,
                    drawn,
                ),
            Material::Dielectric(glass) => glass.may_scatter(
                sqrt,
                draw,
                ray,
                hit_record,
                white,
                one,
                zero,
                result,
            ),
        }
    }

    /// What the material makes of a hit of `ray`: the color that it gives
    /// to the light, and the ray that it sends on. Each of the three kinds
    /// sends a ray on.
    pub fn get_hit_result<'a, M, S: Fn(T) -> T, R: Fn() -> Vec3<T>, D: Fn() -> T>(
        &self,
        ray: &Ray<T>,
        hit_record: &HitRecord<'a, T, M>,
        white: Color<T>,
        one: T,
        zero: T,
        epsilon: T,
        sqrt: &S,
        random_unit_vector: &R,
        draw: &D,
    ) -> (r: HitResult<T>)
        requires
            total_arithmetic::<T>(),
            answers_all(sqrt),
            random_unit_vector.requires(()),
            draw.requires(()),
        ensures
            r.scattered_ray is Some,
            self.may_scatter(
                sqrt,
                random_unit_vector,
                draw,
                *ray,
                *hit_record,
                white,
                one,
                zero,
                epsilon,
                r,
            ),
    {
        match self {
            Material::Lambertian(matte) => matte.get_hit_result(
                hit_record,
                epsilon,
                zero,
                random_unit_vector,
            ),
            Material::Metal(metal) => metal.get_hit_result(ray, hit_record, random_unit_vector),
            Material::Dielectric(glass) => glass.get_hit_result(
                ray,
                hit_record,
                white,
                one,
                zero,
                sqrt,
                draw,
            ),
        }
    }
}

impl<'a, T: Number> HitRecord<'a, T, Material<T>> {
    /// What the material that was hit makes of `ray`; see
    /// [`Material::get_hit_result`].
    pub fn hit_result<S: Fn(T) -> T, R: Fn() -> Vec3<T>, D: Fn() -> T>(
        &self,
        ray: &Ray<T>,
        white: Color<T>,
        one: T,
        zero: T,
        epsilon: T,
        sqrt: &S,
        random_unit_vector: &R,
        draw: &D,
    ) -> (r: HitResult<T>)
        requires
            total_arithmetic::<T>(),
            answers_all(sqrt),
            random_unit_vector.requires(()),
            draw.requires(()),
        ensures
            r.scattered_ray is Some,
            self.material.may_scatter(
                sqrt,
                random_unit_vector,
                draw,
                *ray,
                *self,
                white,
                one,
                zero,
                epsilon,
                r,
            ),
    {
        self.material.get_hit_result(
            ray,
            self,
            white,
            one,
            zero,
            epsilon,
            sqrt,
            random_unit_vector,
            draw,
        )
    }
}

} // verus!
