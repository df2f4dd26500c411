//! The pinhole camera: the frame of its viewport in space, and the ray
//! that leads from its lens through a point of the viewport.

use crate::geometry::{Point3, Vec3};
use crate::numbers::{answers_all, total_arithmetic, Number};
use crate::ray::Ray;
use vstd::prelude::*;

verus! {

/// A camera that looks at a viewport in front of it. The viewport is
/// spanned by `viewport_u`, which leads along its upper edge, and
/// `viewport_v`, which leads down its left edge; the rays start on a disk
/// around `center` that `defocus_u` and `defocus_v` span.
#[derive(Clone, Copy, Debug)]
pub struct Camera<T> {
    pub image_width: usize,
    pub image_height: usize,
    pub center: Point3<T>,
    pub viewport_upper_left_corner: Point3<T>,
    pub viewport_u: Vec3<T>,
    pub viewport_v: Vec3<T>,
    pub defocus_u: Vec3<T>,
    pub defocus_v: Vec3<T>,
}

impl<T: Number> Camera<T> {
    /// The camera at `center` whose view goes along the unit vector
    /// `direction`, with the unit vector `u` to its right: `v`, the cross
    /// product of the reversed direction and `u`, leads up. The viewport
    /// lies `focal_length` ahead, centered on the line of view, and the
    /// disk of the lens has the radius `defocus_radius`.
    pub open spec fn framed(
        image_width: usize,
        image_height: usize,
        viewport_width: T,
        viewport_height: T,
        focal_length: T,
        defocus_radius: T,
        center: Point3<T>,
        two: T,
        direction: Vec3<T>,
        u: Vec3<T>,
    ) -> Camera<T> {
        let w = direction.neg_spec();
        let v = w.cross_spec(u);
        let viewport_u = u.mul_spec(viewport_width);
        let viewport_v = v.neg_spec().mul_spec(viewport_height);
        Camera {
            image_width,
            image_height,
            center,
            viewport_upper_left_corner: center.sub_spec(w.mul_spec(focal_length)).sub_spec(
                viewport_u.div_spec(two),
            ).sub_spec(viewport_v.div_spec(two)),
            viewport_u,
            viewport_v,
            defocus_u: u.mul_spec(defocus_radius),
            defocus_v: v.mul_spec(defocus_radius),
        }
    }

    /// The camera at `center` that looks at `look_at`, with `up` leading
    /// upwards in its picture; see [`Camera::framed`]. The line of view
    /// and the vector to its right are brought to unit length with the
    /// roots that `sqrt` gives.
    pub fn new<S: Fn(T) -> T>(
        image_width: usize,
        image_height: usize,
        viewport_width: T,
        viewport_height: T,
        focal_length: T,
        defocus_radius: T,
        center: Point3<T>,
        look_at: Point3<T>,
        up: Vec3<T>,
        two: T,
        sqrt: &S,
    ) -> (r: Camera<T>)
        requires
            total_arithmetic::<T>(),
            answers_all(sqrt),
        ensures
            exists|direction: Vec3<T>, u: Vec3<T>|
                {
                    &&& #[trigger] look_at.sub_spec(center).has_unit(sqrt, direction)
                    &&& #[trigger] up.cross_spec(direction.neg_spec()).has_unit(sqrt, u)
                    &&& r == Self::framed(
                        image_width,
                        image_height,
                        viewport_width,
                        viewport_height,
                        focal_length,
                        defocus_radius,
                        center,
                        two,
                        direction,
                        u,
                    )
                },
    {
        let direction = look_at.sub(center).unit(sqrt);
        let w = direction.neg();
        let u = up.cross(&w).unit(sqrt);
        let v = w.cross(&u);
        let viewport_u = u.mul(viewport_width);
        let viewport_v = v.neg().mul(viewport_height);
        let viewport_upper_left_corner = center.sub(w.mul(focal_length)).sub(
            viewport_u.div(two),
        ).sub(viewport_v.div(two));
        let r = Camera {
            image_width,
            image_height,
            center,
            viewport_upper_left_corner,
            viewport_u,
            viewport_v,
            defocus_u: u.mul(defocus_radius),
            defocus_v: v.mul(defocus_radius),
        };
        proof {
            assert(look_at.sub_spec(center).has_unit(sqrt, direction));
            assert(up.cross_spec(direction.neg_spec()).has_unit(sqrt, u));
            assert(r == Self::framed(
                image_width,
                image_height,
                viewport_width,
                viewport_height,
                focal_length,
                defocus_radius,
                center,
                two,
                direction,
                u,
            ));
        }
        r
    }

    /// The point of the viewport that lies the share `across` of its width
    /// from its left edge and the share `down` of its height from its
    /// upper edge.
    pub open spec fn viewport_point(&self, across: T, down: T) -> Point3<T> {
        self.viewport_upper_left_corner.add_spec(
            self.viewport_u.mul_spec(across).add_spec(self.viewport_v.mul_spec(down)),
        )
    }

    /// The point of the lens that `disk_offset`, a point of the unit disk,
    /// stands for.
    pub open spec fn lens_point(&self, disk_offset: Vec3<T>) -> Point3<T> {
        self.defocus_u.mul_spec(disk_offset.x).add_spec(
            self.defocus_v.mul_spec(disk_offset.y),
        ).add_spec(self.center)
    }

    /// The ray from a point of the lens through a point of the viewport;
    /// see [`Camera::lens_point`] and [`Camera::viewport_point`]. Its
    /// direction has unit length.
    pub fn get_ray<S: Fn(T) -> T>(&self, across: T, down: T, disk_offset: Vec3<T>, sqrt: &S) -> (r:
        Ray<T>)
        requires
            total_arithmetic::<T>(),
            answers_all(sqrt),
        ensures
            r.origin == self.lens_point(disk_offset),
            self.viewport_point(across, down).sub_spec(r.origin).has_unit(sqrt, r.direction),
    {
        let pixel_offset = self.viewport_u.mul(across).add(self.viewport_v.mul(down));
        let pixel_center = self.viewport_upper_left_corner.add(pixel_offset);
        let ray_origin = self.defocus_u.mul(disk_offset.x()).add(
            self.defocus_v.mul(disk_offset.y()),
        ).add(self.center);
        let ray_direction = pixel_center.sub(ray_origin).unit(sqrt);
        Ray::new(ray_origin, ray_direction)
    }

    pub fn image_width(&self) -> (r: usize)
        ensures
            r == self.image_width,
    {
        self.image_width
    }

    pub fn image_height(&self) -> (r: usize)
        ensures
            r == self.image_height,
    {
        self.image_height
    }
}

} // verus!
