//! Three-component vectors, alone and in batches of `N` lanes.

use crate::numbers::{
    answers_all, at_most, at_most_spec, magnitude, magnitude_spec, total_arithmetic, Number,
};
use crate::order::{lane_gt, lane_le, lane_lt};
use crate::packed::{lemma_packed_ext_equal, lemma_packed_len, select_lanes, Mask, Packed};
use core::ops::{Add, Div, Mul, Neg, Sub};
use vstd::prelude::*;
use vstd::std_specs::ops::{AddSpec, DivSpec, MulSpec, NegSpec, SubSpec};

verus! {

broadcast use lemma_packed_len;

/// A vector of three components.
#[derive(Clone, Copy, Debug, PartialEq)]
pub struct Vec3<T> {
    pub x: T,
    pub y: T,
    pub z: T,
}

/// A position, held as the vector that leads to it from the origin.
pub type Point3<T> = Vec3<T>;

impl<T: Copy> Vec3<T> {
    pub fn new(x: T, y: T, z: T) -> (r: Vec3<T>)
        ensures
            r == (Vec3 { x, y, z }),
    {
        Vec3 { x, y, z }
    }

    pub fn x(&self) -> (r: T)
        ensures
            r == self.x,
    {
        self.x
    }

    pub fn y(&self) -> (r: T)
        ensures
            r == self.y,
    {
        self.y
    }

    pub fn z(&self) -> (r: T)
        ensures
            r == self.z,
    {
        self.z
    }
}

impl<T: Copy + Default> Vec3<T> {
    /// The vector of no length: every component is the default value of
    /// `T`, which for a number is zero.
    pub fn zero() -> (r: Vec3<T>)
        ensures
            call_ensures(T::default, (), r.x),
            call_ensures(T::default, (), r.y),
            call_ensures(T::default, (), r.z),
    {
        Vec3 { x: T::default(), y: T::default(), z: T::default() }
    }
}

impl<T: Copy + Add<Output = T>> Vec3<T> {
    /// Whether the components of the two vectors can be added.
    pub open spec fn add_req(self, rhs: Vec3<T>) -> bool {
        self.x.add_req(rhs.x) && self.y.add_req(rhs.y) && self.z.add_req(rhs.z)
    }

    /// The sum of the two vectors, component by component.
    pub open spec fn add_spec(self, rhs: Vec3<T>) -> Vec3<T> {
        Vec3 {
            x: self.x.add_spec(rhs.x),
            y: self.y.add_spec(rhs.y),
            z: self.z.add_spec(rhs.z),
        }
    }

    /// The sum of the two vectors.
    pub fn add(self, rhs: Vec3<T>) -> (r: Vec3<T>)
        requires
            self.add_req(rhs),
        ensures
            T::obeys_add_spec() ==> r == self.add_spec(rhs),
    {
        Vec3 { x: self.x + rhs.x, y: self.y + rhs.y, z: self.z + rhs.z }
    }
}

impl<T: Copy + Sub<Output = T>> Vec3<T> {
    /// Whether the components of the two vectors can be subtracted.
    pub open spec fn sub_req(self, rhs: Vec3<T>) -> bool {
        self.x.sub_req(rhs.x) && self.y.sub_req(rhs.y) && self.z.sub_req(rhs.z)
    }

    /// The difference of the two vectors, component by component.
    pub open spec fn sub_spec(self, rhs: Vec3<T>) -> Vec3<T> {
        Vec3 {
            x: self.x.sub_spec(rhs.x),
            y: self.y.sub_spec(rhs.y),
            z: self.z.sub_spec(rhs.z),
        }
    }

    /// The difference of the two vectors.
    pub fn sub(self, rhs: Vec3<T>) -> (r: Vec3<T>)
        requires
            self.sub_req(rhs),
        ensures
            T::obeys_sub_spec() ==> r == self.sub_spec(rhs),
    {
        Vec3 { x: self.x - rhs.x, y: self.y - rhs.y, z: self.z - rhs.z }
    }
}

impl<T: Copy + Mul<Output = T>> Vec3<T> {
    /// Whether each component can be multiplied by `rhs`.
    pub open spec fn mul_req(self, rhs: T) -> bool {
        self.x.mul_req(rhs) && self.y.mul_req(rhs) && self.z.mul_req(rhs)
    }

    /// The vector of the components multiplied by `rhs`.
    pub open spec fn mul_spec(self, rhs: T) -> Vec3<T> {
        Vec3 { x: self.x.mul_spec(rhs), y: self.y.mul_spec(rhs), z: self.z.mul_spec(rhs) }
    }

    /// The vector scaled up by `rhs`.
    pub fn mul(self, rhs: T) -> (r: Vec3<T>)
        requires
            self.mul_req(rhs),
        ensures
            T::obeys_mul_spec() ==> r == self.mul_spec(rhs),
    {
        Vec3 { x: self.x * rhs, y: self.y * rhs, z: self.z * rhs }
    }
}

impl<T: Copy + Div<Output = T>> Vec3<T> {
    /// Whether each component can be divided by `rhs`.
    pub open spec fn div_req(self, rhs: T) -> bool {
        self.x.div_req(rhs) && self.y.div_req(rhs) && self.z.div_req(rhs)
    }

    /// The vector of the components divided by `rhs`.
    pub open spec fn div_spec(self, rhs: T) -> Vec3<T> {
        Vec3 { x: self.x.div_spec(rhs), y: self.y.div_spec(rhs), z: self.z.div_spec(rhs) }
    }

    /// The vector scaled down by `rhs`.
    pub fn div(self, rhs: T) -> (r: Vec3<T>)
        requires
            self.div_req(rhs),
        ensures
            T::obeys_div_spec() ==> r == self.div_spec(rhs),
    {
        Vec3 { x: self.x / rhs, y: self.y / rhs, z: self.z / rhs }
    }
}

impl<T: Copy + Neg<Output = T>> Vec3<T> {
    /// Whether each component can be negated.
    pub open spec fn neg_req(self) -> bool {
        self.x.neg_req() && self.y.neg_req() && self.z.neg_req()
    }

    /// The vector of the negated components.
    pub open spec fn neg_spec(self) -> Vec3<T> {
        Vec3 { x: self.x.neg_spec(), y: self.y.neg_spec(), z: self.z.neg_spec() }
    }

    /// The vector reversed.
    pub fn neg(self) -> (r: Vec3<T>)
        requires
            self.neg_req(),
        ensures
            T::obeys_neg_spec() ==> r == self.neg_spec(),
    {
        Vec3 { x: self.x.neg(), y: self.y.neg(), z: self.z.neg() }
    }
}

impl<T: Copy + Add<Output = T> + Mul<Output = T>> Vec3<T> {
    /// Whether the products and sums of the dot product can be formed:
    /// the arithmetic of `T` follows its specification, and no step fails
    /// (for an integer: overflows).
    pub open spec fn dot_req(self, rhs: Vec3<T>) -> bool {
        &&& T::obeys_mul_spec()
        &&& T::obeys_add_spec()
        &&& self.x.mul_req(rhs.x)
        &&& self.y.mul_req(rhs.y)
        &&& self.z.mul_req(rhs.z)
        &&& self.x.mul_spec(rhs.x).add_req(self.y.mul_spec(rhs.y))
        &&& self.x.mul_spec(rhs.x).add_spec(self.y.mul_spec(rhs.y)).add_req(
            self.z.mul_spec(rhs.z),
        )
    }

    /// The dot product: the products of the components, added up from the
    /// first on.
    pub open spec fn dot_spec(self, rhs: Vec3<T>) -> T {
        self.x.mul_spec(rhs.x).add_spec(self.y.mul_spec(rhs.y)).add_spec(self.z.mul_spec(rhs.z))
    }

    /// The dot product of the two vectors.
    pub fn dot(&self, rhs: &Vec3<T>) -> (r: T)
        requires
            self.dot_req(*rhs),
        ensures
            r == self.dot_spec(*rhs),
    {
        self.x * rhs.x + self.y * rhs.y + self.z * rhs.z
    }

    /// The square of the length of the vector: its dot product with itself.
    pub fn length_squared(&self) -> (r: T)
        requires
            self.dot_req(*self),
        ensures
            r == self.dot_spec(*self),
    {
        self.dot(self)
    }
}

impl<T: Copy + Sub<Output = T> + Mul<Output = T>> Vec3<T> {
    /// Whether the products and differences of the cross product can be
    /// formed; see [`Vec3::dot_req`].
    pub open spec fn cross_req(self, rhs: Vec3<T>) -> bool {
        &&& T::obeys_mul_spec()
        &&& T::obeys_sub_spec()
        &&& self.y.mul_req(rhs.z)
        &&& self.z.mul_req(rhs.y)
        &&& self.z.mul_req(rhs.x)
        &&& self.x.mul_req(rhs.z)
        &&& self.x.mul_req(rhs.y)
        &&& self.y.mul_req(rhs.x)
        &&& self.y.mul_spec(rhs.z).sub_req(self.z.mul_spec(rhs.y))
        &&& self.z.mul_spec(rhs.x).sub_req(self.x.mul_spec(rhs.z))
        &&& self.x.mul_spec(rhs.y).sub_req(self.y.mul_spec(rhs.x))
    }

    /// The cross product.
    pub open spec fn cross_spec(self, rhs: Vec3<T>) -> Vec3<T> {
        Vec3 {
            x: self.y.mul_spec(rhs.z).sub_spec(self.z.mul_spec(rhs.y)),
            y: self.z.mul_spec(rhs.x).sub_spec(self.x.mul_spec(rhs.z)),
            z: self.x.mul_spec(rhs.y).sub_spec(self.y.mul_spec(rhs.x)),
        }
    }

    /// The cross product of the two vectors.
    pub fn cross(&self, rhs: &Vec3<T>) -> (r: Vec3<T>)
        requires
            self.cross_req(*rhs),
        ensures
            r == self.cross_spec(*rhs),
    {
        Vec3 {
            x: self.y * rhs.z - self.z * rhs.y,
            y: self.z * rhs.x - self.x * rhs.z,
            z: self.x * rhs.y - self.y * rhs.x,
        }
    }
}

impl<T: Number> Vec3<T> {
    /// The length of the vector: the root, as `sqrt` gives it, of the
    /// square of its length.
    pub fn length<S: Fn(T) -> T>(&self, sqrt: &S) -> (r: T)
        requires
            total_arithmetic::<T>(),
            answers_all(sqrt),
        ensures
            sqrt.ensures((self.dot_spec(*self),), r),
    {
        sqrt(self.length_squared())
    }

    /// Whether `unit` is the vector divided by its length, for a length
    /// that `sqrt` gives.
    pub open spec fn has_unit<S: Fn(T) -> T>(self, sqrt: &S, unit: Vec3<T>) -> bool {
        exists|length: T| #[trigger]
            sqrt.ensures((self.dot_spec(self),), length) && unit == self.div_spec(length)
    }

    /// The vector of the same direction and of length one: the vector
    /// divided by its length.
    pub fn unit<S: Fn(T) -> T>(self, sqrt: &S) -> (r: Vec3<T>)
        requires
            total_arithmetic::<T>(),
            answers_all(sqrt),
        ensures
            self.has_unit(sqrt, r),
    {
        let length = self.length(sqrt);
        self.div(length)
    }

    /// Whether every component is nearer to `zero` than `epsilon`.
    pub open spec fn near_zero_spec(self, epsilon: T, zero: T) -> bool {
        &&& lane_lt(magnitude_spec(self.x, zero), epsilon)
        &&& lane_lt(magnitude_spec(self.y, zero), epsilon)
        &&& lane_lt(magnitude_spec(self.z, zero), epsilon)
    }

    /// Whether the vector is too short to give a direction.
    pub fn near_zero(&self, epsilon: T, zero: T) -> (r: bool)
        requires
            total_arithmetic::<T>(),
        ensures
            r == self.near_zero_spec(epsilon, zero),
    {
        magnitude(self.x, zero) < epsilon && magnitude(self.y, zero) < epsilon && magnitude(
            self.z,
            zero,
        ) < epsilon
    }

    /// The unit vector made from `drawn`, three numbers that chance gave:
    /// `drawn` brought to unit length, or the vector of `zero`, `zero` and
    /// `one` where `drawn` is too short to give a direction.
    pub fn random_unit_vector<S: Fn(T) -> T>(
        drawn: Vec3<T>,
        epsilon: T,
        zero: T,
        one: T,
        sqrt: &S,
    ) -> (r: Vec3<T>)
        requires
            total_arithmetic::<T>(),
            answers_all(sqrt),
        ensures
            drawn.near_zero_spec(epsilon, zero) ==> r == (Vec3 { x: zero, y: zero, z: one }),
            !drawn.near_zero_spec(epsilon, zero) ==> drawn.has_unit(sqrt, r),
    {
        if drawn.near_zero(epsilon, zero) {
            Vec3 { x: zero, y: zero, z: one }
        } else {
            drawn.unit(sqrt)
        }
    }

    /// Of the unit vector `drawn` and its reverse, the one on the side of
    /// `normal`: `drawn` where its dot product with `normal` is above
    /// `zero`, and else its reverse.
    pub fn random_on_unit_hemisphere(normal: &Vec3<T>, drawn: Vec3<T>, zero: T) -> (r: Vec3<T>)
        requires
            total_arithmetic::<T>(),
        ensures
            r == (if lane_gt(drawn.dot_spec(*normal), zero) {
                drawn
            } else {
                drawn.neg_spec()
            }),
    {
        if drawn.dot(normal) > zero {
            drawn
        } else {
            drawn.neg()
        }
    }

    /// Whether the point `x`, `y` of the plane lies in the disk of radius
    /// one about the origin, its rim included.
    pub fn within_unit_disk(x: T, y: T, one: T) -> (r: bool)
        requires
            total_arithmetic::<T>(),
        ensures
            r == lane_le(x.mul_spec(x).add_spec(y.mul_spec(y)), one),
    {
        x * x + y * y <= one
    }

    /// The vector mirrored at the surface whose normal is `normal`: the
    /// vector less twice its part along the normal.
    pub open spec fn reflect_spec(self, normal: Vec3<T>) -> Vec3<T> {
        let along = self.dot_spec(normal);
        self.sub_spec(normal.mul_spec(along.add_spec(along)))
    }

    /// The direction in which a mirror sends a ray on.
    pub fn reflect(&self, normal: &Vec3<T>) -> (r: Vec3<T>)
        requires
            total_arithmetic::<T>(),
        ensures
            r == self.reflect_spec(*normal),
    {
        let along = self.dot(normal);
        self.sub(normal.mul(along + along))
    }

    /// The part across the normal of the vector bent at a surface.
    pub open spec fn refract_across(self, normal: Vec3<T>, refraction_ratio: T, one: T) -> Vec3<
        T,
    > {
        let cos_theta = at_most_spec(self.neg_spec().dot_spec(normal), one);
        self.add_spec(normal.mul_spec(cos_theta)).mul_spec(refraction_ratio)
    }

    /// The number whose root is the length along the normal of the vector
    /// bent at a surface.
    pub open spec fn refract_radicand(
        self,
        normal: Vec3<T>,
        refraction_ratio: T,
        one: T,
        zero: T,
    ) -> T {
        let across = self.refract_across(normal, refraction_ratio, one);
        magnitude_spec(one.sub_spec(across.dot_spec(across)), zero)
    }

    /// The vector bent at a surface, where `root` is the root of
    /// [`Vec3::refract_radicand`].
    pub open spec fn refract_spec(
        self,
        normal: Vec3<T>,
        refraction_ratio: T,
        one: T,
        root: T,
    ) -> Vec3<T> {
        let across = self.refract_across(normal, refraction_ratio, one);
        across.add_spec(normal.mul_spec(root.neg_spec()))
    }

    /// The direction in which a clear surface with the normal `normal`
    /// bends a ray that comes in this direction, by Snell's law.
    pub fn refract<S: Fn(T) -> T>(
        self,
        normal: &Vec3<T>,
        refraction_ratio: T,
        one: T,
        zero: T,
        sqrt: &S,
    ) -> (r: Vec3<T>)
        requires
            total_arithmetic::<T>(),
            answers_all(sqrt),
        ensures
            exists|root: T| #[trigger]
                sqrt.ensures((self.refract_radicand(*normal, refraction_ratio, one, zero),), root)
                    && r == self.refract_spec(*normal, refraction_ratio, one, root),
    {
        let cos_theta = at_most(self.neg().dot(normal), one);
        let across = self.add(normal.mul(cos_theta)).mul(refraction_ratio);
        assert(across == self.refract_across(*normal, refraction_ratio, one));
        let radicand = magnitude(one - across.length_squared(), zero);
        assert(radicand == self.refract_radicand(*normal, refraction_ratio, one, zero));
        let root = sqrt(radicand);
        let r = across.add(normal.mul(root.neg()));
        assert(r == self.refract_spec(*normal, refraction_ratio, one, root));
        r
    }
}

/// `N` vectors, one in each lane, stored component by component.
#[derive(Clone, Copy, Debug)]
pub struct PackedVec3<T: Copy, const N: usize> {
    x: Packed<T, N>,
    y: Packed<T, N>,
    z: Packed<T, N>,
}

/// `N` positions, one in each lane.
pub type PackedPoint3<T, const N: usize> = PackedVec3<T, N>;

impl<T: Copy, const N: usize> View for PackedVec3<T, N> {
    type V = Seq<Vec3<T>>;

    closed spec fn view(&self) -> Seq<Vec3<T>> {
        Seq::new(N as nat, |i: int| Vec3 { x: self.x@[i], y: self.y@[i], z: self.z@[i] })
    }
}

/// A batch of vectors has exactly `N` lanes.
pub broadcast proof fn lemma_packed_vec3_len<T: Copy, const N: usize>(p: PackedVec3<T, N>)
    ensures
        #[trigger] p@.len() == N,
{
}

/// Two batches with the same vector in every lane are the same batch.
pub proof fn lemma_packed_vec3_ext_equal<T: Copy, const N: usize>(
    a: PackedVec3<T, N>,
    b: PackedVec3<T, N>,
)
    requires
        a@ =~= b@,
    ensures
        a == b,
{
    assert forall|i: int| 0 <= i < N implies a.x@[i] == b.x@[i] && a.y@[i] == b.y@[i] && a.z@[i]
        == b.z@[i] by {
        assert(a@[i] == b@[i]);
    }
    assert(a.x@ =~= b.x@);
    assert(a.y@ =~= b.y@);
    assert(a.z@ =~= b.z@);
    lemma_packed_ext_equal(a.x, b.x);
    lemma_packed_ext_equal(a.y, b.y);
    lemma_packed_ext_equal(a.z, b.z);
}

impl<T: Copy, const N: usize> PackedVec3<T, N> {
    /// The batch whose lane `i` has the components `x[i]`, `y[i]`, `z[i]`.
    pub fn from_simd(x: Packed<T, N>, y: Packed<T, N>, z: Packed<T, N>) -> (r: PackedVec3<T, N>)
        ensures
            r@ == Seq::new(N as nat, |i: int| Vec3 { x: x@[i], y: y@[i], z: z@[i] }),
    {
        PackedVec3 { x, y, z }
    }

    /// The batch whose lanes are the `N` vectors of `vec3s`, in order.
    pub fn from_vec3s(vec3s: &[Vec3<T>]) -> (r: PackedVec3<T, N>)
        requires
            vec3s@.len() == N,
            N >= 1,
        ensures
            r@ == vec3s@,
    {
        let mut r = Self::splat(&vec3s[0]);
        let mut i: usize = 0;
        while i < N
            invariant
                i <= N,
                vec3s@.len() == N,
                r@.len() == N,
                forall|j: int| 0 <= j < i ==> r@[j] == vec3s@[j],
            decreases N - i,
        {
            r.update(i, vec3s[i]);
            i += 1;
        }
        assert(r@ =~= vec3s@);
        r
    }

    /// The batch with `vec3` in every lane.
    pub fn from_broadcast_vec3(vec3: &Vec3<T>) -> (r: PackedVec3<T, N>)
        ensures
            r@ == Seq::new(N as nat, |i: int| *vec3),
    {
        Self::splat(vec3)
    }

    /// The batch with `vec3` in every lane.
    pub fn splat(vec3: &Vec3<T>) -> (r: PackedVec3<T, N>)
        ensures
            r@ == Seq::new(N as nat, |i: int| *vec3),
    {
        let r = PackedVec3 {
            x: Packed::broadcast_scaler(vec3.x),
            y: Packed::broadcast_scaler(vec3.y),
            z: Packed::broadcast_scaler(vec3.z),
        };
        assert(r@ =~= Seq::new(N as nat, |i: int| *vec3));
        r
    }

    /// Replaces the lanes that `mask` selects by those of `values`; the
    /// other lanes keep their vector.
    pub fn assign_masked<M: Mask>(&mut self, values: &PackedVec3<T, N>, mask: Packed<M, N>)
        ensures
            final(self)@ == select_lanes(old(self)@, values@, mask@),
    {
        let mut x = self.x;
        let mut y = self.y;
        let mut z = self.z;
        x.assign_where(&values.x, &mask);
        y.assign_where(&values.y, &mask);
        z.assign_where(&values.z, &mask);
        self.x = x;
        self.y = y;
        self.z = z;
        assert(self@ =~= select_lanes(old(self)@, values@, mask@));
    }

    /// The number of lanes.
    pub fn count() -> (n: usize)
        ensures
            n == N,
    {
        N
    }

    /// The vector in lane `index`.
    pub fn at(&self, index: usize) -> (r: Vec3<T>)
        requires
            index < N,
        ensures
            r == self@[index as int],
    {
        Vec3 { x: self.x.at(index), y: self.y.at(index), z: self.z.at(index) }
    }

    /// Overwrites lane `index` and leaves every other lane as it was.
    pub fn update(&mut self, index: usize, value: Vec3<T>)
        requires
            index < N,
        ensures
            final(self)@ == old(self)@.update(index as int, value),
    {
        let mut x = self.x;
        let mut y = self.y;
        let mut z = self.z;
        x.update(index, value.x);
        y.update(index, value.y);
        z.update(index, value.z);
        self.x = x;
        self.y = y;
        self.z = z;
        assert(self@ =~= old(self)@.update(index as int, value));
    }

    /// The first components of all lanes.
    pub fn x(&self) -> (r: Packed<T, N>)
        ensures
            r@ == Seq::new(N as nat, |i: int| self@[i].x),
    {
        assert(self.x@ =~= Seq::new(N as nat, |i: int| self@[i].x));
        self.x
    }

    /// The second components of all lanes.
    pub fn y(&self) -> (r: Packed<T, N>)
        ensures
            r@ == Seq::new(N as nat, |i: int| self@[i].y),
    {
        assert(self.y@ =~= Seq::new(N as nat, |i: int| self@[i].y));
        self.y
    }

    /// The third components of all lanes.
    pub fn z(&self) -> (r: Packed<T, N>)
        ensures
            r@ == Seq::new(N as nat, |i: int| self@[i].z),
    {
        assert(self.z@ =~= Seq::new(N as nat, |i: int| self@[i].z));
        self.z
    }
}

impl<T: Copy + Default, const N: usize> PackedVec3<T, N> {
    /// The batch with one and the same vector of no length in every lane;
    /// see [`Vec3::zero`].
    pub fn zeros() -> (r: PackedVec3<T, N>)
        ensures
            forall|i: int|
                0 <= i < N ==> {
                    &&& call_ensures(T::default, (), (#[trigger] r@[i]).x)
                    &&& call_ensures(T::default, (), r@[i].y)
                    &&& call_ensures(T::default, (), r@[i].z)
                    &&& r@[i] == r@[0]
                },
    {
        let zero = Vec3::<T>::zero();
        Self::splat(&zero)
    }
}

impl<T: Copy + Add<Output = T>, const N: usize> PackedVec3<T, N> {
    /// Lane by lane, the sum of the vectors of the two batches; see
    /// [`Vec3::add`].
    pub fn add(self, rhs: PackedVec3<T, N>) -> (r: PackedVec3<T, N>)
        requires
            forall|i: int| 0 <= i < N ==> #[trigger] self@[i].add_req(rhs@[i]),
        ensures
            T::obeys_add_spec() ==> r@ == Seq::new(N as nat, |i: int| self@[i].add_spec(rhs@[i])),
    {
        let mut r = self;
        let mut i: usize = 0;
        while i < N
            invariant
                i <= N,
                r@.len() == N,
                forall|j: int| 0 <= j < N ==> #[trigger] self@[j].add_req(rhs@[j]),
                T::obeys_add_spec() ==> forall|j: int|
                    0 <= j < i ==> #[trigger] r@[j] == self@[j].add_spec(rhs@[j]),
            decreases N - i,
        {
            assert(self@[i as int].add_req(rhs@[i as int]));
            let lane = self.at(i).add(rhs.at(i));
            r.update(i, lane);
            i += 1;
        }
        proof {
            if T::obeys_add_spec() {
                assert(r@ =~= Seq::new(N as nat, |i: int| self@[i].add_spec(rhs@[i])));
            }
        }
        r
    }
}

impl<T: Copy + Sub<Output = T>, const N: usize> PackedVec3<T, N> {
    /// Lane by lane, the difference of the vectors of the two batches; see
    /// [`Vec3::sub`].
    pub fn sub(self, rhs: PackedVec3<T, N>) -> (r: PackedVec3<T, N>)
        requires
            forall|i: int| 0 <= i < N ==> #[trigger] self@[i].sub_req(rhs@[i]),
        ensures
            T::obeys_sub_spec() ==> r@ == Seq::new(N as nat, |i: int| self@[i].sub_spec(rhs@[i])),
    {
        let mut r = self;
        let mut i: usize = 0;
        while i < N
            invariant
                i <= N,
                r@.len() == N,
                forall|j: int| 0 <= j < N ==> #[trigger] self@[j].sub_req(rhs@[j]),
                T::obeys_sub_spec() ==> forall|j: int|
                    0 <= j < i ==> #[trigger] r@[j] == self@[j].sub_spec(rhs@[j]),
            decreases N - i,
        {
            assert(self@[i as int].sub_req(rhs@[i as int]));
            let lane = self.at(i).sub(rhs.at(i));
            r.update(i, lane);
            i += 1;
        }
        proof {
            if T::obeys_sub_spec() {
                assert(r@ =~= Seq::new(N as nat, |i: int| self@[i].sub_spec(rhs@[i])));
            }
        }
        r
    }
}

impl<T: Copy + Neg<Output = T>, const N: usize> PackedVec3<T, N> {
    /// Lane by lane, the vector reversed; see [`Vec3::neg`].
    pub fn neg(self) -> (r: PackedVec3<T, N>)
        requires
            forall|i: int| 0 <= i < N ==> #[trigger] self@[i].neg_req(),
        ensures
            T::obeys_neg_spec() ==> r@ == Seq::new(N as nat, |i: int| self@[i].neg_spec()),
    {
        let mut r = self;
        let mut i: usize = 0;
        while i < N
            invariant
                i <= N,
                r@.len() == N,
                forall|j: int| 0 <= j < N ==> #[trigger] self@[j].neg_req(),
                T::obeys_neg_spec() ==> forall|j: int|
                    0 <= j < i ==> #[trigger] r@[j] == self@[j].neg_spec(),
            decreases N - i,
        {
            assert(self@[i as int].neg_req());
            let lane = self.at(i).neg();
            r.update(i, lane);
            i += 1;
        }
        proof {
            if T::obeys_neg_spec() {
                assert(r@ =~= Seq::new(N as nat, |i: int| self@[i].neg_spec()));
            }
        }
        r
    }
}

impl<T: Copy + Mul<Output = T>, const N: usize> PackedVec3<T, N> {
    /// Lane by lane, the vector scaled up by the value of its lane in
    /// `rhs`; see [`Vec3::mul`].
    pub fn mul(self, rhs: Packed<T, N>) -> (r: PackedVec3<T, N>)
        requires
            forall|i: int| 0 <= i < N ==> #[trigger] self@[i].mul_req(rhs@[i]),
        ensures
            T::obeys_mul_spec() ==> r@ == Seq::new(N as nat, |i: int| self@[i].mul_spec(rhs@[i])),
    {
        let mut r = self;
        let mut i: usize = 0;
        while i < N
            invariant
                i <= N,
                r@.len() == N,
                forall|j: int| 0 <= j < N ==> #[trigger] self@[j].mul_req(rhs@[j]),
                T::obeys_mul_spec() ==> forall|j: int|
                    0 <= j < i ==> #[trigger] r@[j] == self@[j].mul_spec(rhs@[j]),
            decreases N - i,
        {
            assert(self@[i as int].mul_req(rhs@[i as int]));
            let lane = self.at(i).mul(rhs.at(i));
            r.update(i, lane);
            i += 1;
        }
        proof {
            if T::obeys_mul_spec() {
                assert(r@ =~= Seq::new(N as nat, |i: int| self@[i].mul_spec(rhs@[i])));
            }
        }
        r
    }
}

impl<T: Copy + Div<Output = T>, const N: usize> PackedVec3<T, N> {
    /// Lane by lane, the vector scaled down by the value of its lane in
    /// `rhs`; see [`Vec3::div`].
    pub fn div(self, rhs: Packed<T, N>) -> (r: PackedVec3<T, N>)
        requires
            forall|i: int| 0 <= i < N ==> #[trigger] self@[i].div_req(rhs@[i]),
        ensures
            T::obeys_div_spec() ==> r@ == Seq::new(N as nat, |i: int| self@[i].div_spec(rhs@[i])),
    {
        let mut r = self;
        let mut i: usize = 0;
        while i < N
            invariant
                i <= N,
                r@.len() == N,
                forall|j: int| 0 <= j < N ==> #[trigger] self@[j].div_req(rhs@[j]),
                T::obeys_div_spec() ==> forall|j: int|
                    0 <= j < i ==> #[trigger] r@[j] == self@[j].div_spec(rhs@[j]),
            decreases N - i,
        {
            assert(self@[i as int].div_req(rhs@[i as int]));
            let lane = self.at(i).div(rhs.at(i));
            r.update(i, lane);
            i += 1;
        }
        proof {
            if T::obeys_div_spec() {
                assert(r@ =~= Seq::new(N as nat, |i: int| self@[i].div_spec(rhs@[i])));
            }
        }
        r
    }
}

impl<T: Copy + Add<Output = T> + Mul<Output = T>, const N: usize> PackedVec3<T, N> {
    /// Lane by lane, the dot product of the vectors of the two batches;
    /// see [`Vec3::dot`].
    pub fn dot(&self, rhs: &PackedVec3<T, N>) -> (r: Packed<T, N>)
        requires
            forall|i: int| 0 <= i < N ==> #[trigger] self@[i].dot_req(rhs@[i]),
        ensures
            r@ == Seq::new(N as nat, |i: int| self@[i].dot_spec(rhs@[i])),
    {
        let mut r = self.x;
        let mut i: usize = 0;
        while i < N
            invariant
                i <= N,
                r@.len() == N,
                forall|j: int| 0 <= j < N ==> #[trigger] self@[j].dot_req(rhs@[j]),
                forall|j: int| 0 <= j < i ==> #[trigger] r@[j] == self@[j].dot_spec(rhs@[j]),
            decreases N - i,
        {
            assert(self@[i as int].dot_req(rhs@[i as int]));
            let lane = self.at(i).dot(&rhs.at(i));
            r.update(i, lane);
            i += 1;
        }
        assert(r@ =~= Seq::new(N as nat, |i: int| self@[i].dot_spec(rhs@[i])));
        r
    }

    /// Lane by lane, the square of the length of the vector; see
    /// [`Vec3::length_squared`].
    pub fn length_squared(&self) -> (r: Packed<T, N>)
        requires
            forall|i: int| 0 <= i < N ==> #[trigger] self@[i].dot_req(self@[i]),
        ensures
            r@ == Seq::new(N as nat, |i: int| self@[i].dot_spec(self@[i])),
    {
        self.dot(self)
    }
}

impl<T: Number, const N: usize> PackedVec3<T, N> {
    /// Lane by lane, the length of the vector; see [`Vec3::length`].
    pub fn length<S: Fn(T) -> T>(&self, sqrt: &S) -> (r: Packed<T, N>)
        requires
            total_arithmetic::<T>(),
            answers_all(sqrt),
        ensures
            forall|i: int|
                0 <= i < N ==> sqrt.ensures((self@[i].dot_spec(self@[i]),), #[trigger] r@[i]),
    {
        let squares = self.length_squared();
        let r = squares.map(sqrt);
        proof {
            assert forall|i: int| 0 <= i < N implies sqrt.ensures(
                (self@[i].dot_spec(self@[i]),),
                #[trigger] r@[i],
            ) by {
                assert(squares@[i] == self@[i].dot_spec(self@[i]));
            }
        }
        r
    }

    /// Lane by lane, the vector of the same direction and of length one;
    /// see [`Vec3::unit`].
    pub fn unit_vector<S: Fn(T) -> T>(&self, sqrt: &S) -> (r: PackedVec3<T, N>)
        requires
            total_arithmetic::<T>(),
            answers_all(sqrt),
        ensures
            forall|i: int| 0 <= i < N ==> self@[i].has_unit(sqrt, #[trigger] r@[i]),
    {
        let lengths = self.length(sqrt);
        let r = self.div(lengths);
        proof {
            assert forall|i: int| 0 <= i < N implies self@[i].has_unit(sqrt, #[trigger] r@[i]) by {
                assert(sqrt.ensures((self@[i].dot_spec(self@[i]),), lengths@[i]));
                assert(r@[i] == self@[i].div_spec(lengths@[i]));
            }
        }
        r
    }
}

} // verus!
