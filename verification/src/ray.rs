//! Rays, alone and in batches of `N` lanes with a mask of the lanes in use.

use crate::geometry::{lemma_packed_vec3_len, PackedPoint3, PackedVec3, Point3, Vec3};
use crate::packed::{lemma_packed_len, Mask, Packed, Scaler};
use core::ops::{Add, Mul};
use vstd::prelude::*;
use vstd::std_specs::ops::{AddSpec, MulSpec};

verus! {

broadcast use {lemma_packed_len, lemma_packed_vec3_len};

/// A half-line: where it starts and which way it goes.
#[derive(Clone, Copy, Debug, PartialEq)]
pub struct Ray<T> {
    pub origin: Point3<T>,
    pub direction: Vec3<T>,
}

impl<T: Copy> Ray<T> {
    pub fn new(origin: Point3<T>, direction: Vec3<T>) -> (r: Ray<T>)
        ensures
            r == (Ray { origin, direction }),
    {
        Ray { origin, direction }
    }

    pub fn origin(&self) -> (r: Point3<T>)
        ensures
            r == self.origin,
    {
        self.origin
    }

    pub fn direction(&self) -> (r: Vec3<T>)
        ensures
            r == self.direction,
    {
        self.direction
    }
}

impl<T: Copy + Add<Output = T> + Mul<Output = T>> Ray<T> {
    /// Whether the point at the parameter `t` can be computed: scaling the
    /// direction follows its specification, and no step fails (for an
    /// integer: overflows).
    pub open spec fn at_req(self, t: T) -> bool {
        &&& T::obeys_mul_spec()
        &&& self.direction.mul_req(t)
        &&& self.origin.add_req(self.direction.mul_spec(t))
    }

    /// The point of the ray at the parameter `t`: the origin plus `t`
    /// times the direction.
    pub open spec fn at_spec(self, t: T) -> Point3<T> {
        self.origin.add_spec(self.direction.mul_spec(t))
    }

    /// The point of the ray at the parameter `t`.
    pub fn at(&self, t: T) -> (r: Point3<T>)
        requires
            self.at_req(t),
        ensures
            T::obeys_add_spec() ==> r == self.at_spec(t),
    {
        self.origin.add(self.direction.mul(t))
    }
}

/// What one lane of a batch of rays holds: the ray stored there, and
/// whether the lane is in use.
pub struct RayLane<T> {
    pub ray: Ray<T>,
    pub enabled: bool,
}

/// `N` rays, one in each lane. A lane that is not enabled keeps the ray it
/// held last, which no longer takes part in tracing.
#[derive(Clone, Copy, Debug)]
pub struct PackedRays<T: Scaler, const N: usize> {
    origins: PackedPoint3<T, N>,
    directions: PackedVec3<T, N>,
    enabled: Packed<T::MaskType, N>,
}

impl<T: Scaler, const N: usize> View for PackedRays<T, N> {
    type V = Seq<RayLane<T>>;

    closed spec fn view(&self) -> Seq<RayLane<T>> {
        Seq::new(
            N as nat,
            |i: int|
                RayLane {
                    ray: Ray { origin: self.origins@[i], direction: self.directions@[i] },
                    enabled: self.enabled@[i].is_set(),
                },
        )
    }
}

/// A batch of rays has exactly `N` lanes.
pub broadcast proof fn lemma_packed_rays_len<T: Scaler, const N: usize>(p: PackedRays<T, N>)
    ensures
        #[trigger] p@.len() == N,
{
}

impl<T: Scaler, const N: usize> PackedRays<T, N> {
    /// Which lanes are enabled.
    pub open spec fn enabled_lanes(&self) -> Seq<bool> {
        Seq::new(N as nat, |i: int| self@[i].enabled)
    }

    /// The batch of the given rays, every lane enabled.
    pub fn new(origins: PackedPoint3<T, N>, directions: PackedVec3<T, N>) -> (r: PackedRays<T, N>)
        ensures
            r@ == Seq::new(
                N as nat,
                |i: int|
                    RayLane {
                        ray: Ray { origin: origins@[i], direction: directions@[i] },
                        enabled: true,
                    },
            ),
    {
        proof {
            T::MaskType::lemma_mask_laws();
        }
        let r = PackedRays { origins, directions, enabled: Packed::broadcast_bool(true) };
        assert(r@ =~= Seq::new(
            N as nat,
            |i: int|
                RayLane {
                    ray: Ray { origin: origins@[i], direction: directions@[i] },
                    enabled: true,
                },
        ));
        r
    }

    /// The batch of the given rays, with the lanes enabled that `enabled`
    /// selects.
    pub fn new_with_enable(
        origins: PackedPoint3<T, N>,
        directions: PackedVec3<T, N>,
        enabled: Packed<T::MaskType, N>,
    ) -> (r: PackedRays<T, N>)
        ensures
            r@ == Seq::new(
                N as nat,
                |i: int|
                    RayLane {
                        ray: Ray { origin: origins@[i], direction: directions@[i] },
                        enabled: enabled@[i].is_set(),
                    },
            ),
    {
        PackedRays { origins, directions, enabled }
    }

    /// Where the rays of all lanes start.
    pub fn origins(&self) -> (r: PackedPoint3<T, N>)
        ensures
            r@ == Seq::new(N as nat, |i: int| self@[i].ray.origin),
    {
        assert(self.origins@ =~= Seq::new(N as nat, |i: int| self@[i].ray.origin));
        self.origins
    }

    /// Which way the rays of all lanes go.
    pub fn directions(&self) -> (r: PackedPoint3<T, N>)
        ensures
            r@ == Seq::new(N as nat, |i: int| self@[i].ray.direction),
    {
        assert(self.directions@ =~= Seq::new(N as nat, |i: int| self@[i].ray.direction));
        self.directions
    }

    /// The mask of the enabled lanes.
    pub fn enabled(&self) -> (r: Packed<T::MaskType, N>)
        ensures
            r.bits() == Seq::new(N as nat, |i: int| self@[i].enabled),
    {
        assert(self.enabled.bits() =~= Seq::new(N as nat, |i: int| self@[i].enabled));
        self.enabled
    }

    /// Whether lane `index` is enabled.
    pub fn is_enabled(&self, index: usize) -> (b: bool)
        requires
            index < N,
        ensures
            b == self@[index as int].enabled,
    {
        self.enabled.at(index).to_bool()
    }

    /// The number of lanes.
    pub fn count() -> (n: usize)
        ensures
            n == N,
    {
        N
    }

    /// The ray of lane `index`, or nothing if that lane is not enabled.
    pub fn at(&self, index: usize) -> (r: Option<Ray<T>>)
        requires
            index < N,
        ensures
            r == (if self@[index as int].enabled {
                Some(self@[index as int].ray)
            } else {
                None
            }),
    {
        if self.enabled.at(index).to_bool() {
            Some(Ray::new(self.origins.at(index), self.directions.at(index)))
        } else {
            None
        }
    }

    /// The ray stored in lane `index`, whether the lane is enabled or not.
    pub fn at_including_disabled(&self, index: usize) -> (r: Ray<T>)
        requires
            index < N,
        ensures
            r == self@[index as int].ray,
    {
        Ray::new(self.origins.at(index), self.directions.at(index))
    }

    /// Puts `value` into lane `index` and enables the lane.
    pub fn update(&mut self, index: usize, value: Ray<T>)
        requires
            index < N,
        ensures
            final(self)@ == old(self)@.update(index as int, RayLane { ray: value, enabled: true }),
    {
        self.update_with_enable(index, value, true);
    }

    /// Puts `value` into lane `index` and enables or disables the lane.
    pub fn update_with_enable(&mut self, index: usize, value: Ray<T>, enable: bool)
        requires
            index < N,
        ensures
            final(self)@ == old(self)@.update(
                index as int,
                RayLane { ray: value, enabled: enable },
            ),
    {
        proof {
            T::MaskType::lemma_mask_laws();
        }
        let mut origins = self.origins;
        let mut directions = self.directions;
        let mut enabled = self.enabled;
        origins.update(index, value.origin);
        directions.update(index, value.direction);
        enabled.update(index, T::MaskType::mask_from_bool(enable));
        self.origins = origins;
        self.directions = directions;
        self.enabled = enabled;
        assert(self@ =~= old(self)@.update(index as int, RayLane { ray: value, enabled: enable }));
    }

    /// Whether any lane is enabled.
    pub fn any_enabled(&self) -> (b: bool)
        ensures
            b == (exists|i: int| 0 <= i < N && self@[i].enabled),
    {
        let b = self.enabled.any();
        proof {
            if b {
                let i = choose|i: int| 0 <= i < N && self.enabled@[i].is_set();
                assert(self@[i].enabled);
            } else {
                assert forall|i: int| 0 <= i < N implies !self@[i].enabled by {
                    assert(!self.enabled@[i].is_set());
                }
            }
        }
        b
    }

    /// Enables lane `index`; its ray stays.
    pub fn enable(&mut self, index: usize)
        requires
            index < N,
        ensures
            final(self)@ == old(self)@.update(
                index as int,
                RayLane { ray: old(self)@[index as int].ray, enabled: true },
            ),
    {
        self.set_enabled(index, true);
    }

    /// Disables lane `index`; its ray stays.
    pub fn disable(&mut self, index: usize)
        requires
            index < N,
        ensures
            final(self)@ == old(self)@.update(
                index as int,
                RayLane { ray: old(self)@[index as int].ray, enabled: false },
            ),
    {
        self.set_enabled(index, false);
    }

    fn set_enabled(&mut self, index: usize, enable: bool)
        requires
            index < N,
        ensures
            final(self)@ == old(self)@.update(
                index as int,
                RayLane { ray: old(self)@[index as int].ray, enabled: enable },
            ),
    {
        proof {
            T::MaskType::lemma_mask_laws();
        }
        let mut enabled = self.enabled;
        enabled.update(index, T::MaskType::mask_from_bool(enable));
        self.enabled = enabled;
        assert(self@ =~= old(self)@.update(
            index as int,
            RayLane { ray: old(self)@[index as int].ray, enabled: enable },
        ));
    }

    /// The batch whose first lanes hold the rays of `rays`, enabled, and
    /// whose other lanes hold `idle` and are not enabled.
    pub fn from_iter(rays: &[Ray<T>], idle: Ray<T>) -> (r: PackedRays<T, N>)
        requires
            rays@.len() <= N,
        ensures
            r@ == Seq::new(
                N as nat,
                |i: int|
                    if i < rays@.len() {
                        RayLane { ray: rays@[i], enabled: true }
                    } else {
                        RayLane { ray: idle, enabled: false }
                    },
            ),
    {
        proof {
            T::MaskType::lemma_mask_laws();
        }
        let mut packed_rays = PackedRays {
            origins: PackedVec3::splat(&idle.origin),
            directions: PackedVec3::splat(&idle.direction),
            enabled: Packed::broadcast_bool(false),
        };
        let mut index: usize = 0;
        while index < rays.len()
            invariant
                index <= rays@.len() <= N,
                packed_rays@.len() == N,
                forall|i: int|
                    0 <= i < index ==> #[trigger] packed_rays@[i] == (RayLane {
                        ray: rays@[i],
                        enabled: true,
                    }),
                forall|i: int|
                    index <= i < N ==> #[trigger] packed_rays@[i] == (RayLane {
                        ray: idle,
                        enabled: false,
                    }),
            decreases rays.len() - index,
        {
            packed_rays.update(index, rays[index]);
            index += 1;
        }
        assert(packed_rays@ =~= Seq::new(
            N as nat,
            |i: int|
                if i < rays@.len() {
                    RayLane { ray: rays@[i], enabled: true }
                } else {
                    RayLane { ray: idle, enabled: false }
                },
        ));
        packed_rays
    }

    /// The rays of `rays` in batches of `N`, in their order. If the last
    /// batch is not filled, its other lanes hold `idle` and are not
    /// enabled.
    pub fn pack(rays: &[Ray<T>], idle: Ray<T>) -> (r: Vec<PackedRays<T, N>>)
        requires
            N >= 1,
        ensures
            (r@.len() - 1) * N < rays@.len() <= r@.len() * N || (r@.len() == 0 && rays@.len()
                == 0),
            forall|chunk: int, slot: int|
                0 <= chunk < r@.len() && 0 <= slot < N ==> #[trigger] r@[chunk]@[slot] == (if chunk
                    * N + slot < rays@.len() {
                    RayLane { ray: rays@[chunk * N + slot], enabled: true }
                } else {
                    RayLane { ray: idle, enabled: false }
                }),
    {
        let mut r: Vec<PackedRays<T, N>> = Vec::new();
        let mut start: usize = 0;
        proof {
            assert(0 * N == 0);
        }
        loop
            invariant_except_break
                start == r@.len() * N,
                forall|chunk: int, slot: int|
                    0 <= chunk < r@.len() && 0 <= slot < N ==> #[trigger] r@[chunk]@[slot] == (
                    RayLane { ray: rays@[chunk * N + slot], enabled: true }),
            invariant
                N >= 1,
                start <= rays@.len(),
            ensures
                (r@.len() - 1) * N < rays@.len() <= r@.len() * N || (r@.len() == 0 && rays@.len()
                    == 0),
                forall|chunk: int, slot: int|
                    0 <= chunk < r@.len() && 0 <= slot < N ==> #[trigger] r@[chunk]@[slot] == (
                    if chunk * N + slot < rays@.len() {
                        RayLane { ray: rays@[chunk * N + slot], enabled: true }
                    } else {
                        RayLane { ray: idle, enabled: false }
                    }),
            decreases rays.len() - start,
        {
            if start >= rays.len() {
                proof {
                    let len = r@.len() as int;
                    assert((len - 1) * N == len * N - N) by (nonlinear_arith);
                    assert forall|chunk: int, slot: int|
                        0 <= chunk < r@.len() && 0 <= slot < N implies #[trigger] r@[chunk]@[slot]
                        == (if chunk * N + slot < rays@.len() {
                        RayLane { ray: rays@[chunk * N + slot], enabled: true }
                    } else {
                        RayLane { ray: idle, enabled: false }
                    }) by {
                        assert(chunk * N + slot < len * N) by (nonlinear_arith)
                            requires
                                0 <= chunk < len,
                                0 <= slot < N,
                        ;
                    }
                }
                break ;
            }
            let left = rays.len() - start;
            let take = if left < N {
                left
            } else {
                N
            };
            let chunk = vstd::slice::slice_subrange(rays, start, start + take);
            let batch = Self::from_iter(chunk, idle);
            let ghost before = r@;
            r.push(batch);
            proof {
                let last = before.len() as int;
                assert((last + 1) * N == last * N + N) by (nonlinear_arith);
                assert forall|c: int, slot: int|
                    0 <= c < r@.len() && 0 <= slot < N implies #[trigger] r@[c]@[slot] == (if c * N
                    + slot < rays@.len() {
                    RayLane { ray: rays@[c * N + slot], enabled: true }
                } else {
                    RayLane { ray: idle, enabled: false }
                }) by {
                    if c < last {
                        assert(c * N + slot < last * N) by (nonlinear_arith)
                            requires
                                0 <= c < last,
                                0 <= slot < N,
                        ;
                        assert(r@[c]@[slot] == before[c]@[slot]);
                    } else {
                        assert(r@[c] == batch);
                        if slot < take {
                            assert(chunk@[slot] == rays@[start + slot]);
                        }
                    }
                }
            }
            if left < N {
                break ;
            }
            start += N;
        }
        r
    }
}

impl<T: Scaler + Add<Output = T> + Mul<Output = T>, const N: usize> PackedRays<T, N> {
    /// For each lane, the point of its ray at the parameter of that lane
    /// in `t`; see [`Ray::at`]. The lanes that are not enabled take part
    /// with the ray that they hold.
    pub fn at_t(&self, t: Packed<T, N>) -> (r: PackedPoint3<T, N>)
        requires
            forall|i: int| 0 <= i < N ==> #[trigger] self@[i].ray.at_req(t@[i]),
        ensures
            T::obeys_add_spec() ==> r@ == Seq::new(
                N as nat,
                |i: int| self@[i].ray.at_spec(t@[i]),
            ),
    {
        let mut r = self.origins;
        let mut i: usize = 0;
        while i < N
            invariant
                i <= N,
                r@.len() == N,
                forall|j: int| 0 <= j < N ==> #[trigger] self@[j].ray.at_req(t@[j]),
                T::obeys_add_spec() ==> forall|j: int|
                    0 <= j < i ==> #[trigger] r@[j] == self@[j].ray.at_spec(t@[j]),
            decreases N - i,
        {
            assert(self@[i as int].ray.at_req(t@[i as int]));
            let point = self.at_including_disabled(i).at(t.at(i));
            r.update(i, point);
            i += 1;
        }
        proof {
            if T::obeys_add_spec() {
                assert(r@ =~= Seq::new(N as nat, |i: int| self@[i].ray.at_spec(t@[i])));
            }
        }
        r
    }
}

} // verus!
