//! The tracers: a scene of surfaces and the ways to trace rays against
//! it, one ray at a time or in batches whose lanes advance together.
//!
//! A tracer is handed three functions: what a ray, or the rays of a batch,
//! find among the surfaces, how two colors are joined, and what color the
//! sky has. The tracers decide which lane takes part in which bounce, when
//! a trace ends, and what each lane hands in. For a scene of the surfaces
//! and materials of this library, [`Scene::find`] and [`Scene::bounce`]
//! are what rays find.

use crate::color::{lemma_packed_color_len, Color, PackedColor};
use crate::compaction::{compact_in_place, compact_into, flat};
use crate::lanes::{lane_at_start, lemma_trace_batch_len, lit_by_sky, TraceBatch};
use crate::geometry::Vec3;
use crate::model::{
    batch_as_computed, bounce_accepts, color_rows, colors_as_computed, ended, front_bounced,
    kernel_computes, lane_color, lane_of_ray, lemma_handed_in_as_computed,
    lemma_list_colors_of_rays, lemma_list_traced_as_computed, lemma_resting_lane_keeps_color,
    lemma_traced_as_computed, handed_in_after, list_ended, list_traced_after, may_bring_back,
    may_hand_in, may_trace,
    may_trace_list, one_bounced, path_as_computed, ray_as_computed, rearranged, scalar_computes,
    sky_accepts, starts_batch, starts_list, traced_colors,
};
use crate::materials::Material;
use crate::numbers::{answers_all, total_arithmetic, Number};
use crate::objects::{
    fresh_records, lemma_hit_records_len, may_finalize, nearest, nearest_of, HitLane, HitRecord,
    HitResult, Object, PackedHitRecords,
};
use crate::packed::{lemma_packed_len, Mask, Scaler};
use crate::ray::{lemma_packed_rays_len, PackedRays, Ray};
use core::ops::Range;
use vstd::prelude::*;

verus! {

broadcast use {
    lemma_hit_records_len,
    lemma_packed_color_len,
    lemma_packed_len,
    lemma_packed_rays_len,
    lemma_trace_batch_len,
};

/// The batches with which the rays of a list of batches start their trace.
pub fn start_batches<T: Scaler, const N: usize>(
    rays: &Vec<PackedRays<T, N>>,
    white: Color<T>,
    black: Color<T>,
) -> (batches: Vec<TraceBatch<T, N>>)
    ensures
        starts_list(rays@, batches@, white, black),
{
    let mut batches: Vec<TraceBatch<T, N>> = Vec::new();
    let mut j: usize = 0;
    while j < rays.len()
        invariant
            j <= rays.len(),
            batches@.len() == j,
            forall|c: int|
                0 <= c < j ==> starts_batch(rays@[c], #[trigger] batches@[c], white, black),
        decreases rays.len() - j,
    {
        batches.push(TraceBatch::new(rays[j], white, black));
        j += 1;
    }
    batches
}

/// The colors that the lanes of a list of batches hand in when their
/// trace ends.
pub fn end_colors<T: Scaler, const N: usize, G, H>(
    batches: &Vec<TraceBatch<T, N>>,
    black: Color<T>,
    attenuate: &G,
    sky: &H,
) -> (colors: Vec<PackedColor<T, N>>) where
    G: Fn(Color<T>, Color<T>) -> Color<T>,
    H: Fn(&Ray<T>) -> Color<T>,

    requires
        sky_accepts(attenuate, sky),
    ensures
        list_ended(attenuate, sky, batches@, colors@, black),
{
    let mut colors: Vec<PackedColor<T, N>> = Vec::new();
    let mut j: usize = 0;
    while j < batches.len()
        invariant
            j <= batches.len(),
            colors@.len() == j,
            sky_accepts(attenuate, sky),
            forall|c: int, i: int|
                0 <= c < j && 0 <= i < N ==> ended(
                    attenuate,
                    sky,
                    batches@[c]@[i],
                    #[trigger] colors@[c]@[i],
                    black,
                ),
        decreases batches.len() - j,
    {
        let lit = batches[j].light(attenuate, sky);
        let done = batches[j].finish(&lit, black);
        proof {
            assert forall|i: int| 0 <= i < N implies ended(
                attenuate,
                sky,
                batches@[j as int]@[i],
                #[trigger] done@[i],
                black,
            ) by {
                assert(lit_by_sky(attenuate, sky, batches@[j as int]@[i], lit@[i]));
            }
        }
        colors.push(done);
        j += 1;
    }
    colors
}

/// The surfaces that rays are traced against.
#[derive(Clone, Debug)]
pub struct Scene<O> {
    objects: Vec<O>,
}

impl<O> View for Scene<O> {
    type V = Seq<O>;

    closed spec fn view(&self) -> Seq<O> {
        self.objects@
    }
}

impl<O> Scene<O> {
    /// The scene without any surface.
    pub fn new() -> (r: Scene<O>)
        ensures
            r@ == Seq::<O>::empty(),
    {
        Scene { objects: Vec::new() }
    }

    /// The scene of the surfaces of `list`, in their order.
    pub fn from_list(list: Vec<O>) -> (r: Scene<O>)
        ensures
            r@ == list@,
    {
        Scene { objects: list }
    }

    /// Adds a surface after those that the scene holds.
    pub fn add(&mut self, object: O)
        ensures
            final(self)@ == old(self)@.push(object),
    {
        self.objects.push(object);
    }

    /// The surfaces of the scene, in their order.
    pub fn objects(&self) -> (r: &Vec<O>)
        ensures
            r@ == self@,
    {
        &self.objects
    }

    /// One bounce of one batch: asks `bounce` what the rays of the batch
    /// find among the surfaces of the scene, and lets every active lane
    /// take what its ray found.
    pub fn bounce_batch<T: Scaler, const N: usize, F, G>(
        &self,
        batch: &mut TraceBatch<T, N>,
        bounce: &F,
        attenuate: &G,
    ) where
        F: Fn(&Scene<O>, &PackedRays<T, N>) -> [Option<HitResult<T>>; N],
        G: Fn(Color<T>, Color<T>) -> Color<T>,

        requires
            bounce_accepts::<T, O, N, F, G>(bounce, attenuate),
        ensures
            one_bounced(self, bounce, attenuate, *old(batch), *final(batch)),
    {
        let packed = batch.rays();
        let found = bounce(self, &packed);
        batch.shade(&found, attenuate);
    }

    /// One bounce of the first `active` batches of a list. The batches
    /// after them stay as they are.
    pub fn bounce_front<T: Scaler, const N: usize, F, G>(
        &self,
        batches: &mut Vec<TraceBatch<T, N>>,
        active: usize,
        bounce: &F,
        attenuate: &G,
    ) where
        F: Fn(&Scene<O>, &PackedRays<T, N>) -> [Option<HitResult<T>>; N],
        G: Fn(Color<T>, Color<T>) -> Color<T>,

        requires
            bounce_accepts::<T, O, N, F, G>(bounce, attenuate),
            active <= old(batches)@.len(),
        ensures
            front_bounced(self, bounce, attenuate, old(batches)@, active, final(batches)@),
    {
        let mut j: usize = 0;
        while j < active
            invariant
                j <= active <= batches@.len(),
                batches@.len() == old(batches)@.len(),
                bounce_accepts::<T, O, N, F, G>(bounce, attenuate),
                forall|chunk: int|
                    j <= chunk < batches@.len() ==> batches@[chunk] == old(batches)@[chunk],
                forall|chunk: int|
                    0 <= chunk < j ==> one_bounced(
                        self,
                        bounce,
                        attenuate,
                        old(batches)@[chunk],
                        #[trigger] batches@[chunk],
                    ),
            decreases active - j,
        {
            let mut batch = batches[j];
            self.bounce_batch(&mut batch, bounce, attenuate);
            batches[j] = batch;
            j += 1;
        }
    }

    /// Carries the trace of a list of batches on, for at most
    /// `depth_limit` bounces, and returns the colors that the lanes hand
    /// in. The first `active` batches are in use. After each bounce the
    /// active lanes are brought to the front, in place or by way of the
    /// second list `spare`.
    fn advance_list<T: Scaler, const N: usize, F, G, H>(
        &self,
        batches: Vec<TraceBatch<T, N>>,
        spare: Vec<TraceBatch<T, N>>,
        active: usize,
        in_place: bool,
        depth_limit: usize,
        black: Color<T>,
        bounce: &F,
        attenuate: &G,
        sky: &H,
    ) -> (colors: Vec<PackedColor<T, N>>) where
        F: Fn(&Scene<O>, &PackedRays<T, N>) -> [Option<HitResult<T>>; N],
        G: Fn(Color<T>, Color<T>) -> Color<T>,
        H: Fn(&Ray<T>) -> Color<T>,

        requires
            N >= 1,
            bounce_accepts::<T, O, N, F, G>(bounce, attenuate),
            sky_accepts(attenuate, sky),
            active <= batches@.len(),
            !in_place ==> spare@.len() == batches@.len(),
        ensures
            colors@.len() == batches@.len(),
            may_trace_list(
                self,
                bounce,
                attenuate,
                sky,
                batches@,
                active,
                in_place,
                depth_limit as nat,
                black,
                colors@,
            ),
    {
        let ghost start = batches@;
        let ghost start_active = active;
        let mut batches = batches;
        let mut spare = spare;
        let mut last_active_chunk = active;
        let mut left = depth_limit;
        while left > 0 && last_active_chunk > 0
            invariant
                N >= 1,
                bounce_accepts::<T, O, N, F, G>(bounce, attenuate),
                left <= depth_limit,
                batches@.len() == start.len(),
                last_active_chunk <= batches@.len(),
                !in_place ==> spare@.len() == batches@.len(),
                forall|colors: Seq<PackedColor<T, N>>| #[trigger]
                    may_trace_list(
                        self,
                        bounce,
                        attenuate,
                        sky,
                        batches@,
                        last_active_chunk,
                        in_place,
                        left as nat,
                        black,
                        colors,
                    ) ==> may_trace_list(
                        self,
                        bounce,
                        attenuate,
                        sky,
                        start,
                        start_active,
                        in_place,
                        depth_limit as nat,
                        black,
                        colors,
                    ),
            decreases left,
        {
            let ghost before = batches@;
            let ghost before_active = last_active_chunk;
            let ghost before_left = left;
            self.bounce_front(&mut batches, last_active_chunk, bounce, attenuate);
            let ghost bounced = batches@;
            if in_place {
                last_active_chunk = compact_in_place(&mut batches);
            } else {
                last_active_chunk = compact_into(&batches, &mut spare);
                core::mem::swap(&mut batches, &mut spare);
            }
            left -= 1;
            proof {
                assert forall|colors: Seq<PackedColor<T, N>>| #[trigger]
                    may_trace_list(
                        self,
                        bounce,
                        attenuate,
                        sky,
                        batches@,
                        last_active_chunk,
                        in_place,
                        left as nat,
                        black,
                        colors,
                    ) implies may_trace_list(
                    self,
                    bounce,
                    attenuate,
                    sky,
                    start,
                    start_active,
                    in_place,
                    depth_limit as nat,
                    black,
                    colors,
                ) by {
                    assert(front_bounced(self, bounce, attenuate, before, before_active, bounced));
                    assert(rearranged(bounced, batches@, last_active_chunk, in_place));
                    assert((before_left - 1) as nat == left as nat);
                    assert(list_traced_after(
                        self,
                        bounce,
                        attenuate,
                        sky,
                        bounced,
                        in_place,
                        left as nat,
                        black,
                        colors,
                    ));
                    assert(may_trace_list(
                        self,
                        bounce,
                        attenuate,
                        sky,
                        before,
                        before_active,
                        in_place,
                        before_left as nat,
                        black,
                        colors,
                    ));
                }
            }
        }
        let colors = end_colors(&batches, black, attenuate, sky);
        proof {
            assert(may_trace_list(
                self,
                bounce,
                attenuate,
                sky,
                batches@,
                last_active_chunk,
                in_place,
                left as nat,
                black,
                colors@,
            ));
        }
        colors
    }

    /// Traces the rays of a list of batches together; the common course of
    /// [`Scene::trace_vectorized2`] and [`Scene::trace_vectorized3`].
    fn trace_batches<T: Scaler, const N: usize, F, G, H>(
        &self,
        rays: &Vec<PackedRays<T, N>>,
        depth_limit: usize,
        white: Color<T>,
        black: Color<T>,
        bounce: &F,
        attenuate: &G,
        sky: &H,
        in_place: bool,
    ) -> (colors: Vec<PackedColor<T, N>>) where
        F: Fn(&Scene<O>, &PackedRays<T, N>) -> [Option<HitResult<T>>; N],
        G: Fn(Color<T>, Color<T>) -> Color<T>,
        H: Fn(&Ray<T>) -> Color<T>,

        requires
            N >= 1,
            bounce_accepts::<T, O, N, F, G>(bounce, attenuate),
            sky_accepts(attenuate, sky),
        ensures
            colors@.len() == rays@.len(),
            exists|start: Seq<TraceBatch<T, N>>|
                (#[trigger] starts_list(rays@, start, white, black)) && may_trace_list(
                    self,
                    bounce,
                    attenuate,
                    sky,
                    start,
                    rays@.len() as usize,
                    in_place,
                    depth_limit as nat,
                    black,
                    colors@,
                ),
            depth_limit == 0 ==> forall|j: int, i: int|
                0 <= j < rays@.len() && 0 <= i < N ==> #[trigger] colors@[j]@[i] == black,
            colors_as_computed(
                self,
                bounce,
                attenuate,
                sky,
                rays@,
                colors@,
                white,
                black,
                depth_limit as nat,
            ),
    {
        let batches = start_batches(rays, white, black);
        let spare = if in_place {
            Vec::new()
        } else {
            start_batches(rays, white, black)
        };
        let ghost start = batches@;
        let in_use = batches.len();
        let colors = self.advance_list(
            batches,
            spare,
            in_use,
            in_place,
            depth_limit,
            black,
            bounce,
            attenuate,
            sky,
        );
        proof {
            assert(starts_list(rays@, start, white, black));
            if depth_limit == 0 {
                assert forall|j: int, i: int|
                    0 <= j < rays@.len() && 0 <= i < N implies #[trigger] colors@[j]@[i]
                    == black by {
                    assert(starts_batch(rays@[j], start[j], white, black));
                    assert(ended(attenuate, sky, start[j]@[i], colors@[j]@[i], black));
                }
            }
            assert forall|
                hit: spec_fn(Ray<T>) -> Option<HitResult<T>>,
                join: spec_fn(Color<T>, Color<T>) -> Color<T>,
                light: spec_fn(Ray<T>) -> Color<T>,
            | #[trigger] kernel_computes(self, bounce, attenuate, sky, hit, join, light) implies flat(
                color_rows(colors@),
                N as int,
            ).to_multiset() == traced_colors(
                rays@,
                hit,
                join,
                light,
                white,
                black,
                depth_limit as nat,
            ).to_multiset() by {
                lemma_list_traced_as_computed(
                    self,
                    bounce,
                    attenuate,
                    sky,
                    hit,
                    join,
                    light,
                    start,
                    in_use,
                    in_place,
                    depth_limit as nat,
                    black,
                    colors@,
                );
                lemma_list_colors_of_rays(
                    rays@,
                    start,
                    hit,
                    join,
                    light,
                    white,
                    black,
                    depth_limit as nat,
                );
            }
        }
        colors
    }

    /// Traces the rays of a list of batches together, for at most
    /// `depth_limit` bounces, and returns the colors that the lanes hand
    /// in. After each bounce the lanes are copied into a second list, the
    /// active lanes first, so that only the batches at the front take part
    /// in the next bounce. The colors come in the order in which the lanes
    /// stand at the end, which is not that of the rays.
    pub fn trace_vectorized2<T: Scaler, const N: usize, F, G, H>(
        &self,
        rays: &Vec<PackedRays<T, N>>,
        depth_limit: usize,
        white: Color<T>,
        black: Color<T>,
        bounce: &F,
        attenuate: &G,
        sky: &H,
    ) -> (colors: Vec<PackedColor<T, N>>) where
        F: Fn(&Scene<O>, &PackedRays<T, N>) -> [Option<HitResult<T>>; N],
        G: Fn(Color<T>, Color<T>) -> Color<T>,
        H: Fn(&Ray<T>) -> Color<T>,

        requires
            N >= 1,
            bounce_accepts::<T, O, N, F, G>(bounce, attenuate),
            sky_accepts(attenuate, sky),
        ensures
            colors@.len() == rays@.len(),
            exists|start: Seq<TraceBatch<T, N>>|
                (#[trigger] starts_list(rays@, start, white, black)) && may_trace_list(
                    self,
                    bounce,
                    attenuate,
                    sky,
                    start,
                    rays@.len() as usize,
                    false,
                    depth_limit as nat,
                    black,
                    colors@,
                ),
            depth_limit == 0 ==> forall|j: int, i: int|
                0 <= j < rays@.len() && 0 <= i < N ==> #[trigger] colors@[j]@[i] == black,
            colors_as_computed(
                self,
                bounce,
                attenuate,
                sky,
                rays@,
                colors@,
                white,
                black,
                depth_limit as nat,
            ),
    {
        self.trace_batches(rays, depth_limit, white, black, bounce, attenuate, sky, false)
    }

    /// Traces the rays of a list of batches together, for at most
    /// `depth_limit` bounces, and returns the colors that the lanes hand
    /// in. After each bounce the active lanes are moved to the front in
    /// place, so that only the batches at the front take part in the next
    /// bounce. The colors come in the order in which the lanes stand at the
    /// end, which is not that of the rays.
    pub fn trace_vectorized3<T: Scaler, const N: usize, F, G, H>(
        &self,
        rays: &Vec<PackedRays<T, N>>,
        depth_limit: usize,
        white: Color<T>,
        black: Color<T>,
        bounce: &F,
        attenuate: &G,
        sky: &H,
    ) -> (colors: Vec<PackedColor<T, N>>) where
        F: Fn(&Scene<O>, &PackedRays<T, N>) -> [Option<HitResult<T>>; N],
        G: Fn(Color<T>, Color<T>) -> Color<T>,
        H: Fn(&Ray<T>) -> Color<T>,

        requires
            N >= 1,
            bounce_accepts::<T, O, N, F, G>(bounce, attenuate),
            sky_accepts(attenuate, sky),
        ensures
            colors@.len() == rays@.len(),
            exists|start: Seq<TraceBatch<T, N>>|
                (#[trigger] starts_list(rays@, start, white, black)) && may_trace_list(
                    self,
                    bounce,
                    attenuate,
                    sky,
                    start,
                    rays@.len() as usize,
                    true,
                    depth_limit as nat,
                    black,
                    colors@,
                ),
            depth_limit == 0 ==> forall|j: int, i: int|
                0 <= j < rays@.len() && 0 <= i < N ==> #[trigger] colors@[j]@[i] == black,
            colors_as_computed(
                self,
                bounce,
                attenuate,
                sky,
                rays@,
                colors@,
                white,
                black,
                depth_limit as nat,
            ),
    {
        self.trace_batches(rays, depth_limit, white, black, bounce, attenuate, sky, true)
    }

    /// Traces one ray for at most `depth_limit` bounces and returns the
    /// color that it brings back. With no bounce allowed the color is
    /// `black`, and nothing is asked of the scene.
    pub fn trace<T: Copy, F, G, H>(
        &self,
        ray: &Ray<T>,
        depth_limit: usize,
        black: Color<T>,
        find: &F,
        attenuate: &G,
        sky: &H,
    ) -> (color: Color<T>) where
        F: Fn(&Scene<O>, &Ray<T>) -> Option<HitResult<T>>,
        G: Fn(Color<T>, Color<T>) -> Color<T>,
        H: Fn(&Ray<T>) -> Color<T>,

        requires
            forall|scene: &Scene<O>, ray: &Ray<T>| #[trigger] find.requires((scene, ray)),
            sky_accepts(attenuate, sky),
        ensures
            depth_limit == 0 ==> color == black,
            may_bring_back(self, find, attenuate, sky, *ray, depth_limit as nat, black, color),
            path_as_computed(self, find, attenuate, sky, *ray, color, black, depth_limit as nat),
        decreases depth_limit,
    {
        if depth_limit == 0 {
            black
        } else {
            match find(self, ray) {
                Some(hit_result) => {
                    match hit_result.scattered_ray {
                        Some(scattered_ray) => {
                            let inner = self.trace(
                                &scattered_ray,
                                depth_limit - 1,
                                black,
                                find,
                                attenuate,
                                sky,
                            );
                            attenuate(inner, hit_result.attenuation)
                        },
                        None => hit_result.attenuation,
                    }
                },
                None => sky(ray),
            }
        }
    }

    /// Traces each ray of a list on its own, bounce by bounce, for at most
    /// `depth_limit` bounces, and returns the color that each ray hands
    /// in, in the order of the rays. Each ray starts with the color
    /// `white`. A ray that is still under way when the bounces are used up
    /// hands in `black`.
    pub fn trace_rays<T: Copy, F, G, H>(
        &self,
        rays: &Vec<Ray<T>>,
        depth_limit: usize,
        white: Color<T>,
        black: Color<T>,
        find: &F,
        attenuate: &G,
        sky: &H,
    ) -> (colors: Vec<Color<T>>) where
        F: Fn(&Scene<O>, &Ray<T>) -> Option<HitResult<T>>,
        G: Fn(Color<T>, Color<T>) -> Color<T>,
        H: Fn(&Ray<T>) -> Color<T>,

        requires
            forall|scene: &Scene<O>, ray: &Ray<T>| #[trigger] find.requires((scene, ray)),
            sky_accepts(attenuate, sky),
        ensures
            colors@.len() == rays@.len(),
            depth_limit == 0 ==> forall|i: int|
                0 <= i < rays@.len() ==> #[trigger] colors@[i] == black,
            forall|i: int|
                0 <= i < rays@.len() ==> may_hand_in(
                    self,
                    find,
                    attenuate,
                    sky,
                    rays@[i],
                    white,
                    depth_limit as nat,
                    black,
                    #[trigger] colors@[i],
                ),
            forall|i: int|
                0 <= i < rays@.len() ==> ray_as_computed(
                    self,
                    find,
                    attenuate,
                    sky,
                    rays@[i],
                    #[trigger] colors@[i],
                    white,
                    black,
                    depth_limit as nat,
                ),
    {
        let mut colors: Vec<Color<T>> = Vec::new();
        let mut i: usize = 0;
        while i < rays.len()
            invariant
                i <= rays.len(),
                colors@.len() == i,
                forall|scene: &Scene<O>, ray: &Ray<T>| #[trigger] find.requires((scene, ray)),
                sky_accepts(attenuate, sky),
                depth_limit == 0 ==> forall|k: int| 0 <= k < i ==> #[trigger] colors@[k] == black,
                forall|k: int|
                    0 <= k < i ==> may_hand_in(
                        self,
                        find,
                        attenuate,
                        sky,
                        rays@[k],
                        white,
                        depth_limit as nat,
                        black,
                        #[trigger] colors@[k],
                    ),
                forall|k: int|
                    0 <= k < i ==> ray_as_computed(
                        self,
                        find,
                        attenuate,
                        sky,
                        rays@[k],
                        #[trigger] colors@[k],
                        white,
                        black,
                        depth_limit as nat,
                    ),
            decreases rays.len() - i,
        {
            let color = self.follow(rays[i], white, depth_limit, black, find, attenuate, sky);
            proof {
                assert forall|
                    hit: spec_fn(Ray<T>) -> Option<HitResult<T>>,
                    join: spec_fn(Color<T>, Color<T>) -> Color<T>,
                    light: spec_fn(Ray<T>) -> Color<T>,
                | #[trigger]
                    scalar_computes(
                        self,
                        find,
                        attenuate,
                        sky,
                        hit,
                        join,
                        light,
                    ) implies color == lane_color(
                    hit,
                    join,
                    light,
                    lane_of_ray(rays@[i as int], white),
                    depth_limit as nat,
                    black,
                ) by {
                    lemma_handed_in_as_computed(
                        self,
                        find,
                        attenuate,
                        sky,
                        hit,
                        join,
                        light,
                        rays@[i as int],
                        white,
                        depth_limit as nat,
                        black,
                        color,
                    );
                }
            }
            colors.push(color);
            i += 1;
        }
        colors
    }

    /// Follows one ray that is under way with the color `gathered`, for at
    /// most `depth_limit` bounces, and returns the color that it hands in.
    fn follow<T: Copy, F, G, H>(
        &self,
        ray: Ray<T>,
        gathered: Color<T>,
        depth_limit: usize,
        black: Color<T>,
        find: &F,
        attenuate: &G,
        sky: &H,
    ) -> (color: Color<T>) where
        F: Fn(&Scene<O>, &Ray<T>) -> Option<HitResult<T>>,
        G: Fn(Color<T>, Color<T>) -> Color<T>,
        H: Fn(&Ray<T>) -> Color<T>,

        requires
            forall|scene: &Scene<O>, ray: &Ray<T>| #[trigger] find.requires((scene, ray)),
            sky_accepts(attenuate, sky),
        ensures
            depth_limit == 0 ==> color == black,
            may_hand_in(
                self,
                find,
                attenuate,
                sky,
                ray,
                gathered,
                depth_limit as nat,
                black,
                color,
            ),
    {
        let mut current = ray;
        let mut carried = gathered;
        let mut left = depth_limit;
        while left > 0
            invariant
                forall|scene: &Scene<O>, any: &Ray<T>| #[trigger] find.requires((scene, any)),
                sky_accepts(attenuate, sky),
                left <= depth_limit,
                forall|color: Color<T>| #[trigger]
                    may_hand_in(
                        self,
                        find,
                        attenuate,
                        sky,
                        current,
                        carried,
                        left as nat,
                        black,
                        color,
                    ) ==> may_hand_in(
                        self,
                        find,
                        attenuate,
                        sky,
                        ray,
                        gathered,
                        depth_limit as nat,
                        black,
                        color,
                    ),
            decreases left,
        {
            let ghost before = current;
            let ghost before_color = carried;
            let ghost before_left = left;
            let found = find(self, &current);
            match found {
                Some(hit_result) => {
                    let color = attenuate(carried, hit_result.attenuation);
                    match hit_result.scattered_ray {
                        Some(scattered_ray) => {
                            current = scattered_ray;
                            carried = color;
                            left -= 1;
                            proof {
                                assert forall|last: Color<T>| #[trigger]
                                    may_hand_in(
                                        self,
                                        find,
                                        attenuate,
                                        sky,
                                        current,
                                        carried,
                                        left as nat,
                                        black,
                                        last,
                                    ) implies may_hand_in(
                                    self,
                                    find,
                                    attenuate,
                                    sky,
                                    ray,
                                    gathered,
                                    depth_limit as nat,
                                    black,
                                    last,
                                ) by {
                                    assert((before_left - 1) as nat == left as nat);
                                    assert(handed_in_after(
                                        self,
                                        find,
                                        attenuate,
                                        sky,
                                        before,
                                        before_color,
                                        found,
                                        left as nat,
                                        black,
                                        last,
                                    ));
                                    assert(may_hand_in(
                                        self,
                                        find,
                                        attenuate,
                                        sky,
                                        before,
                                        before_color,
                                        before_left as nat,
                                        black,
                                        last,
                                    ));
                                }
                            }
                        },
                        None => {
                            proof {
                                assert(handed_in_after(
                                    self,
                                    find,
                                    attenuate,
                                    sky,
                                    before,
                                    before_color,
                                    found,
                                    (left - 1) as nat,
                                    black,
                                    color,
                                ));
                                assert(may_hand_in(
                                    self,
                                    find,
                                    attenuate,
                                    sky,
                                    before,
                                    before_color,
                                    left as nat,
                                    black,
                                    color,
                                ));
                            }
                            return color;
                        },
                    }
                },
                None => {
                    let lit = sky(&current);
                    let color = attenuate(carried, lit);
                    proof {
                        assert(handed_in_after(
                            self,
                            find,
                            attenuate,
                            sky,
                            before,
                            before_color,
                            found,
                            (left - 1) as nat,
                            black,
                            color,
                        ));
                        assert(may_hand_in(
                            self,
                            find,
                            attenuate,
                            sky,
                            before,
                            before_color,
                            left as nat,
                            black,
                            color,
                        ));
                    }
                    return color;
                },
            }
        }
        proof {
            assert(may_hand_in(
                self,
                find,
                attenuate,
                sky,
                current,
                carried,
                left as nat,
                black,
                black,
            ));
        }
        black
    }

    /// Traces the rays of one batch together, for at most `depth_limit`
    /// bounces, and returns the color that each lane hands in.
    ///
    /// In each bounce `bounce` is asked what the rays of the active lanes
    /// find among the surfaces of the scene. A lane whose ray finds no
    /// surface is owed the sky; one whose ray is kept by a surface rests
    /// with its color; one whose ray is sent on stays active. The trace
    /// ends when no lane is active or the bounces are used up. A lane that
    /// is then still active hands in `black`.
    pub fn trace_vectorized<T: Scaler, const N: usize, F, G, H>(
        &self,
        rays: PackedRays<T, N>,
        depth_limit: usize,
        white: Color<T>,
        black: Color<T>,
        bounce: &F,
        attenuate: &G,
        sky: &H,
    ) -> (r: PackedColor<T, N>) where
        F: Fn(&Scene<O>, &PackedRays<T, N>) -> [Option<HitResult<T>>; N],
        G: Fn(Color<T>, Color<T>) -> Color<T>,
        H: Fn(&Ray<T>) -> Color<T>,

        requires
            bounce_accepts::<T, O, N, F, G>(bounce, attenuate),
            sky_accepts(attenuate, sky),
        ensures
            exists|start: TraceBatch<T, N>|
                (#[trigger] starts_batch(rays, start, white, black)) && may_trace(
                    self,
                    bounce,
                    attenuate,
                    sky,
                    start,
                    depth_limit as nat,
                    black,
                    r@,
                ),
            depth_limit == 0 ==> r@ == Seq::new(N as nat, |i: int| black),
            forall|i: int| 0 <= i < N && !rays@[i].enabled ==> #[trigger] r@[i] == black,
            batch_as_computed(
                self,
                bounce,
                attenuate,
                sky,
                rays,
                r,
                white,
                black,
                depth_limit as nat,
            ),
    {
        let start = TraceBatch::new(rays, white, black);
        let r = self.advance(start, depth_limit, black, bounce, attenuate, sky);
        proof {
            assert(starts_batch(rays, start, white, black));
            assert forall|i: int| 0 <= i < N && !rays@[i].enabled implies #[trigger] r@[i]
                == black by {
                lemma_resting_lane_keeps_color(
                    self,
                    bounce,
                    attenuate,
                    sky,
                    start,
                    depth_limit as nat,
                    black,
                    r@,
                    i,
                );
            }
            if depth_limit == 0 {
                assert forall|i: int| 0 <= i < N implies r@[i] == black by {
                    assert(ended(attenuate, sky, start@[i], r@[i], black));
                }
                assert(r@ =~= Seq::new(N as nat, |i: int| black));
            }
            assert forall|
                hit: spec_fn(Ray<T>) -> Option<HitResult<T>>,
                join: spec_fn(Color<T>, Color<T>) -> Color<T>,
                light: spec_fn(Ray<T>) -> Color<T>,
            | #[trigger]
                kernel_computes(self, bounce, attenuate, sky, hit, join, light) implies r@
                == Seq::new(
                N as nat,
                |i: int|
                    lane_color(
                        hit,
                        join,
                        light,
                        lane_at_start(rays@[i], white, black),
                        depth_limit as nat,
                        black,
                    ),
            ) by {
                lemma_traced_as_computed(
                    self,
                    bounce,
                    attenuate,
                    sky,
                    hit,
                    join,
                    light,
                    start,
                    depth_limit as nat,
                    black,
                    r@,
                );
                assert(r@ =~= Seq::new(
                    N as nat,
                    |i: int|
                        lane_color(
                            hit,
                            join,
                            light,
                            lane_at_start(rays@[i], white, black),
                            depth_limit as nat,
                            black,
                        ),
                ));
            }
        }
        r
    }

    /// Carries the trace of one batch on, for at most `depth_limit`
    /// bounces, and returns the color that each lane hands in.
    fn advance<T: Scaler, const N: usize, F, G, H>(
        &self,
        batch: TraceBatch<T, N>,
        depth_limit: usize,
        black: Color<T>,
        bounce: &F,
        attenuate: &G,
        sky: &H,
    ) -> (r: PackedColor<T, N>) where
        F: Fn(&Scene<O>, &PackedRays<T, N>) -> [Option<HitResult<T>>; N],
        G: Fn(Color<T>, Color<T>) -> Color<T>,
        H: Fn(&Ray<T>) -> Color<T>,

        requires
            bounce_accepts::<T, O, N, F, G>(bounce, attenuate),
            sky_accepts(attenuate, sky),
        ensures
            may_trace(self, bounce, attenuate, sky, batch, depth_limit as nat, black, r@),
    {
        let ghost start = batch;
        let mut batch = batch;
        let mut left = depth_limit;
        while left > 0 && batch.any_active()
            invariant
                bounce_accepts::<T, O, N, F, G>(bounce, attenuate),
                left <= depth_limit,
                forall|colors: Seq<Color<T>>| #[trigger]
                    may_trace(self, bounce, attenuate, sky, batch, left as nat, black, colors)
                        ==> may_trace(
                        self,
                        bounce,
                        attenuate,
                        sky,
                        start,
                        depth_limit as nat,
                        black,
                        colors,
                    ),
            decreases left,
        {
            let ghost before = batch;
            let ghost before_left = left;
            self.bounce_batch(&mut batch, bounce, attenuate);
            left -= 1;
            proof {
                assert forall|colors: Seq<Color<T>>| #[trigger]
                    may_trace(
                        self,
                        bounce,
                        attenuate,
                        sky,
                        batch,
                        left as nat,
                        black,
                        colors,
                    ) implies may_trace(
                    self,
                    bounce,
                    attenuate,
                    sky,
                    start,
                    depth_limit as nat,
                    black,
                    colors,
                ) by {
                    assert(one_bounced(self, bounce, attenuate, before, batch));
                    assert((before_left - 1) as nat == left as nat);
                    assert(may_trace(
                        self,
                        bounce,
                        attenuate,
                        sky,
                        before,
                        before_left as nat,
                        black,
                        colors,
                    ));
                }
            }
        }
        let lit = batch.light(attenuate, sky);
        let r = batch.finish(&lit, black);
        proof {
            assert forall|i: int| 0 <= i < N implies ended(
                attenuate,
                sky,
                batch@[i],
                #[trigger] r@[i],
                black,
            ) by {
                assert(lit_by_sky(attenuate, sky, batch@[i], lit@[i]));
            }
            assert(may_trace(self, bounce, attenuate, sky, batch, left as nat, black, r@));
        }
        r
    }
}

impl<T: Number, M> Scene<Object<T, M>> {
    /// Whether `found` holds, surface by surface, a hit of `ray` that the
    /// surface allows; see [`Object::may_hit`].
    pub open spec fn may_find<'a, S: Fn(T) -> T>(
        &'a self,
        sqrt: &S,
        ray: Ray<T>,
        start: T,
        end: T,
        zero: T,
        found: Seq<Option<HitRecord<'a, T, M>>>,
    ) -> bool {
        &&& found.len() == self@.len()
        &&& forall|j: int|
            0 <= j < found.len() ==> self@[j].may_hit(sqrt, ray, start, end, zero, #[trigger] found[j])
    }

    /// The nearest hit of `ray` among the surfaces of the scene within
    /// `t_range`; of several hits at the very same parameter, that on the
    /// surface that comes first in the scene.
    pub fn hit<'a, S: Fn(T) -> T>(
        &'a self,
        ray: &Ray<T>,
        t_range: Range<T>,
        zero: T,
        sqrt: &S,
    ) -> (r: Option<HitRecord<'a, T, M>>)
        requires
            total_arithmetic::<T>(),
            answers_all(sqrt),
        ensures
            exists|found: Seq<Option<HitRecord<'a, T, M>>>| #[trigger]
                self.may_find(sqrt, *ray, t_range.start, t_range.end, zero, found) && r
                    == nearest_of(found),
    {
        let mut found: Vec<Option<HitRecord<'a, T, M>>> = Vec::new();
        let mut j: usize = 0;
        while j < self.objects.len()
            invariant
                j <= self.objects@.len(),
                found@.len() == j,
                total_arithmetic::<T>(),
                answers_all(sqrt),
                forall|k: int|
                    0 <= k < j ==> self.objects@[k].may_hit(
                        sqrt,
                        *ray,
                        t_range.start,
                        t_range.end,
                        zero,
                        #[trigger] found@[k],
                    ),
            decreases self.objects.len() - j,
        {
            let one = self.objects[j].hit(ray, &t_range, zero, sqrt);
            found.push(one);
            j += 1;
        }
        let r = nearest(&found);
        assert(self.may_find(sqrt, *ray, t_range.start, t_range.end, zero, found@));
        r
    }
}

impl<T: Number + Scaler, M> Scene<Object<T, M>> {
    /// Whether `stages` holds the lanes of a batch of hit records before
    /// the first surface of the scene is tried on `rays` and after each
    /// surface in turn; see [`Object::may_leave`].
    pub open spec fn may_gather<'a, const N: usize, S: Fn(T) -> T>(
        &'a self,
        sqrt: &S,
        rays: &PackedRays<T, N>,
        start: T,
        end: T,
        zero: T,
        stages: Seq<Seq<HitLane<'a, T, M>>>,
    ) -> bool {
        &&& stages.len() == self@.len() + 1
        &&& forall|j: int|
            0 <= j < self@.len() ==> self@[j].may_leave(
                sqrt,
                rays,
                start,
                end,
                zero,
                #[trigger] stages[j],
                stages[j + 1],
            )
    }

    /// Whether `records` holds, lane by lane, the nearest hit of the rays of
    /// a batch among the surfaces of the scene: the surfaces were tried in
    /// their order on records in which no lane had a hit, and the records
    /// were completed after the last; see [`Scene::may_gather`] and
    /// [`may_finalize`].
    pub open spec fn may_record<'a, const N: usize, S: Fn(T) -> T>(
        &'a self,
        sqrt: &S,
        rays: &PackedRays<T, N>,
        start: T,
        end: T,
        far: T,
        blank: Vec3<T>,
        zero: T,
        records: Seq<HitLane<'a, T, M>>,
    ) -> bool {
        exists|stages: Seq<Seq<HitLane<'a, T, M>>>|
            {
                &&& #[trigger] self.may_gather(sqrt, rays, start, end, zero, stages)
                &&& stages[0] == fresh_records::<'a, T, M>(N as nat, far, blank)
                &&& records.len() == N
                &&& forall|i: int|
                    0 <= i < N ==> may_finalize(
                        sqrt,
                        stages.last()[i],
                        rays@[i].ray,
                        zero,
                        #[trigger] records[i],
                    )
            }
    }

    /// The nearest hit of each ray of a batch among the surfaces of the
    /// scene within `t_range`, completed for use. The surfaces are tried
    /// in their order; every lane starts as far away as `far`, with `blank`
    /// for its location and its normal.
    pub fn hit_packed<'a, const N: usize, S: Fn(T) -> T>(
        &'a self,
        rays: &PackedRays<T, N>,
        t_range: &Range<T>,
        far: T,
        blank: Vec3<T>,
        zero: T,
        sqrt: &S,
    ) -> (r: PackedHitRecords<'a, T, M, N>)
        requires
            total_arithmetic::<T>(),
            answers_all(sqrt),
        ensures
            r.wf(),
            self.may_record(sqrt, rays, t_range.start, t_range.end, far, blank, zero, r@),
    {
        let mut hit_records = PackedHitRecords::new(far, blank);
        let ghost mut stages: Seq<Seq<HitLane<'a, T, M>>> = seq![hit_records@];
        let mut j: usize = 0;
        while j < self.objects.len()
            invariant
                j <= self.objects@.len(),
                hit_records.wf(),
                total_arithmetic::<T>(),
                answers_all(sqrt),
                stages.len() == j + 1,
                stages[0] == fresh_records::<'a, T, M>(N as nat, far, blank),
                stages.last() == hit_records@,
                forall|k: int|
                    0 <= k < j ==> self.objects@[k].may_leave(
                        sqrt,
                        rays,
                        t_range.start,
                        t_range.end,
                        zero,
                        #[trigger] stages[k],
                        stages[k + 1],
                    ),
            decreases self.objects.len() - j,
        {
            self.objects[j].hit_packed(rays, t_range, &mut hit_records, zero, sqrt);
            proof {
                stages = stages.push(hit_records@);
            }
            j += 1;
        }
        hit_records.finalize(rays, zero, sqrt);
        proof {
            assert(self.may_gather(sqrt, rays, t_range.start, t_range.end, zero, stages));
        }
        hit_records
    }
}

impl<T: Number + Scaler> Scene<Object<T, Material<T>>> {
    /// Whether `result` is what `ray` finds when `hit` is the nearest
    /// surface that it hits: nothing without a hit, and else what the
    /// material that was hit makes of the ray; see
    /// [`Material::may_scatter`].
    pub open spec fn may_react<'a, S: Fn(T) -> T, R: Fn() -> Vec3<T>, D: Fn() -> T>(
        sqrt: &S,
        random_unit_vector: &R,
        draw: &D,
        ray: Ray<T>,
        hit: Option<HitRecord<'a, T, Material<T>>>,
        one: T,
        zero: T,
        epsilon: T,
        result: Option<HitResult<T>>,
    ) -> bool {
        match hit {
            None => result is None,
            Some(hit_record) => result is Some && hit_record.material.may_scatter(
                sqrt,
                random_unit_vector,
                draw,
                ray,
                hit_record,
                Color { red: one, green: one, blue: one },
                one,
                zero,
                epsilon,
                result.unwrap(),
            ),
        }
    }

    /// What one ray finds among the surfaces of the scene within
    /// `t_range`: what the material of the nearest surface that it hits
    /// makes of it, or nothing if it hits none.
    pub fn find<S: Fn(T) -> T, R: Fn() -> Vec3<T>, D: Fn() -> T>(
        &self,
        ray: &Ray<T>,
        t_range: Range<T>,
        one: T,
        zero: T,
        epsilon: T,
        sqrt: &S,
        random_unit_vector: &R,
        draw: &D,
    ) -> (r: Option<HitResult<T>>)
        requires
            total_arithmetic::<T>(),
            answers_all(sqrt),
            random_unit_vector.requires(()),
            draw.requires(()),
        ensures
            exists|found: Seq<Option<HitRecord<'_, T, Material<T>>>>| #[trigger]
                self.may_find(sqrt, *ray, t_range.start, t_range.end, zero, found)
                    && Self::may_react(
                    sqrt,
                    random_unit_vector,
                    draw,
                    *ray,
                    nearest_of(found),
                    one,
                    zero,
                    epsilon,
                    r,
                ),
    {
        match self.hit(ray, t_range, zero, sqrt) {
            None => None,
            Some(hit_record) => Some(
                hit_record.hit_result(
                    ray,
                    Color::white(one),
                    one,
                    zero,
                    epsilon,
                    sqrt,
                    random_unit_vector,
                    draw,
                ),
            ),
        }
    }

    /// What the rays of a batch find among the surfaces of the scene
    /// within `t_range`, lane by lane: for an enabled lane what
    /// [`Scene::may_react`] allows for the hit that [`Scene::hit_packed`]
    /// records for it, and nothing for a lane that is not enabled.
    pub fn bounce<const N: usize, S: Fn(T) -> T, R: Fn() -> Vec3<T>, D: Fn() -> T>(
        &self,
        rays: &PackedRays<T, N>,
        t_range: &Range<T>,
        far: T,
        one: T,
        zero: T,
        epsilon: T,
        sqrt: &S,
        random_unit_vector: &R,
        draw: &D,
    ) -> (r: [Option<HitResult<T>>; N])
        requires
            total_arithmetic::<T>(),
            answers_all(sqrt),
            random_unit_vector.requires(()),
            draw.requires(()),
        ensures
            exists|records: Seq<HitLane<'_, T, Material<T>>>|
                {
                    &&& #[trigger] self.may_record(
                        sqrt,
                        rays,
                        t_range.start,
                        t_range.end,
                        far,
                        Vec3 { x: zero, y: zero, z: zero },
                        zero,
                        records,
                    )
                    &&& forall|i: int|
                        0 <= i < N ==> if rays@[i].enabled {
                            Self::may_react(
                                sqrt,
                                random_unit_vector,
                                draw,
                                rays@[i].ray,
                                records[i].record(),
                                one,
                                zero,
                                epsilon,
                                #[trigger] r@[i],
                            )
                        } else {
                            r@[i] is None
                        }
                },
    {
        let hit_records = self.hit_packed(rays, t_range, far, Vec3::new(zero, zero, zero), zero, sqrt);
        let white = Color::white(one);
        let mut r: [Option<HitResult<T>>; N] = [None;N];
        let mut i: usize = 0;
        while i < N
            invariant
                i <= N,
                hit_records.wf(),
                total_arithmetic::<T>(),
                answers_all(sqrt),
                random_unit_vector.requires(()),
                draw.requires(()),
                white == (Color { red: one, green: one, blue: one }),
                forall|j: int| i <= j < N ==> #[trigger] r@[j] is None,
                forall|j: int|
                    0 <= j < i ==> if rays@[j].enabled {
                        Self::may_react(
                            sqrt,
                            random_unit_vector,
                            draw,
                            rays@[j].ray,
                            hit_records@[j].record(),
                            one,
                            zero,
                            epsilon,
                            #[trigger] r@[j],
                        )
                    } else {
                        r@[j] is None
                    },
            decreases N - i,
        {
            let ghost before = r@;
            match rays.at(i) {
                Some(ray) => {
                    match hit_records.at(i) {
                        Some(hit_record) => {
                            let result = hit_record.hit_result(
                                &ray,
                                white,
                                one,
                                zero,
                                epsilon,
                                sqrt,
                                random_unit_vector,
                                draw,
                            );
                            r[i] = Some(result);
                        },
                        None => {},
                    }
                },
                None => {},
            }
            proof {
                assert forall|j: int| 0 <= j < i implies r@[j] == before[j] by {}
                assert forall|j: int| i < j < N implies #[trigger] r@[j] is None by {
                    assert(before[j] is None);
                }
            }
            i += 1;
        }
        r
    }
}

} // verus!
