//! What the tracers compute. The trace of a single lane is written down
//! as a function of three things: what a ray finds among the surfaces, how
//! two colors are joined, and the color of the sky. Where the functions
//! that a caller hands to a tracer compute such functions of their
//! arguments, the tracer hands in the colors that this trace gives,
//! whichever way it moves the lanes about.

use crate::color::{lemma_packed_color_len, Color, PackedColor};
use crate::compaction::{
    active_at, flat, flat_lanes, lane_rows, lemma_flat_cell, lemma_flat_map,
    lemma_map_keeps_permutation, live_first, packed_to_front,
};
use crate::lanes::{
    lane_after, lane_at_end, lane_at_start, lemma_trace_batch_len, lit_by_sky, outcome_of, shaded,
    LaneOutcome, LaneState, TraceBatch, TraceLane,
};
use crate::objects::HitResult;
use crate::packed::Scaler;
use crate::ray::{lemma_packed_rays_len, PackedRays, Ray, RayLane};
use crate::ray_tracing::Scene;
use vstd::prelude::*;

verus! {

broadcast use {lemma_packed_color_len, lemma_packed_rays_len, lemma_trace_batch_len};

/// The lane after one bounce, where `hit` tells what a ray finds and
/// `attenuate` joins two colors.
pub open spec fn lane_step<T>(
    hit: spec_fn(Ray<T>) -> Option<HitResult<T>>,
    attenuate: spec_fn(Color<T>, Color<T>) -> Color<T>,
    lane: TraceLane<T>,
) -> TraceLane<T> {
    match hit(lane.ray) {
        None => lane_after(lane, LaneOutcome::Missed),
        Some(result) => lane_after(
            lane,
            outcome_of(hit(lane.ray), attenuate(lane.color, result.attenuation)),
        ),
    }
}

/// The lane after `bounces` bounces.
pub open spec fn lane_run<T>(
    hit: spec_fn(Ray<T>) -> Option<HitResult<T>>,
    attenuate: spec_fn(Color<T>, Color<T>) -> Color<T>,
    lane: TraceLane<T>,
    bounces: nat,
) -> TraceLane<T>
    decreases bounces,
{
    if bounces == 0 {
        lane
    } else {
        lane_step(hit, attenuate, lane_run(hit, attenuate, lane, (bounces - 1) as nat))
    }
}

/// The color that a lane hands in when its trace ends.
pub open spec fn lane_end_color<T>(
    attenuate: spec_fn(Color<T>, Color<T>) -> Color<T>,
    sky: spec_fn(Ray<T>) -> Color<T>,
    lane: TraceLane<T>,
    black: Color<T>,
) -> Color<T> {
    lane_at_end(lane, attenuate(lane.color, sky(lane.ray)), black)
}

/// The color that a lane hands in after a trace of at most `bounces`
/// bounces, where `sky` tells the color of the sky that a ray leaves for.
pub open spec fn lane_color<T>(
    hit: spec_fn(Ray<T>) -> Option<HitResult<T>>,
    attenuate: spec_fn(Color<T>, Color<T>) -> Color<T>,
    sky: spec_fn(Ray<T>) -> Color<T>,
    lane: TraceLane<T>,
    bounces: nat,
    black: Color<T>,
) -> Color<T> {
    lane_end_color(attenuate, sky, lane_run(hit, attenuate, lane, bounces), black)
}

/// A lane whose ray is no longer under way stays as it is, whatever the
/// number of further bounces.
pub proof fn lemma_lane_run_rests<T>(
    hit: spec_fn(Ray<T>) -> Option<HitResult<T>>,
    attenuate: spec_fn(Color<T>, Color<T>) -> Color<T>,
    lane: TraceLane<T>,
    done: nat,
    bounces: nat,
)
    requires
        done <= bounces,
        !(lane_run(hit, attenuate, lane, done).state is Active),
    ensures
        lane_run(hit, attenuate, lane, bounces) == lane_run(hit, attenuate, lane, done),
    decreases bounces,
{
    if bounces > done {
        lemma_lane_run_rests(hit, attenuate, lane, done, (bounces - 1) as nat);
    }
}

/// Whether `bounce` finds for each enabled lane of a batch what `hit` finds
/// for its ray, and `attenuate` joins colors as `join` does.
pub open spec fn bounce_computes<T: Scaler, O, const N: usize, F, G>(
    scene: &Scene<O>,
    bounce: &F,
    attenuate: &G,
    hit: spec_fn(Ray<T>) -> Option<HitResult<T>>,
    join: spec_fn(Color<T>, Color<T>) -> Color<T>,
) -> bool where
    F: Fn(&Scene<O>, &PackedRays<T, N>) -> [Option<HitResult<T>>; N],
    G: Fn(Color<T>, Color<T>) -> Color<T>,
 {
    &&& forall|rays: &PackedRays<T, N>, found: [Option<HitResult<T>>; N]| #[trigger]
        bounce.ensures((scene, rays), found) ==> forall|i: int|
            0 <= i < N && rays@[i].enabled ==> #[trigger] found@[i] == hit(rays@[i].ray)
    &&& forall|a: Color<T>, b: Color<T>, c: Color<T>| #[trigger]
        attenuate.ensures((a, b), c) ==> c == join(a, b)
}

/// Whether `attenuate` joins colors as `join` does and `sky` colors the
/// sky as `light` does.
pub open spec fn sky_computes<T, G, H>(
    attenuate: &G,
    sky: &H,
    join: spec_fn(Color<T>, Color<T>) -> Color<T>,
    light: spec_fn(Ray<T>) -> Color<T>,
) -> bool where G: Fn(Color<T>, Color<T>) -> Color<T>, H: Fn(&Ray<T>) -> Color<T> {
    &&& forall|a: Color<T>, b: Color<T>, c: Color<T>| #[trigger]
        attenuate.ensures((a, b), c) ==> c == join(a, b)
    &&& forall|ray: &Ray<T>, c: Color<T>| #[trigger] sky.ensures((ray,), c) ==> c == light(*ray)
}

/// Whether the three functions handed to a tracer compute what `hit`,
/// `join` and `light` say.
pub open spec fn kernel_computes<T: Scaler, O, const N: usize, F, G, H>(
    scene: &Scene<O>,
    bounce: &F,
    attenuate: &G,
    sky: &H,
    hit: spec_fn(Ray<T>) -> Option<HitResult<T>>,
    join: spec_fn(Color<T>, Color<T>) -> Color<T>,
    light: spec_fn(Ray<T>) -> Color<T>,
) -> bool where
    F: Fn(&Scene<O>, &PackedRays<T, N>) -> [Option<HitResult<T>>; N],
    G: Fn(Color<T>, Color<T>) -> Color<T>,
    H: Fn(&Ray<T>) -> Color<T>,
 {
    &&& bounce_computes(scene, bounce, attenuate, hit, join)
    &&& sky_computes(attenuate, sky, join, light)
}

/// Whether the functions that a bounce needs accept every input.
pub open spec fn bounce_accepts<T: Scaler, O, const N: usize, F, G>(bounce: &F, attenuate: &G) -> bool where
    F: Fn(&Scene<O>, &PackedRays<T, N>) -> [Option<HitResult<T>>; N],
    G: Fn(Color<T>, Color<T>) -> Color<T>,
 {
    &&& forall|scene: &Scene<O>, rays: &PackedRays<T, N>| #[trigger] bounce.requires((scene, rays))
    &&& forall|a: Color<T>, b: Color<T>| #[trigger] attenuate.requires((a, b))
}

/// Whether the functions that the end of a trace needs accept every input.
pub open spec fn sky_accepts<T, G, H>(attenuate: &G, sky: &H) -> bool where
    G: Fn(Color<T>, Color<T>) -> Color<T>,
    H: Fn(&Ray<T>) -> Color<T>,
 {
    &&& forall|a: Color<T>, b: Color<T>| #[trigger] attenuate.requires((a, b))
    &&& forall|ray: &Ray<T>| #[trigger] sky.requires((ray,))
}

/// The rays of each batch of a list, lane by lane.
pub open spec fn ray_rows<T: Scaler, const N: usize>(rays: Seq<PackedRays<T, N>>) -> Seq<
    Seq<RayLane<T>>,
> {
    Seq::new(rays.len(), |j: int| rays[j]@)
}

/// The colors of each batch of a list, lane by lane.
pub open spec fn color_rows<T: Scaler, const N: usize>(colors: Seq<PackedColor<T, N>>) -> Seq<
    Seq<Color<T>>,
> {
    Seq::new(colors.len(), |j: int| colors[j]@)
}

/// Whether `color` is a color that `lane` may hand in when its trace ends:
/// `black` if its ray was still under way, its own color if the ray ended
/// on a surface, and its color joined with that of the sky if the ray
/// escaped.
pub open spec fn ended<T, G: Fn(Color<T>, Color<T>) -> Color<T>, H: Fn(&Ray<T>) -> Color<T>>(
    attenuate: &G,
    sky: &H,
    lane: TraceLane<T>,
    color: Color<T>,
    black: Color<T>,
) -> bool {
    exists|lit: Color<T>| #[trigger]
        lit_by_sky(attenuate, sky, lane, lit) && color == lane_at_end(lane, lit, black)
}

/// The colors that the lanes of a list of rays hand in after a trace of at
/// most `bounces` bounces, in the order of the rays.
pub open spec fn traced_colors<T: Scaler, const N: usize>(
    rays: Seq<PackedRays<T, N>>,
    hit: spec_fn(Ray<T>) -> Option<HitResult<T>>,
    join: spec_fn(Color<T>, Color<T>) -> Color<T>,
    light: spec_fn(Ray<T>) -> Color<T>,
    white: Color<T>,
    black: Color<T>,
    bounces: nat,
) -> Seq<Color<T>> {
    flat(ray_rows(rays), N as int).map_values(
        |ray: RayLane<T>|
            lane_color(hit, join, light, lane_at_start(ray, white, black), bounces, black),
    )
}

/// Whether `find` finds for a ray what `hit` finds for it.
pub open spec fn find_computes<T, O, F>(
    scene: &Scene<O>,
    find: &F,
    hit: spec_fn(Ray<T>) -> Option<HitResult<T>>,
) -> bool where F: Fn(&Scene<O>, &Ray<T>) -> Option<HitResult<T>> {
    forall|ray: &Ray<T>, found: Option<HitResult<T>>| #[trigger]
        find.ensures((scene, ray), found) ==> found == hit(*ray)
}

/// Whether `find`, `attenuate` and `sky` compute what `hit`, `join` and
/// `light` say.
pub open spec fn scalar_computes<T, O, F, G, H>(
    scene: &Scene<O>,
    find: &F,
    attenuate: &G,
    sky: &H,
    hit: spec_fn(Ray<T>) -> Option<HitResult<T>>,
    join: spec_fn(Color<T>, Color<T>) -> Color<T>,
    light: spec_fn(Ray<T>) -> Color<T>,
) -> bool where
    F: Fn(&Scene<O>, &Ray<T>) -> Option<HitResult<T>>,
    G: Fn(Color<T>, Color<T>) -> Color<T>,
    H: Fn(&Ray<T>) -> Color<T>,
 {
    &&& find_computes(scene, find, hit)
    &&& sky_computes(attenuate, sky, join, light)
}

/// The color that a ray brings back from at most `depth` bounces, counted
/// from the far end of its path: nothing but `black` once the bounces are
/// used up, the color of the sky where the ray escapes, the share of the
/// surface that keeps it, and else what the ray sent on brings back,
/// joined with the share of the surface that sent it on.
pub open spec fn ray_color<T>(
    hit: spec_fn(Ray<T>) -> Option<HitResult<T>>,
    join: spec_fn(Color<T>, Color<T>) -> Color<T>,
    light: spec_fn(Ray<T>) -> Color<T>,
    ray: Ray<T>,
    depth: nat,
    black: Color<T>,
) -> Color<T>
    decreases depth,
{
    if depth == 0 {
        black
    } else {
        match hit(ray) {
            None => light(ray),
            Some(result) => match result.scattered_ray {
                None => result.attenuation,
                Some(next) => join(
                    ray_color(hit, join, light, next, (depth - 1) as nat, black),
                    result.attenuation,
                ),
            },
        }
    }
}

/// Whether `color` is a color that `ray` may bring back from at most
/// `depth` bounces, whatever `find`, `attenuate` and `sky` answer: `black`
/// once the bounces are used up, and else what an answer of `find` for the
/// ray leads to; see [`brought_back_after`].
pub open spec fn may_bring_back<T, O, F, G, H>(
    scene: &Scene<O>,
    find: &F,
    attenuate: &G,
    sky: &H,
    ray: Ray<T>,
    depth: nat,
    black: Color<T>,
    color: Color<T>,
) -> bool where
    F: Fn(&Scene<O>, &Ray<T>) -> Option<HitResult<T>>,
    G: Fn(Color<T>, Color<T>) -> Color<T>,
    H: Fn(&Ray<T>) -> Color<T>,

    decreases depth, 0nat,
{
    if depth == 0 {
        color == black
    } else {
        exists|found: Option<HitResult<T>>|
            (#[trigger] find.ensures((scene, &ray), found)) && brought_back_after(
                scene,
                find,
                attenuate,
                sky,
                ray,
                found,
                (depth - 1) as nat,
                black,
                color,
            )
    }
}

/// Whether `color` is a color that `ray` may bring back once it found
/// `found`, with `rest` bounces left for the ray that is sent on: an answer
/// of `sky` where the ray escapes, the share of the surface that keeps it,
/// or an answer of `attenuate` for a color that the ray sent on may bring
/// back and the share of the surface that sent it on.
pub open spec fn brought_back_after<T, O, F, G, H>(
    scene: &Scene<O>,
    find: &F,
    attenuate: &G,
    sky: &H,
    ray: Ray<T>,
    found: Option<HitResult<T>>,
    rest: nat,
    black: Color<T>,
    color: Color<T>,
) -> bool where
    F: Fn(&Scene<O>, &Ray<T>) -> Option<HitResult<T>>,
    G: Fn(Color<T>, Color<T>) -> Color<T>,
    H: Fn(&Ray<T>) -> Color<T>,

    decreases rest, 1nat,
{
    match found {
        None => sky.ensures((&ray,), color),
        Some(result) => match result.scattered_ray {
            None => color == result.attenuation,
            Some(next) => exists|inner: Color<T>|
                may_bring_back(scene, find, attenuate, sky, next, rest, black, inner)
                    && #[trigger] attenuate.ensures((inner, result.attenuation), color),
        },
    }
}

/// Where `find`, `attenuate` and `sky` compute `hit`, `join` and `light`,
/// the one color that a ray may bring back is that of [`ray_color`].
pub proof fn lemma_brought_back_as_computed<T, O, F, G, H>(
    scene: &Scene<O>,
    find: &F,
    attenuate: &G,
    sky: &H,
    hit: spec_fn(Ray<T>) -> Option<HitResult<T>>,
    join: spec_fn(Color<T>, Color<T>) -> Color<T>,
    light: spec_fn(Ray<T>) -> Color<T>,
    ray: Ray<T>,
    depth: nat,
    black: Color<T>,
    color: Color<T>,
) where
    F: Fn(&Scene<O>, &Ray<T>) -> Option<HitResult<T>>,
    G: Fn(Color<T>, Color<T>) -> Color<T>,
    H: Fn(&Ray<T>) -> Color<T>,

    requires
        scalar_computes(scene, find, attenuate, sky, hit, join, light),
        may_bring_back(scene, find, attenuate, sky, ray, depth, black, color),
    ensures
        color == ray_color(hit, join, light, ray, depth, black),
    decreases depth,
{
    if depth > 0 {
        let rest = (depth - 1) as nat;
        let found = choose|found: Option<HitResult<T>>|
            (#[trigger] find.ensures((scene, &ray), found)) && brought_back_after(
                scene,
                find,
                attenuate,
                sky,
                ray,
                found,
                rest,
                black,
                color,
            );
        assert(found == hit(ray));
        if let Some(result) = found {
            if let Some(next) = result.scattered_ray {
                let inner = choose|inner: Color<T>|
                    may_bring_back(scene, find, attenuate, sky, next, rest, black, inner)
                        && #[trigger] attenuate.ensures((inner, result.attenuation), color);
                lemma_brought_back_as_computed(
                    scene,
                    find,
                    attenuate,
                    sky,
                    hit,
                    join,
                    light,
                    next,
                    rest,
                    black,
                    inner,
                );
            }
        }
    }
}

/// Whether `color` is a color that a lane may hand in whose ray `ray` is
/// under way with the color `gathered` and at most `depth` bounces left,
/// whatever `find`, `attenuate` and `sky` answer: `black` once the bounces
/// are used up, and else what an answer of `find` for the ray leads to; see
/// [`handed_in_after`].
pub open spec fn may_hand_in<T, O, F, G, H>(
    scene: &Scene<O>,
    find: &F,
    attenuate: &G,
    sky: &H,
    ray: Ray<T>,
    gathered: Color<T>,
    depth: nat,
    black: Color<T>,
    color: Color<T>,
) -> bool where
    F: Fn(&Scene<O>, &Ray<T>) -> Option<HitResult<T>>,
    G: Fn(Color<T>, Color<T>) -> Color<T>,
    H: Fn(&Ray<T>) -> Color<T>,

    decreases depth, 0nat,
{
    if depth == 0 {
        color == black
    } else {
        exists|found: Option<HitResult<T>>|
            (#[trigger] find.ensures((scene, &ray), found)) && handed_in_after(
                scene,
                find,
                attenuate,
                sky,
                ray,
                gathered,
                found,
                (depth - 1) as nat,
                black,
                color,
            )
    }
}

/// Whether `color` is a color that a lane may hand in once its ray found
/// `found`, with `rest` bounces left: where the ray escapes, an answer of
/// `attenuate` for the gathered color and an answer of `sky`; where a
/// surface is hit, an answer of `attenuate` for the gathered color and the
/// share of the surface, handed in as it is if the surface keeps the ray,
/// and else carried on with the ray that is sent on.
pub open spec fn handed_in_after<T, O, F, G, H>(
    scene: &Scene<O>,
    find: &F,
    attenuate: &G,
    sky: &H,
    ray: Ray<T>,
    gathered: Color<T>,
    found: Option<HitResult<T>>,
    rest: nat,
    black: Color<T>,
    color: Color<T>,
) -> bool where
    F: Fn(&Scene<O>, &Ray<T>) -> Option<HitResult<T>>,
    G: Fn(Color<T>, Color<T>) -> Color<T>,
    H: Fn(&Ray<T>) -> Color<T>,

    decreases rest, 1nat,
{
    match found {
        None => exists|lit: Color<T>|
            (#[trigger] sky.ensures((&ray,), lit)) && attenuate.ensures((gathered, lit), color),
        Some(result) => exists|next_color: Color<T>|
            (#[trigger] attenuate.ensures((gathered, result.attenuation), next_color))
                && match result.scattered_ray {
                None => color == next_color,
                Some(next) => may_hand_in(
                    scene,
                    find,
                    attenuate,
                    sky,
                    next,
                    next_color,
                    rest,
                    black,
                    color,
                ),
            },
    }
}

/// The bounces of a lane can be counted from the first as well as from the
/// last.
pub proof fn lemma_lane_run_first<T>(
    hit: spec_fn(Ray<T>) -> Option<HitResult<T>>,
    join: spec_fn(Color<T>, Color<T>) -> Color<T>,
    lane: TraceLane<T>,
    bounces: nat,
)
    requires
        bounces >= 1,
    ensures
        lane_run(hit, join, lane, bounces) == lane_run(
            hit,
            join,
            lane_step(hit, join, lane),
            (bounces - 1) as nat,
        ),
    decreases bounces,
{
    let first = lane_step(hit, join, lane);
    if bounces > 1 {
        lemma_lane_run_first(hit, join, lane, (bounces - 1) as nat);
        assert(lane_run(hit, join, first, (bounces - 1) as nat) == lane_step(
            hit,
            join,
            lane_run(hit, join, first, (bounces - 2) as nat),
        ));
    } else {
        assert(lane_run(hit, join, lane, 0) == lane);
        assert(lane_run(hit, join, first, 0) == first);
    }
}

/// Where `find`, `attenuate` and `sky` compute `hit`, `join` and `light`,
/// the one color that a lane may hand in is that of its trace; see
/// [`lane_run`] and [`lane_end_color`].
pub proof fn lemma_handed_in_as_computed<T, O, F, G, H>(
    scene: &Scene<O>,
    find: &F,
    attenuate: &G,
    sky: &H,
    hit: spec_fn(Ray<T>) -> Option<HitResult<T>>,
    join: spec_fn(Color<T>, Color<T>) -> Color<T>,
    light: spec_fn(Ray<T>) -> Color<T>,
    ray: Ray<T>,
    gathered: Color<T>,
    depth: nat,
    black: Color<T>,
    color: Color<T>,
) where
    F: Fn(&Scene<O>, &Ray<T>) -> Option<HitResult<T>>,
    G: Fn(Color<T>, Color<T>) -> Color<T>,
    H: Fn(&Ray<T>) -> Color<T>,

    requires
        scalar_computes(scene, find, attenuate, sky, hit, join, light),
        may_hand_in(scene, find, attenuate, sky, ray, gathered, depth, black, color),
    ensures
        color == lane_color(hit, join, light, lane_of_ray(ray, gathered), depth, black),
    decreases depth,
{
    let lane = lane_of_ray(ray, gathered);
    if depth > 0 {
        let rest = (depth - 1) as nat;
        lemma_lane_run_first(hit, join, lane, depth);
        let found = choose|found: Option<HitResult<T>>|
            (#[trigger] find.ensures((scene, &ray), found)) && handed_in_after(
                scene,
                find,
                attenuate,
                sky,
                ray,
                gathered,
                found,
                rest,
                black,
                color,
            );
        assert(found == hit(ray));
        let stepped = lane_step(hit, join, lane);
        match found {
            None => {
                lemma_lane_run_rests(hit, join, stepped, 0, rest);
            },
            Some(result) => {
                let next_color = choose|next_color: Color<T>|
                    (#[trigger] attenuate.ensures((gathered, result.attenuation), next_color))
                        && match result.scattered_ray {
                        None => color == next_color,
                        Some(next) => may_hand_in(
                            scene,
                            find,
                            attenuate,
                            sky,
                            next,
                            next_color,
                            rest,
                            black,
                            color,
                        ),
                    };
                match result.scattered_ray {
                    None => {
                        lemma_lane_run_rests(hit, join, stepped, 0, rest);
                    },
                    Some(next) => {
                        lemma_handed_in_as_computed(
                            scene,
                            find,
                            attenuate,
                            sky,
                            hit,
                            join,
                            light,
                            next,
                            next_color,
                            rest,
                            black,
                            color,
                        );
                    },
                }
            },
        }
    }
}

/// Whether `next` is a batch that one bounce may make of `batch`: with an
/// answer of `bounce` for the rays of the batch, every lane is what
/// [`shaded`] allows for what its ray found.
pub open spec fn one_bounced<T: Scaler, O, const N: usize, F, G>(
    scene: &Scene<O>,
    bounce: &F,
    attenuate: &G,
    batch: TraceBatch<T, N>,
    next: TraceBatch<T, N>,
) -> bool where
    F: Fn(&Scene<O>, &PackedRays<T, N>) -> [Option<HitResult<T>>; N],
    G: Fn(Color<T>, Color<T>) -> Color<T>,
 {
    exists|found: [Option<HitResult<T>>; N]|
        (#[trigger] bounce.ensures((scene, &batch.spec_rays()), found)) && forall|i: int|
            0 <= i < N ==> shaded(attenuate, batch@[i], found@[i], #[trigger] next@[i])
}

/// Whether a batch holds a lane that is active.
pub open spec fn batch_active<T: Scaler, const N: usize>(batch: TraceBatch<T, N>) -> bool {
    exists|i: int| 0 <= i < N && (#[trigger] batch@[i]).state is Active
}

/// Whether `colors` holds, lane by lane, colors that the lanes of `batch`
/// may hand in when their trace ends; see [`ended`].
pub open spec fn batch_ended<T: Scaler, const N: usize, G, H>(
    attenuate: &G,
    sky: &H,
    batch: TraceBatch<T, N>,
    colors: Seq<Color<T>>,
    black: Color<T>,
) -> bool where G: Fn(Color<T>, Color<T>) -> Color<T>, H: Fn(&Ray<T>) -> Color<T> {
    &&& colors.len() == N
    &&& forall|i: int| 0 <= i < N ==> ended(attenuate, sky, batch@[i], #[trigger] colors[i], black)
}

/// Whether `colors` holds, lane by lane, colors that the lanes of `batch`
/// may hand in after a trace of at most `depth` bounces, whatever
/// `bounce`, `attenuate` and `sky` answer. The trace ends when the bounces
/// are used up or no lane is active; until then each bounce takes the
/// batch to one that [`one_bounced`] allows.
pub open spec fn may_trace<T: Scaler, O, const N: usize, F, G, H>(
    scene: &Scene<O>,
    bounce: &F,
    attenuate: &G,
    sky: &H,
    batch: TraceBatch<T, N>,
    depth: nat,
    black: Color<T>,
    colors: Seq<Color<T>>,
) -> bool where
    F: Fn(&Scene<O>, &PackedRays<T, N>) -> [Option<HitResult<T>>; N],
    G: Fn(Color<T>, Color<T>) -> Color<T>,
    H: Fn(&Ray<T>) -> Color<T>,

    decreases depth,
{
    if depth == 0 || !batch_active(batch) {
        batch_ended(attenuate, sky, batch, colors, black)
    } else {
        exists|next: TraceBatch<T, N>|
            (#[trigger] one_bounced(scene, bounce, attenuate, batch, next)) && may_trace(
                scene,
                bounce,
                attenuate,
                sky,
                next,
                (depth - 1) as nat,
                black,
                colors,
            )
    }
}

/// Whether `start` is the batch with which the rays `rays` start their
/// trace.
pub open spec fn starts_batch<T: Scaler, const N: usize>(
    rays: PackedRays<T, N>,
    start: TraceBatch<T, N>,
    white: Color<T>,
    black: Color<T>,
) -> bool {
    &&& start.spec_rays() == rays
    &&& start@ == Seq::new(N as nat, |i: int| lane_at_start(rays@[i], white, black))
}

/// Where `bounce`, `attenuate` and `sky` compute `hit`, `join` and
/// `light`, the colors that the lanes of a batch may hand in are those of
/// their traces; see [`lane_run`] and [`lane_end_color`].
pub proof fn lemma_traced_as_computed<T: Scaler, O, const N: usize, F, G, H>(
    scene: &Scene<O>,
    bounce: &F,
    attenuate: &G,
    sky: &H,
    hit: spec_fn(Ray<T>) -> Option<HitResult<T>>,
    join: spec_fn(Color<T>, Color<T>) -> Color<T>,
    light: spec_fn(Ray<T>) -> Color<T>,
    batch: TraceBatch<T, N>,
    depth: nat,
    black: Color<T>,
    colors: Seq<Color<T>>,
) where
    F: Fn(&Scene<O>, &PackedRays<T, N>) -> [Option<HitResult<T>>; N],
    G: Fn(Color<T>, Color<T>) -> Color<T>,
    H: Fn(&Ray<T>) -> Color<T>,

    requires
        kernel_computes(scene, bounce, attenuate, sky, hit, join, light),
        may_trace(scene, bounce, attenuate, sky, batch, depth, black, colors),
    ensures
        colors.len() == N,
        forall|i: int|
            0 <= i < N ==> #[trigger] colors[i] == lane_end_color(
                join,
                light,
                lane_run(hit, join, batch@[i], depth),
                black,
            ),
    decreases depth,
{
    if depth == 0 || !batch_active(batch) {
        assert forall|i: int| 0 <= i < N implies #[trigger] colors[i] == lane_end_color(
            join,
            light,
            lane_run(hit, join, batch@[i], depth),
            black,
        ) by {
            assert(ended(attenuate, sky, batch@[i], colors[i], black));
            if depth > 0 {
                assert(!(batch@[i].state is Active));
                lemma_lane_run_rests(hit, join, batch@[i], 0, depth);
            }
        }
    } else {
        let rest = (depth - 1) as nat;
        let next = choose|next: TraceBatch<T, N>|
            (#[trigger] one_bounced(scene, bounce, attenuate, batch, next)) && may_trace(
                scene,
                bounce,
                attenuate,
                sky,
                next,
                rest,
                black,
                colors,
            );
        let found = choose|found: [Option<HitResult<T>>; N]|
            (#[trigger] bounce.ensures((scene, &batch.spec_rays()), found)) && forall|i: int|
                0 <= i < N ==> shaded(attenuate, batch@[i], found@[i], #[trigger] next@[i]);
        batch.lemma_spec_rays();
        lemma_traced_as_computed(
            scene,
            bounce,
            attenuate,
            sky,
            hit,
            join,
            light,
            next,
            rest,
            black,
            colors,
        );
        assert forall|i: int| 0 <= i < N implies #[trigger] colors[i] == lane_end_color(
            join,
            light,
            lane_run(hit, join, batch@[i], depth),
            black,
        ) by {
            assert(shaded(attenuate, batch@[i], found@[i], next@[i]));
            if batch@[i].state is Active {
                assert(batch.spec_rays()@[i].enabled);
                assert(found@[i] == hit(batch.spec_rays()@[i].ray));
            }
            assert(next@[i] == lane_step(hit, join, batch@[i]));
            lemma_lane_run_first(hit, join, batch@[i], depth);
        }
    }
}

/// A lane that rests from the start hands in the color that it starts
/// with.
pub proof fn lemma_resting_lane_keeps_color<T: Scaler, O, const N: usize, F, G, H>(
    scene: &Scene<O>,
    bounce: &F,
    attenuate: &G,
    sky: &H,
    batch: TraceBatch<T, N>,
    depth: nat,
    black: Color<T>,
    colors: Seq<Color<T>>,
    i: int,
) where
    F: Fn(&Scene<O>, &PackedRays<T, N>) -> [Option<HitResult<T>>; N],
    G: Fn(Color<T>, Color<T>) -> Color<T>,
    H: Fn(&Ray<T>) -> Color<T>,

    requires
        0 <= i < N,
        batch@[i].state is Absorbed,
        may_trace(scene, bounce, attenuate, sky, batch, depth, black, colors),
    ensures
        colors[i] == batch@[i].color,
    decreases depth,
{
    if depth == 0 || !batch_active(batch) {
        assert(ended(attenuate, sky, batch@[i], colors[i], black));
    } else {
        let rest = (depth - 1) as nat;
        let next = choose|next: TraceBatch<T, N>|
            (#[trigger] one_bounced(scene, bounce, attenuate, batch, next)) && may_trace(
                scene,
                bounce,
                attenuate,
                sky,
                next,
                rest,
                black,
                colors,
            );
        let found = choose|found: [Option<HitResult<T>>; N]|
            (#[trigger] bounce.ensures((scene, &batch.spec_rays()), found)) && forall|i: int|
                0 <= i < N ==> shaded(attenuate, batch@[i], found@[i], #[trigger] next@[i]);
        assert(shaded(attenuate, batch@[i], found@[i], next@[i]));
        lemma_resting_lane_keeps_color(
            scene,
            bounce,
            attenuate,
            sky,
            next,
            rest,
            black,
            colors,
            i,
        );
    }
}

/// Whether `bounced` is a list of batches that one bounce of the first
/// `active` batches may make of `list`: each of these batches is taken to
/// one that [`one_bounced`] allows, and the batches after them stay.
pub open spec fn front_bounced<T: Scaler, O, const N: usize, F, G>(
    scene: &Scene<O>,
    bounce: &F,
    attenuate: &G,
    list: Seq<TraceBatch<T, N>>,
    active: usize,
    bounced: Seq<TraceBatch<T, N>>,
) -> bool where
    F: Fn(&Scene<O>, &PackedRays<T, N>) -> [Option<HitResult<T>>; N],
    G: Fn(Color<T>, Color<T>) -> Color<T>,
 {
    &&& bounced.len() == list.len()
    &&& forall|chunk: int|
        0 <= chunk < active && chunk < list.len() ==> one_bounced(
            scene,
            bounce,
            attenuate,
            list[chunk],
            #[trigger] bounced[chunk],
        )
    &&& forall|chunk: int| active <= chunk < list.len() ==> #[trigger] bounced[chunk] == list[chunk]
}

/// Whether `next` holds the lanes of `bounced` with the active lanes
/// brought to the front, so that `next_active` batches are in use. Where
/// the lanes are not moved in place, the active lanes stand first in their
/// order, and the other lanes after them in theirs.
pub open spec fn rearranged<T: Scaler, const N: usize>(
    bounced: Seq<TraceBatch<T, N>>,
    next: Seq<TraceBatch<T, N>>,
    next_active: usize,
    in_place: bool,
) -> bool {
    &&& next.len() == bounced.len()
    &&& flat_lanes(next).to_multiset() == flat_lanes(bounced).to_multiset()
    &&& packed_to_front(next, next_active)
    &&& !in_place ==> flat_lanes(next) == live_first(flat_lanes(bounced))
}

/// Whether `colors` holds, lane by lane, colors that the lanes of `list`
/// may hand in when their trace ends; see [`ended`].
pub open spec fn list_ended<T: Scaler, const N: usize, G, H>(
    attenuate: &G,
    sky: &H,
    list: Seq<TraceBatch<T, N>>,
    colors: Seq<PackedColor<T, N>>,
    black: Color<T>,
) -> bool where G: Fn(Color<T>, Color<T>) -> Color<T>, H: Fn(&Ray<T>) -> Color<T> {
    &&& colors.len() == list.len()
    &&& forall|j: int, i: int|
        0 <= j < list.len() && 0 <= i < N ==> ended(
            attenuate,
            sky,
            list[j]@[i],
            #[trigger] colors[j]@[i],
            black,
        )
}

/// Whether `colors` holds colors that the lanes of `list`, of which the
/// first `active` batches are in use, may hand in after a trace of at most
/// `depth` bounces, whatever `bounce`, `attenuate` and `sky` answer. The
/// trace ends when the bounces are used up or no batch is in use; until
/// then each bounce takes the batches in use one step on, see
/// [`front_bounced`], and brings the active lanes to the front, see
/// [`rearranged`].
pub open spec fn may_trace_list<T: Scaler, O, const N: usize, F, G, H>(
    scene: &Scene<O>,
    bounce: &F,
    attenuate: &G,
    sky: &H,
    list: Seq<TraceBatch<T, N>>,
    active: usize,
    in_place: bool,
    depth: nat,
    black: Color<T>,
    colors: Seq<PackedColor<T, N>>,
) -> bool where
    F: Fn(&Scene<O>, &PackedRays<T, N>) -> [Option<HitResult<T>>; N],
    G: Fn(Color<T>, Color<T>) -> Color<T>,
    H: Fn(&Ray<T>) -> Color<T>,

    decreases depth, 0nat,
{
    if depth == 0 || active == 0 {
        list_ended(attenuate, sky, list, colors, black)
    } else {
        exists|bounced: Seq<TraceBatch<T, N>>|
            (#[trigger] front_bounced(scene, bounce, attenuate, list, active, bounced))
                && list_traced_after(
                scene,
                bounce,
                attenuate,
                sky,
                bounced,
                in_place,
                (depth - 1) as nat,
                black,
                colors,
            )
    }
}

/// Whether `colors` holds colors that the lanes of `bounced` may hand in
/// once their active lanes are brought to the front and the trace goes on
/// for at most `rest` bounces; see [`may_trace_list`].
pub open spec fn list_traced_after<T: Scaler, O, const N: usize, F, G, H>(
    scene: &Scene<O>,
    bounce: &F,
    attenuate: &G,
    sky: &H,
    bounced: Seq<TraceBatch<T, N>>,
    in_place: bool,
    rest: nat,
    black: Color<T>,
    colors: Seq<PackedColor<T, N>>,
) -> bool where
    F: Fn(&Scene<O>, &PackedRays<T, N>) -> [Option<HitResult<T>>; N],
    G: Fn(Color<T>, Color<T>) -> Color<T>,
    H: Fn(&Ray<T>) -> Color<T>,

    decreases rest, 1nat,
{
    exists|next: Seq<TraceBatch<T, N>>, next_active: usize|
        (#[trigger] rearranged(bounced, next, next_active, in_place)) && may_trace_list(
            scene,
            bounce,
            attenuate,
            sky,
            next,
            next_active,
            in_place,
            rest,
            black,
            colors,
        )
}

/// Whether `start` is the list of batches with which the rays of `rays`
/// start their trace.
pub open spec fn starts_list<T: Scaler, const N: usize>(
    rays: Seq<PackedRays<T, N>>,
    start: Seq<TraceBatch<T, N>>,
    white: Color<T>,
    black: Color<T>,
) -> bool {
    &&& start.len() == rays.len()
    &&& forall|j: int|
        0 <= j < rays.len() ==> starts_batch(rays[j], #[trigger] start[j], white, black)
}

/// The colors that the lanes of a list of batches hand in after a trace
/// of at most `depth` bounces, in the order of the lanes.
pub open spec fn list_colors<T: Scaler, const N: usize>(
    list: Seq<TraceBatch<T, N>>,
    hit: spec_fn(Ray<T>) -> Option<HitResult<T>>,
    join: spec_fn(Color<T>, Color<T>) -> Color<T>,
    light: spec_fn(Ray<T>) -> Color<T>,
    depth: nat,
    black: Color<T>,
) -> Seq<Color<T>> {
    flat_lanes(list).map_values(
        |lane: TraceLane<T>| lane_end_color(join, light, lane_run(hit, join, lane, depth), black),
    )
}

/// Where `bounce`, `attenuate` and `sky` compute `hit`, `join` and
/// `light`, the colors that the lanes of a list of batches may hand in are
/// those of their traces, in some order; see [`list_colors`].
pub proof fn lemma_list_traced_as_computed<T: Scaler, O, const N: usize, F, G, H>(
    scene: &Scene<O>,
    bounce: &F,
    attenuate: &G,
    sky: &H,
    hit: spec_fn(Ray<T>) -> Option<HitResult<T>>,
    join: spec_fn(Color<T>, Color<T>) -> Color<T>,
    light: spec_fn(Ray<T>) -> Color<T>,
    list: Seq<TraceBatch<T, N>>,
    active: usize,
    in_place: bool,
    depth: nat,
    black: Color<T>,
    colors: Seq<PackedColor<T, N>>,
) where
    F: Fn(&Scene<O>, &PackedRays<T, N>) -> [Option<HitResult<T>>; N],
    G: Fn(Color<T>, Color<T>) -> Color<T>,
    H: Fn(&Ray<T>) -> Color<T>,

    requires
        N >= 1,
        kernel_computes(scene, bounce, attenuate, sky, hit, join, light),
        active <= list.len(),
        forall|chunk: int, slot: int|
            active <= chunk < list.len() && 0 <= slot < N ==> !#[trigger] active_at(
                list,
                chunk,
                slot,
            ),
        may_trace_list(scene, bounce, attenuate, sky, list, active, in_place, depth, black, colors),
    ensures
        colors.len() == list.len(),
        flat(color_rows(colors), N as int).to_multiset() == list_colors(
            list,
            hit,
            join,
            light,
            depth,
            black,
        ).to_multiset(),
    decreases depth,
{
    let end_after = |bounces: nat|
        |lane: TraceLane<T>|
            lane_end_color(join, light, lane_run(hit, join, lane, bounces), black);
    if depth == 0 || active == 0 {
        assert forall|row: int, column: int|
            0 <= row < list.len() && 0 <= column < N implies #[trigger] color_rows(
            colors,
        )[row][column] == end_after(depth)(lane_rows(list)[row][column]) by {
            assert(ended(attenuate, sky, list[row]@[column], colors[row]@[column], black));
            if depth > 0 {
                assert(!active_at(list, row, column));
                lemma_lane_run_rests(hit, join, list[row]@[column], 0, depth);
            }
        }
        lemma_flat_map(lane_rows(list), color_rows(colors), N as int, end_after(depth));
    } else {
        let rest = (depth - 1) as nat;
        let bounced = choose|bounced: Seq<TraceBatch<T, N>>|
            (#[trigger] front_bounced(scene, bounce, attenuate, list, active, bounced))
                && list_traced_after(
                scene,
                bounce,
                attenuate,
                sky,
                bounced,
                in_place,
                rest,
                black,
                colors,
            );
        let (next, next_active) = choose|next: Seq<TraceBatch<T, N>>, next_active: usize|
            (#[trigger] rearranged(bounced, next, next_active, in_place)) && may_trace_list(
                scene,
                bounce,
                attenuate,
                sky,
                next,
                next_active,
                in_place,
                rest,
                black,
                colors,
            );
        lemma_list_traced_as_computed(
            scene,
            bounce,
            attenuate,
            sky,
            hit,
            join,
            light,
            next,
            next_active,
            in_place,
            rest,
            black,
            colors,
        );
        let step = |lane: TraceLane<T>| lane_step(hit, join, lane);
        assert forall|row: int, column: int|
            0 <= row < list.len() && 0 <= column < N implies #[trigger] lane_rows(
            bounced,
        )[row][column] == step(lane_rows(list)[row][column]) by {
            if row < active {
                lemma_one_bounced_as_computed(
                    scene,
                    bounce,
                    attenuate,
                    hit,
                    join,
                    list[row],
                    bounced[row],
                    column,
                );
            } else {
                assert(bounced[row] == list[row]);
                assert(!active_at(list, row, column));
            }
        }
        lemma_flat_map(lane_rows(list), lane_rows(bounced), N as int, step);
        lemma_map_keeps_permutation(flat_lanes(next), flat_lanes(bounced), end_after(rest));
        assert(flat_lanes(list).map_values(step).map_values(end_after(rest)) =~= list_colors(
            list,
            hit,
            join,
            light,
            depth,
            black,
        )) by {
            assert forall|k: int| 0 <= k < flat_lanes(list).len() implies flat_lanes(
                list,
            ).map_values(step).map_values(end_after(rest))[k] == list_colors(
                list,
                hit,
                join,
                light,
                depth,
                black,
            )[k] by {
                lemma_lane_run_first(hit, join, flat_lanes(list)[k], depth);
            }
        }
    }
}

/// The colors of the traces of the batches with which a list of rays
/// starts are the colors of the traces of the rays.
pub proof fn lemma_list_colors_of_rays<T: Scaler, const N: usize>(
    rays: Seq<PackedRays<T, N>>,
    start: Seq<TraceBatch<T, N>>,
    hit: spec_fn(Ray<T>) -> Option<HitResult<T>>,
    join: spec_fn(Color<T>, Color<T>) -> Color<T>,
    light: spec_fn(Ray<T>) -> Color<T>,
    white: Color<T>,
    black: Color<T>,
    depth: nat,
)
    requires
        N >= 1,
        starts_list(rays, start, white, black),
    ensures
        list_colors(start, hit, join, light, depth, black) == traced_colors(
            rays,
            hit,
            join,
            light,
            white,
            black,
            depth,
        ),
{
    let to_lane = |ray: RayLane<T>| lane_at_start(ray, white, black);
    assert forall|row: int, column: int|
        0 <= row < rays.len() && 0 <= column < N implies #[trigger] lane_rows(
        start,
    )[row][column] == to_lane(ray_rows(rays)[row][column]) by {
        assert(starts_batch(rays[row], start[row], white, black));
    }
    lemma_flat_map(ray_rows(rays), lane_rows(start), N as int, to_lane);
    assert(list_colors(start, hit, join, light, depth, black) =~= traced_colors(
        rays,
        hit,
        join,
        light,
        white,
        black,
        depth,
    ));
}

/// Where `bounce` and `attenuate` compute `hit` and `join`, one bounce
/// takes each lane of a batch to the lane that [`lane_step`] gives.
pub proof fn lemma_one_bounced_as_computed<T: Scaler, O, const N: usize, F, G>(
    scene: &Scene<O>,
    bounce: &F,
    attenuate: &G,
    hit: spec_fn(Ray<T>) -> Option<HitResult<T>>,
    join: spec_fn(Color<T>, Color<T>) -> Color<T>,
    batch: TraceBatch<T, N>,
    next: TraceBatch<T, N>,
    i: int,
) where
    F: Fn(&Scene<O>, &PackedRays<T, N>) -> [Option<HitResult<T>>; N],
    G: Fn(Color<T>, Color<T>) -> Color<T>,

    requires
        0 <= i < N,
        bounce_computes(scene, bounce, attenuate, hit, join),
        one_bounced(scene, bounce, attenuate, batch, next),
    ensures
        next@[i] == lane_step(hit, join, batch@[i]),
{
    let found = choose|found: [Option<HitResult<T>>; N]|
        (#[trigger] bounce.ensures((scene, &batch.spec_rays()), found)) && forall|i: int|
            0 <= i < N ==> shaded(attenuate, batch@[i], found@[i], #[trigger] next@[i]);
    batch.lemma_spec_rays();
    assert(shaded(attenuate, batch@[i], found@[i], next@[i]));
    if batch@[i].state is Active {
        assert(batch.spec_rays()@[i].enabled);
        assert(found@[i] == hit(batch.spec_rays()@[i].ray));
    }
}

/// The lane with which a single ray starts its trace.
pub open spec fn lane_of_ray<T>(ray: Ray<T>, white: Color<T>) -> TraceLane<T> {
    TraceLane { ray, color: white, state: LaneState::Active }
}

/// Whether `colors` holds, in some order, the colors that the lanes of
/// `rays` hand in after a trace of at most `bounces` bounces, for every
/// `hit`, `join` and `light` that the three functions handed to a tracer
/// compute; see [`lane_color`].
pub open spec fn colors_as_computed<T: Scaler, O, const N: usize, F, G, H>(
    scene: &Scene<O>,
    bounce: &F,
    attenuate: &G,
    sky: &H,
    rays: Seq<PackedRays<T, N>>,
    colors: Seq<PackedColor<T, N>>,
    white: Color<T>,
    black: Color<T>,
    bounces: nat,
) -> bool where
    F: Fn(&Scene<O>, &PackedRays<T, N>) -> [Option<HitResult<T>>; N],
    G: Fn(Color<T>, Color<T>) -> Color<T>,
    H: Fn(&Ray<T>) -> Color<T>,
 {
    forall|
        hit: spec_fn(Ray<T>) -> Option<HitResult<T>>,
        join: spec_fn(Color<T>, Color<T>) -> Color<T>,
        light: spec_fn(Ray<T>) -> Color<T>,
    | #[trigger]
        kernel_computes(scene, bounce, attenuate, sky, hit, join, light) ==> flat(
            color_rows(colors),
            N as int,
        ).to_multiset() == traced_colors(
            rays,
            hit,
            join,
            light,
            white,
            black,
            bounces,
        ).to_multiset()
}

/// Whether `colors` holds, lane by lane, the colors that the lanes of
/// `rays` hand in after a trace of at most `bounces` bounces, for every
/// `hit`, `join` and `light` that the three functions handed to a tracer
/// compute; see [`lane_color`].
pub open spec fn batch_as_computed<T: Scaler, O, const N: usize, F, G, H>(
    scene: &Scene<O>,
    bounce: &F,
    attenuate: &G,
    sky: &H,
    rays: PackedRays<T, N>,
    colors: PackedColor<T, N>,
    white: Color<T>,
    black: Color<T>,
    bounces: nat,
) -> bool where
    F: Fn(&Scene<O>, &PackedRays<T, N>) -> [Option<HitResult<T>>; N],
    G: Fn(Color<T>, Color<T>) -> Color<T>,
    H: Fn(&Ray<T>) -> Color<T>,
 {
    forall|
        hit: spec_fn(Ray<T>) -> Option<HitResult<T>>,
        join: spec_fn(Color<T>, Color<T>) -> Color<T>,
        light: spec_fn(Ray<T>) -> Color<T>,
    | #[trigger]
        kernel_computes(scene, bounce, attenuate, sky, hit, join, light) ==> colors@
            == Seq::new(
            N as nat,
            |i: int|
                lane_color(
                    hit,
                    join,
                    light,
                    lane_at_start(rays@[i], white, black),
                    bounces,
                    black,
                ),
        )
}

/// Whether `color` is the color that `ray` hands in after a trace of at
/// most `bounces` bounces, for every `hit`, `join` and `light` that
/// `find`, `attenuate` and `sky` compute; see [`lane_color`].
pub open spec fn ray_as_computed<T, O, F, G, H>(
    scene: &Scene<O>,
    find: &F,
    attenuate: &G,
    sky: &H,
    ray: Ray<T>,
    color: Color<T>,
    white: Color<T>,
    black: Color<T>,
    bounces: nat,
) -> bool where
    F: Fn(&Scene<O>, &Ray<T>) -> Option<HitResult<T>>,
    G: Fn(Color<T>, Color<T>) -> Color<T>,
    H: Fn(&Ray<T>) -> Color<T>,
 {
    forall|
        hit: spec_fn(Ray<T>) -> Option<HitResult<T>>,
        join: spec_fn(Color<T>, Color<T>) -> Color<T>,
        light: spec_fn(Ray<T>) -> Color<T>,
    | #[trigger]
        scalar_computes(scene, find, attenuate, sky, hit, join, light) ==> color == lane_color(
            hit,
            join,
            light,
            lane_of_ray(ray, white),
            bounces,
            black,
        )
}

/// Whether `color` is the color that `ray` brings back from at most
/// `depth` bounces, counted from the far end of its path, for every `hit`,
/// `join` and `light` that `find`, `attenuate` and `sky` compute; see
/// [`ray_color`].
pub open spec fn path_as_computed<T, O, F, G, H>(
    scene: &Scene<O>,
    find: &F,
    attenuate: &G,
    sky: &H,
    ray: Ray<T>,
    color: Color<T>,
    black: Color<T>,
    depth: nat,
) -> bool where
    F: Fn(&Scene<O>, &Ray<T>) -> Option<HitResult<T>>,
    G: Fn(Color<T>, Color<T>) -> Color<T>,
    H: Fn(&Ray<T>) -> Color<T>,
 {
    forall|
        hit: spec_fn(Ray<T>) -> Option<HitResult<T>>,
        join: spec_fn(Color<T>, Color<T>) -> Color<T>,
        light: spec_fn(Ray<T>) -> Color<T>,
    | #[trigger]
        scalar_computes(scene, find, attenuate, sky, hit, join, light) ==> color == ray_color(
            hit,
            join,
            light,
            ray,
            depth,
            black,
        )
}

/// Tracing batch by batch, with a second list of batches, or with the
/// lanes moved in place hands in the same colors, up to the order of the
/// lanes: each way hands in, for every ray, the color that the ray gathers
/// on its own. This holds wherever the three functions handed to the
/// tracers compute functions of their arguments.
pub proof fn lemma_strategies_agree<T: Scaler, O, const N: usize, F, G, H>(
    scene: &Scene<O>,
    bounce: &F,
    attenuate: &G,
    sky: &H,
    hit: spec_fn(Ray<T>) -> Option<HitResult<T>>,
    join: spec_fn(Color<T>, Color<T>) -> Color<T>,
    light: spec_fn(Ray<T>) -> Color<T>,
    rays: Seq<PackedRays<T, N>>,
    single: Seq<PackedColor<T, N>>,
    double: Seq<PackedColor<T, N>>,
    in_place: Seq<PackedColor<T, N>>,
    white: Color<T>,
    black: Color<T>,
    bounces: nat,
) where
    F: Fn(&Scene<O>, &PackedRays<T, N>) -> [Option<HitResult<T>>; N],
    G: Fn(Color<T>, Color<T>) -> Color<T>,
    H: Fn(&Ray<T>) -> Color<T>,

    requires
        N >= 1,
        kernel_computes(scene, bounce, attenuate, sky, hit, join, light),
        single.len() == rays.len(),
        forall|j: int|
            0 <= j < rays.len() ==> batch_as_computed(
                scene,
                bounce,
                attenuate,
                sky,
                rays[j],
                #[trigger] single[j],
                white,
                black,
                bounces,
            ),
        colors_as_computed(scene, bounce, attenuate, sky, rays, double, white, black, bounces),
        colors_as_computed(scene, bounce, attenuate, sky, rays, in_place, white, black, bounces),
    ensures
        flat(color_rows(single), N as int) == traced_colors(
            rays,
            hit,
            join,
            light,
            white,
            black,
            bounces,
        ),
        flat(color_rows(single), N as int).to_multiset() == flat(
            color_rows(double),
            N as int,
        ).to_multiset(),
        flat(color_rows(double), N as int).to_multiset() == flat(
            color_rows(in_place),
            N as int,
        ).to_multiset(),
{
    let f = |ray: RayLane<T>|
        lane_color(hit, join, light, lane_at_start(ray, white, black), bounces, black);
    assert forall|row: int, column: int|
        0 <= row < rays.len() && 0 <= column < N implies #[trigger] color_rows(
        single,
    )[row][column] == f(ray_rows(rays)[row][column]) by {
        assert(batch_as_computed(
            scene,
            bounce,
            attenuate,
            sky,
            rays[row],
            single[row],
            white,
            black,
            bounces,
        ));
        assert(single[row]@[column] == f(rays[row]@[column]));
    }
    lemma_flat_map(ray_rows(rays), color_rows(single), N as int, f);
}

/// Tracing each ray of a list on its own hands in, ray by ray, the colors
/// that tracing the same rays batch by batch hands in, where every lane of
/// the batches holds one of the rays and `find` finds for a ray what
/// `bounce` finds for it in a batch.
pub proof fn lemma_alone_agrees<T: Scaler, O, const N: usize, E, F, G, H>(
    scene: &Scene<O>,
    find: &E,
    bounce: &F,
    attenuate: &G,
    sky: &H,
    hit: spec_fn(Ray<T>) -> Option<HitResult<T>>,
    join: spec_fn(Color<T>, Color<T>) -> Color<T>,
    light: spec_fn(Ray<T>) -> Color<T>,
    rays: Seq<PackedRays<T, N>>,
    alone: Seq<Color<T>>,
    single: Seq<PackedColor<T, N>>,
    white: Color<T>,
    black: Color<T>,
    bounces: nat,
) where
    E: Fn(&Scene<O>, &Ray<T>) -> Option<HitResult<T>>,
    F: Fn(&Scene<O>, &PackedRays<T, N>) -> [Option<HitResult<T>>; N],
    G: Fn(Color<T>, Color<T>) -> Color<T>,
    H: Fn(&Ray<T>) -> Color<T>,

    requires
        N >= 1,
        kernel_computes(scene, bounce, attenuate, sky, hit, join, light),
        scalar_computes(scene, find, attenuate, sky, hit, join, light),
        forall|j: int, i: int| 0 <= j < rays.len() && 0 <= i < N ==> (#[trigger] rays[j]@[i]).enabled,
        alone.len() == rays.len() * N,
        forall|k: int|
            0 <= k < alone.len() ==> ray_as_computed(
                scene,
                find,
                attenuate,
                sky,
                flat(ray_rows(rays), N as int)[k].ray,
                #[trigger] alone[k],
                white,
                black,
                bounces,
            ),
        single.len() == rays.len(),
        forall|j: int|
            0 <= j < rays.len() ==> batch_as_computed(
                scene,
                bounce,
                attenuate,
                sky,
                rays[j],
                #[trigger] single[j],
                white,
                black,
                bounces,
            ),
    ensures
        alone == flat(color_rows(single), N as int),
{
    let f = |ray: RayLane<T>|
        lane_color(hit, join, light, lane_at_start(ray, white, black), bounces, black);
    assert forall|row: int, column: int|
        0 <= row < rays.len() && 0 <= column < N implies #[trigger] color_rows(
        single,
    )[row][column] == f(ray_rows(rays)[row][column]) by {
        assert(batch_as_computed(
            scene,
            bounce,
            attenuate,
            sky,
            rays[row],
            single[row],
            white,
            black,
            bounces,
        ));
        assert(single[row]@[column] == f(rays[row]@[column]));
    }
    lemma_flat_map(ray_rows(rays), color_rows(single), N as int, f);
    let lanes = flat(ray_rows(rays), N as int);
    assert forall|k: int| 0 <= k < alone.len() implies alone[k] == lanes.map_values(f)[k] by {
        lemma_flat_cell(rays.len() as int, N as int, k);
        assert(rays[k / (N as int)]@[k % (N as int)].enabled);
        assert(ray_as_computed(
            scene,
            find,
            attenuate,
            sky,
            lanes[k].ray,
            alone[k],
            white,
            black,
            bounces,
        ));
    }
    assert(alone =~= lanes.map_values(f));
}

} // verus!
