//! The lanes of a trace: what a bounce does to a lane, and how a batch of
//! lanes starts, advances and ends.

use crate::color::{lemma_packed_color_len, Color, PackedColor};
use crate::objects::HitResult;
use crate::packed::{lemma_packed_len, Mask, Packed, Scaler};
use crate::ray::{lemma_packed_rays_len, PackedRays, Ray, RayLane};
use vstd::prelude::*;

verus! {


broadcast use {lemma_packed_len, lemma_packed_color_len, lemma_packed_rays_len};

/// Where the ray of a lane stands.
#[derive(Clone, Copy, Debug, PartialEq, Eq)]
pub enum LaneState {
    /// The lane carries a ray that is still to be traced.
    Active,
    /// The ray left the scene without a hit; the lane is owed the sky.
    Escaped,
    /// The ray ended on a surface, or the lane never carried one.
    Absorbed,
}

/// One lane of a trace: the ray it holds, the color gathered so far, and
/// where the ray stands.
#[derive(Clone, Copy, Debug)]
pub struct TraceLane<T> {
    pub ray: Ray<T>,
    pub color: Color<T>,
    pub state: LaneState,
}

/// What one bounce made of the ray of a lane.
#[derive(Clone, Copy, Debug)]
pub enum LaneOutcome<T> {
    /// No surface was hit.
    Missed,
    /// A surface was hit and kept the ray; `color` is the color of the
    /// lane after the hit.
    Absorbed { color: Color<T> },
    /// A surface was hit and sent `ray` on; `color` is the color of the
    /// lane after the hit.
    Scattered { color: Color<T>, ray: Ray<T> },
}

/// The lane after a bounce with the given outcome. Only a lane that is
/// active takes part in a bounce; the other states are final.
pub open spec fn lane_after<T>(lane: TraceLane<T>, outcome: LaneOutcome<T>) -> TraceLane<T> {
    if lane.state is Active {
        match outcome {
            LaneOutcome::Missed => TraceLane {
                ray: lane.ray,
                color: lane.color,
                state: LaneState::Escaped,
            },
            LaneOutcome::Absorbed { color } => TraceLane {
                ray: lane.ray,
                color,
                state: LaneState::Absorbed,
            },
            LaneOutcome::Scattered { color, ray } => TraceLane {
                ray,
                color,
                state: LaneState::Active,
            },
        }
    } else {
        lane
    }
}

/// The lane with which a ray starts its trace: active and white if the
/// ray is enabled, else at rest and black.
pub open spec fn lane_at_start<T>(ray: RayLane<T>, white: Color<T>, black: Color<T>) -> TraceLane<
    T,
> {
    if ray.enabled {
        TraceLane { ray: ray.ray, color: white, state: LaneState::Active }
    } else {
        TraceLane { ray: ray.ray, color: black, state: LaneState::Absorbed }
    }
}

/// The color that a lane hands in when the trace ends: black if its ray
/// was still under way, the color lit by the sky if the ray escaped, and
/// the gathered color otherwise.
pub open spec fn lane_at_end<T>(lane: TraceLane<T>, lit: Color<T>, black: Color<T>) -> Color<T> {
    match lane.state {
        LaneState::Active => black,
        LaneState::Escaped => lit,
        LaneState::Absorbed => lane.color,
    }
}

/// `N` lanes of a trace that advance together.
#[derive(Clone, Copy, Debug)]
pub struct TraceBatch<T: Scaler, const N: usize> {
    rays: PackedRays<T, N>,
    color: PackedColor<T, N>,
    hit_sky: Packed<T::MaskType, N>,
}

impl<T: Scaler, const N: usize> View for TraceBatch<T, N> {
    type V = Seq<TraceLane<T>>;

    closed spec fn view(&self) -> Seq<TraceLane<T>> {
        Seq::new(
            N as nat,
            |i: int|
                TraceLane {
                    ray: self.rays@[i].ray,
                    color: self.color@[i],
                    state: if self.rays@[i].enabled {
                        LaneState::Active
                    } else if self.hit_sky@[i].is_set() {
                        LaneState::Escaped
                    } else {
                        LaneState::Absorbed
                    },
                },
        )
    }
}

/// A batch of a trace has exactly `N` lanes.
pub broadcast proof fn lemma_trace_batch_len<T: Scaler, const N: usize>(b: TraceBatch<T, N>)
    ensures
        #[trigger] b@.len() == N,
{
}

impl<T: Scaler, const N: usize> TraceBatch<T, N> {
    /// The batch at the start of a trace.
    pub fn new(rays: PackedRays<T, N>, white: Color<T>, black: Color<T>) -> (r: TraceBatch<T, N>)
        ensures
            r.spec_rays() == rays,
            r@ == Seq::new(N as nat, |i: int| lane_at_start(rays@[i], white, black)),
    {
        proof {
            T::MaskType::lemma_mask_laws();
        }
        let enabled = rays.enabled();
        let mut color = PackedColor::<T, N>::broadcast_scaler(black);
        color.assign_masked(PackedColor::broadcast_scaler(white), enabled);
        let hit_sky = Packed::<T::MaskType, N>::broadcast_bool(false);
        let r = TraceBatch { rays, color, hit_sky };
        assert forall|i: int| 0 <= i < N implies r@[i] == lane_at_start(rays@[i], white, black) by {
            assert(enabled.bits()[i] == rays@[i].enabled);
        }
        assert(r@ =~= Seq::new(N as nat, |i: int| lane_at_start(rays@[i], white, black)));
        r
    }

    /// The rays of the lanes; a lane is enabled there if it is active here.
    pub closed spec fn spec_rays(&self) -> PackedRays<T, N> {
        self.rays
    }

    /// The rays of a batch hold the rays of its lanes, and enable the
    /// lanes that are active.
    pub proof fn lemma_spec_rays(self)
        ensures
            self.spec_rays()@ == Seq::new(
                N as nat,
                |i: int| RayLane { ray: self@[i].ray, enabled: self@[i].state is Active },
            ),
    {
        assert(self.rays@ =~= Seq::new(
            N as nat,
            |i: int| RayLane { ray: self@[i].ray, enabled: self@[i].state is Active },
        ));
    }

    /// The rays of the lanes; a lane is enabled there if it is active here.
    pub fn rays(&self) -> (r: PackedRays<T, N>)
        ensures
            r == self.spec_rays(),
            r@ == Seq::new(
                N as nat,
                |i: int| RayLane { ray: self@[i].ray, enabled: self@[i].state is Active },
            ),
    {
        assert(self.rays@ =~= Seq::new(
            N as nat,
            |i: int| RayLane { ray: self@[i].ray, enabled: self@[i].state is Active },
        ));
        self.rays
    }

    /// The colors gathered by the lanes so far.
    pub fn colors(&self) -> (r: PackedColor<T, N>)
        ensures
            r@ == Seq::new(N as nat, |i: int| self@[i].color),
    {
        assert(self.color@ =~= Seq::new(N as nat, |i: int| self@[i].color));
        self.color
    }

    /// Lane `index`.
    pub fn lane(&self, index: usize) -> (r: TraceLane<T>)
        requires
            index < N,
        ensures
            r == self@[index as int],
    {
        let state = if self.rays.is_enabled(index) {
            LaneState::Active
        } else if self.hit_sky.at(index).to_bool() {
            LaneState::Escaped
        } else {
            LaneState::Absorbed
        };
        TraceLane {
            ray: self.rays.at_including_disabled(index),
            color: self.color.at(index),
            state,
        }
    }

    /// Overwrites lane `index` and leaves every other lane as it was.
    pub fn set_lane(&mut self, index: usize, lane: TraceLane<T>)
        requires
            index < N,
        ensures
            final(self)@ == old(self)@.update(index as int, lane),
    {
        proof {
            T::MaskType::lemma_mask_laws();
        }
        let (enable, sky) = match lane.state {
            LaneState::Active => (true, false),
            LaneState::Escaped => (false, true),
            LaneState::Absorbed => (false, false),
        };
        let mut rays = self.rays;
        let mut color = self.color;
        let mut hit_sky = self.hit_sky;
        rays.update_with_enable(index, lane.ray, enable);
        color.update(lane.color, index);
        hit_sky.update(index, T::MaskType::mask_from_bool(sky));
        self.rays = rays;
        self.color = color;
        self.hit_sky = hit_sky;
        assert(self@ =~= old(self)@.update(index as int, lane));
    }

    /// Whether lane `index` still carries a ray to be traced.
    pub fn is_active(&self, index: usize) -> (b: bool)
        requires
            index < N,
        ensures
            b == (self@[index as int].state is Active),
    {
        self.rays.is_enabled(index)
    }

    /// Whether any lane still carries a ray to be traced.
    pub fn any_active(&self) -> (b: bool)
        ensures
            b == (exists|i: int| 0 <= i < N && self@[i].state is Active),
    {
        let b = self.rays.any_enabled();
        proof {
            if b {
                let i = choose|i: int| 0 <= i < N && self.rays@[i].enabled;
                assert(self@[i].state is Active);
            } else {
                assert forall|i: int| 0 <= i < N implies !(self@[i].state is Active) by {
                    assert(!self.rays@[i].enabled);
                }
            }
        }
        b
    }

    /// Lets lane `index` take the outcome of a bounce. A lane that is not
    /// active stays as it is.
    pub fn apply(&mut self, index: usize, outcome: LaneOutcome<T>)
        requires
            index < N,
        ensures
            final(self)@ == old(self)@.update(
                index as int,
                lane_after(old(self)@[index as int], outcome),
            ),
    {
        let lane = self.lane(index);
        match lane.state {
            LaneState::Active => {
                let next = match outcome {
                    LaneOutcome::Missed => TraceLane {
                        ray: lane.ray,
                        color: lane.color,
                        state: LaneState::Escaped,
                    },
                    LaneOutcome::Absorbed { color } => TraceLane {
                        ray: lane.ray,
                        color,
                        state: LaneState::Absorbed,
                    },
                    LaneOutcome::Scattered { color, ray } => TraceLane {
                        ray,
                        color,
                        state: LaneState::Active,
                    },
                };
                self.set_lane(index, next);
            },
            _ => {
                assert(self@ =~= old(self)@.update(index as int, old(self)@[index as int]));
            },
        }
    }

    /// The colors that the lanes hand in when the trace ends. `lit` holds,
    /// for each lane, its gathered color lit by the sky that its ray left
    /// for; only the lanes whose ray escaped take it.
    pub fn finish(&self, lit: &PackedColor<T, N>, black: Color<T>) -> (r: PackedColor<T, N>)
        ensures
            r@ == Seq::new(N as nat, |i: int| lane_at_end(self@[i], lit@[i], black)),
    {
        let enabled = self.rays.enabled();
        let mut color = self.color;
        color.assign_masked(*lit, self.hit_sky);
        color.assign_masked(PackedColor::broadcast_scaler(black), enabled);
        assert forall|i: int| 0 <= i < N implies color@[i] == lane_at_end(
            self@[i],
            lit@[i],
            black,
        ) by {
            assert(enabled.bits()[i] == self.rays@[i].enabled);
        }
        assert(color@ =~= Seq::new(N as nat, |i: int| lane_at_end(self@[i], lit@[i], black)));
        color
    }
}

/// What a bounce makes of a lane whose ray found the surface reaction
/// `hit` (or no surface), once the color of the lane after the hit is
/// known.
pub open spec fn outcome_of<T>(hit: Option<HitResult<T>>, color: Color<T>) -> LaneOutcome<T> {
    match hit {
        None => LaneOutcome::Missed,
        Some(result) => match result.scattered_ray {
            None => LaneOutcome::Absorbed { color },
            Some(ray) => LaneOutcome::Scattered { color, ray },
        },
    }
}

/// Whether `next` is what a bounce may make of `lane`, given what its ray
/// found and the function that joins two colors. A lane that is not active
/// stays; a lane whose ray hit a surface takes the join of its color with
/// the share that the surface passes on.
pub open spec fn shaded<T, G: Fn(Color<T>, Color<T>) -> Color<T>>(
    attenuate: &G,
    lane: TraceLane<T>,
    hit: Option<HitResult<T>>,
    next: TraceLane<T>,
) -> bool {
    if lane.state is Active {
        match hit {
            None => next == lane_after(lane, LaneOutcome::Missed),
            Some(result) => exists|color: Color<T>|
                #[trigger] attenuate.ensures((lane.color, result.attenuation), color) && next
                    == lane_after(lane, outcome_of(hit, color)),
        }
    } else {
        next == lane
    }
}

/// Whether `lit` is a color that the end of the trace may take for `lane`
/// where its ray escaped: the join of its color with the color of the sky
/// that the ray left for.
pub open spec fn lit_by_sky<T, G: Fn(Color<T>, Color<T>) -> Color<T>, H: Fn(&Ray<T>) -> Color<T>>(
    attenuate: &G,
    sky: &H,
    lane: TraceLane<T>,
    lit: Color<T>,
) -> bool {
    lane.state is Escaped ==> exists|light: Color<T>|
        #[trigger] sky.ensures((&lane.ray,), light) && attenuate.ensures((lane.color, light), lit)
}

impl<T: Scaler, const N: usize> TraceBatch<T, N> {
    /// Lets every active lane take what its ray found in one bounce:
    /// `hits` holds, lane by lane, the reaction of the surface that the ray
    /// hit, or nothing where it hit none.
    pub fn shade<G: Fn(Color<T>, Color<T>) -> Color<T>>(
        &mut self,
        hits: &[Option<HitResult<T>>; N],
        attenuate: &G,
    )
        requires
            forall|a: Color<T>, b: Color<T>| #[trigger] attenuate.requires((a, b)),
        ensures
            forall|i: int|
                0 <= i < N ==> shaded(attenuate, old(self)@[i], hits@[i], #[trigger] final(self)@[i]),
    {
        let mut i: usize = 0;
        while i < N
            invariant
                i <= N,
                self@.len() == N,
                forall|a: Color<T>, b: Color<T>| #[trigger] attenuate.requires((a, b)),
                forall|j: int|
                    0 <= j < i ==> shaded(attenuate, old(self)@[j], hits@[j], #[trigger] self@[j]),
                forall|j: int| i <= j < N ==> self@[j] == old(self)@[j],
            decreases N - i,
        {
            if self.is_active(i) {
                let lane = self.lane(i);
                match hits[i] {
                    None => {
                        self.apply(i, LaneOutcome::Missed);
                    },
                    Some(result) => {
                        let color = attenuate(lane.color, result.attenuation);
                        match result.scattered_ray {
                            None => {
                                self.apply(i, LaneOutcome::Absorbed { color });
                            },
                            Some(ray) => {
                                self.apply(i, LaneOutcome::Scattered { color, ray });
                            },
                        }
                    },
                }
            }
            i += 1;
        }
    }

    /// For each lane whose ray escaped, its color lit by the sky; for the
    /// other lanes, their color as it is.
    pub fn light<G: Fn(Color<T>, Color<T>) -> Color<T>, H: Fn(&Ray<T>) -> Color<T>>(
        &self,
        attenuate: &G,
        sky: &H,
    ) -> (lit: PackedColor<T, N>)
        requires
            forall|a: Color<T>, b: Color<T>| #[trigger] attenuate.requires((a, b)),
            forall|ray: &Ray<T>| #[trigger] sky.requires((ray,)),
        ensures
            forall|i: int| 0 <= i < N ==> lit_by_sky(attenuate, sky, self@[i], #[trigger] lit@[i]),
    {
        let mut lit = self.colors();
        let mut i: usize = 0;
        while i < N
            invariant
                i <= N,
                lit@.len() == N,
                forall|a: Color<T>, b: Color<T>| #[trigger] attenuate.requires((a, b)),
                forall|ray: &Ray<T>| #[trigger] sky.requires((ray,)),
                forall|j: int|
                    0 <= j < i ==> lit_by_sky(attenuate, sky, self@[j], #[trigger] lit@[j]),
            decreases N - i,
        {
            let lane = self.lane(i);
            match lane.state {
                LaneState::Escaped => {
                    let light = sky(&lane.ray);
                    let color = attenuate(lane.color, light);
                    lit.update(color, i);
                },
                _ => {},
            }
            i += 1;
        }
        lit
    }
}

} // verus!
