//! Colors of three channels, alone and in batches of `N` lanes.

use crate::packed::{
    lane_sum, lemma_packed_ext_equal, lemma_packed_len, select_lanes, Mask, Packed, Scaler,
};
use crate::geometry::Vec3;
use crate::numbers::{answers_all, total_arithmetic, Number};
use crate::order::lane_le;
use core::ops::{Add, Div, Mul};
use vstd::prelude::*;
use vstd::std_specs::ops::{AddSpec, DivSpec, MulSpec, SubSpec};

verus! {

broadcast use lemma_packed_len;

/// A color of three channels.
#[derive(Clone, Copy, Debug, PartialEq)]
pub struct Color<T> {
    pub red: T,
    pub green: T,
    pub blue: T,
}

impl<T: Copy> Color<T> {
    pub fn new(red: T, green: T, blue: T) -> (r: Color<T>)
        ensures
            r == (Color { red, green, blue }),
    {
        Color { red, green, blue }
    }
}

impl<T: Copy> Color<T> {
    /// The color of full light: every channel is `one`.
    pub fn white(one: T) -> (r: Color<T>)
        ensures
            r == (Color { red: one, green: one, blue: one }),
    {
        Color { red: one, green: one, blue: one }
    }
}

impl<T: Number> Color<T> {
    /// The color of the sky in `direction`: white at the horizon, blended
    /// into `zenith` upwards. With `a` half of the height `y + 1` of the
    /// direction, each channel is `1 - a` plus `a` times that of `zenith`.
    pub open spec fn sky_spec(direction: Vec3<T>, zenith: Color<T>, one: T, half: T) -> Color<T> {
        let a = half.mul_spec(direction.y.add_spec(one));
        let rest = one.sub_spec(a);
        Color {
            red: rest.add_spec(a.mul_spec(zenith.red)),
            green: rest.add_spec(a.mul_spec(zenith.green)),
            blue: rest.add_spec(a.mul_spec(zenith.blue)),
        }
    }

    /// The color of the sky in `direction`.
    pub fn sky(direction: &Vec3<T>, zenith: Color<T>, one: T, half: T) -> (r: Color<T>)
        requires
            total_arithmetic::<T>(),
        ensures
            r == Self::sky_spec(*direction, zenith, one, half),
    {
        let a = half * (direction.y + one);
        let rest = one - a;
        Color {
            red: rest + a * zenith.red,
            green: rest + a * zenith.green,
            blue: rest + a * zenith.blue,
        }
    }
}

impl<T: Number> Color<T> {
    /// Whether `byte` is the byte of a channel: what `to_byte` makes of
    /// the root of the channel, as `sqrt` gives it, times `scale`.
    pub open spec fn may_show<S: Fn(T) -> T, B: Fn(T) -> u8>(
        sqrt: &S,
        to_byte: &B,
        channel: T,
        scale: T,
        byte: u8,
    ) -> bool {
        exists|root: T| #[trigger]
            sqrt.ensures((channel,), root) && to_byte.ensures((root.mul_spec(scale),), byte)
    }

    /// The three bytes of a pixel of this color: each channel is corrected
    /// for the eye by its root, scaled by `scale` and cut down to a byte by
    /// `to_byte`. No channel may exceed `two`.
    pub fn to_u8_array<S: Fn(T) -> T, B: Fn(T) -> u8>(
        &self,
        two: T,
        scale: T,
        sqrt: &S,
        to_byte: &B,
    ) -> (r: [u8; 3])
        requires
            total_arithmetic::<T>(),
            answers_all(sqrt),
            forall|x: T| #[trigger] to_byte.requires((x,)),
            lane_le(self.red, two),
            lane_le(self.green, two),
            lane_le(self.blue, two),
        ensures
            Self::may_show(sqrt, to_byte, self.red, scale, r@[0]),
            Self::may_show(sqrt, to_byte, self.green, scale, r@[1]),
            Self::may_show(sqrt, to_byte, self.blue, scale, r@[2]),
    {
        let ir = to_byte(sqrt(self.red) * scale);
        let ig = to_byte(sqrt(self.green) * scale);
        let ib = to_byte(sqrt(self.blue) * scale);
        [ir, ig, ib]
    }
}

impl<T: Copy + Default> Color<T> {
    /// The color without any light: every channel is the default value of
    /// `T`, which for a number is zero.
    pub fn black() -> (r: Color<T>)
        ensures
            call_ensures(T::default, (), r.red),
            call_ensures(T::default, (), r.green),
            call_ensures(T::default, (), r.blue),
    {
        Color { red: T::default(), green: T::default(), blue: T::default() }
    }
}

impl<T: Copy + Mul<Output = T>> Color<T> {
    /// Whether the channels of the two colors can be multiplied.
    pub open spec fn mul_req(self, rhs: Color<T>) -> bool {
        self.red.mul_req(rhs.red) && self.green.mul_req(rhs.green) && self.blue.mul_req(rhs.blue)
    }

    /// The product of the two colors, channel by channel.
    pub open spec fn mul_spec(self, rhs: Color<T>) -> Color<T> {
        Color {
            red: self.red.mul_spec(rhs.red),
            green: self.green.mul_spec(rhs.green),
            blue: self.blue.mul_spec(rhs.blue),
        }
    }

    /// The color seen through `rhs`: the product of the two colors.
    pub fn mul(self, rhs: Color<T>) -> (r: Color<T>)
        requires
            self.mul_req(rhs),
        ensures
            T::obeys_mul_spec() ==> r == self.mul_spec(rhs),
    {
        Color {
            red: self.red * rhs.red,
            green: self.green * rhs.green,
            blue: self.blue * rhs.blue,
        }
    }

    /// Whether each channel can be multiplied by `rhs`.
    pub open spec fn scale_req(self, rhs: T) -> bool {
        self.red.mul_req(rhs) && self.green.mul_req(rhs) && self.blue.mul_req(rhs)
    }

    /// The color of the channels multiplied by `rhs`.
    pub open spec fn scale_spec(self, rhs: T) -> Color<T> {
        Color {
            red: self.red.mul_spec(rhs),
            green: self.green.mul_spec(rhs),
            blue: self.blue.mul_spec(rhs),
        }
    }

    /// The color made `rhs` times as bright.
    pub fn scale(self, rhs: T) -> (r: Color<T>)
        requires
            self.scale_req(rhs),
        ensures
            T::obeys_mul_spec() ==> r == self.scale_spec(rhs),
    {
        Color { red: self.red * rhs, green: self.green * rhs, blue: self.blue * rhs }
    }
}

impl<T: Copy + Div<Output = T>> Color<T> {
    /// Whether each channel can be divided by `rhs`.
    pub open spec fn div_req(self, rhs: T) -> bool {
        self.red.div_req(rhs) && self.green.div_req(rhs) && self.blue.div_req(rhs)
    }

    /// The color of the channels divided by `rhs`.
    pub open spec fn div_spec(self, rhs: T) -> Color<T> {
        Color {
            red: self.red.div_spec(rhs),
            green: self.green.div_spec(rhs),
            blue: self.blue.div_spec(rhs),
        }
    }

    /// The color made `rhs` times less bright.
    pub fn div(self, rhs: T) -> (r: Color<T>)
        requires
            self.div_req(rhs),
        ensures
            T::obeys_div_spec() ==> r == self.div_spec(rhs),
    {
        Color { red: self.red / rhs, green: self.green / rhs, blue: self.blue / rhs }
    }
}

impl<T: Copy + Add<Output = T>> Color<T> {
    /// Whether the channels of the two colors can be added.
    pub open spec fn add_req(self, rhs: Color<T>) -> bool {
        self.red.add_req(rhs.red) && self.green.add_req(rhs.green) && self.blue.add_req(rhs.blue)
    }

    /// The sum of the two colors, channel by channel.
    pub open spec fn add_spec(self, rhs: Color<T>) -> Color<T> {
        Color {
            red: self.red.add_spec(rhs.red),
            green: self.green.add_spec(rhs.green),
            blue: self.blue.add_spec(rhs.blue),
        }
    }

    /// The sum of the two colors.
    pub fn add(self, rhs: Color<T>) -> (r: Color<T>)
        requires
            self.add_req(rhs),
        ensures
            T::obeys_add_spec() ==> r == self.add_spec(rhs),
    {
        Color {
            red: self.red + rhs.red,
            green: self.green + rhs.green,
            blue: self.blue + rhs.blue,
        }
    }
}

/// The colors of `colors` before the `n`-th, added to `zero` from the
/// first on.
pub open spec fn color_sum<T: Copy + Add<Output = T>>(colors: Seq<Color<T>>, zero: Color<T>, n: int) -> Color<
    T,
>
    decreases n,
{
    if n <= 0 {
        zero
    } else {
        color_sum(colors, zero, n - 1).add_spec(colors[n - 1])
    }
}

impl<T: Copy + Add<Output = T> + Div<Output = T>> Color<T> {
    /// The average of the colors of `colors`: their sum, begun with `zero`,
    /// divided by `count`, which is to be the number of the colors in the
    /// form of a `T`. Each step has to be one that `T` can compute.
    pub fn average(colors: &[Color<T>], zero: Color<T>, count: T) -> (r: Color<T>)
        requires
            T::obeys_add_spec(),
            forall|i: int|
                0 <= i < colors@.len() ==> #[trigger] color_sum(colors@, zero, i).add_req(
                    colors@[i],
                ),
            color_sum(colors@, zero, colors@.len() as int).div_req(count),
        ensures
            T::obeys_div_spec() ==> r == color_sum(colors@, zero, colors@.len() as int).div_spec(
                count,
            ),
    {
        let mut total = zero;
        let mut i: usize = 0;
        while i < colors.len()
            invariant
                i <= colors@.len(),
                T::obeys_add_spec(),
                forall|j: int|
                    0 <= j < colors@.len() ==> #[trigger] color_sum(colors@, zero, j).add_req(
                        colors@[j],
                    ),
                total == color_sum(colors@, zero, i as int),
            decreases colors.len() - i,
        {
            total = total.add(colors[i]);
            i += 1;
        }
        total.div(count)
    }
}

/// `N` colors, one in each lane, stored channel by channel.
#[derive(Clone, Copy, Debug)]
pub struct PackedColor<T: Copy, const N: usize> {
    red: Packed<T, N>,
    green: Packed<T, N>,
    blue: Packed<T, N>,
}

impl<T: Copy, const N: usize> View for PackedColor<T, N> {
    type V = Seq<Color<T>>;

    closed spec fn view(&self) -> Seq<Color<T>> {
        Seq::new(
            N as nat,
            |i: int| Color { red: self.red@[i], green: self.green@[i], blue: self.blue@[i] },
        )
    }
}

/// A batch of colors has exactly `N` lanes.
pub broadcast proof fn lemma_packed_color_len<T: Copy, const N: usize>(p: PackedColor<T, N>)
    ensures
        #[trigger] p@.len() == N,
{
}

/// Two batches with the same color in every lane are the same batch.
pub proof fn lemma_packed_color_ext_equal<T: Copy, const N: usize>(
    a: PackedColor<T, N>,
    b: PackedColor<T, N>,
)
    requires
        a@ =~= b@,
    ensures
        a == b,
{
    assert forall|i: int| 0 <= i < N implies a.red@[i] == b.red@[i] && a.green@[i] == b.green@[i]
        && a.blue@[i] == b.blue@[i] by {
        assert(a@[i] == b@[i]);
    }
    assert(a.red@ =~= b.red@);
    assert(a.green@ =~= b.green@);
    assert(a.blue@ =~= b.blue@);
    lemma_packed_ext_equal(a.red, b.red);
    lemma_packed_ext_equal(a.green, b.green);
    lemma_packed_ext_equal(a.blue, b.blue);
}

impl<T: Copy, const N: usize> PackedColor<T, N> {
    /// The batch with `color` in every lane.
    pub fn broadcast_scaler(color: Color<T>) -> (r: PackedColor<T, N>)
        ensures
            r@ == Seq::new(N as nat, |i: int| color),
    {
        Self::splat(color)
    }

    /// The batch with `color` in every lane.
    pub fn splat(color: Color<T>) -> (r: PackedColor<T, N>)
        ensures
            r@ == Seq::new(N as nat, |i: int| color),
    {
        let r = PackedColor {
            red: Packed::broadcast_scaler(color.red),
            green: Packed::broadcast_scaler(color.green),
            blue: Packed::broadcast_scaler(color.blue),
        };
        assert(r@ =~= Seq::new(N as nat, |i: int| color));
        r
    }

    /// Replaces the lanes that `mask` selects by those of `colors`; the
    /// other lanes keep their color.
    pub fn assign_masked<M: Mask>(&mut self, colors: PackedColor<T, N>, mask: Packed<M, N>)
        ensures
            final(self)@ == select_lanes(old(self)@, colors@, mask@),
    {
        let mut red = self.red;
        let mut green = self.green;
        let mut blue = self.blue;
        red.assign_where(&colors.red, &mask);
        green.assign_where(&colors.green, &mask);
        blue.assign_where(&colors.blue, &mask);
        self.red = red;
        self.green = green;
        self.blue = blue;
        assert(self@ =~= select_lanes(old(self)@, colors@, mask@));
    }

    /// The color in lane `index`.
    pub fn at(&self, index: usize) -> (r: Color<T>)
        requires
            index < N,
        ensures
            r == self@[index as int],
    {
        Color { red: self.red.at(index), green: self.green.at(index), blue: self.blue.at(index) }
    }

    /// Overwrites lane `index` and leaves every other lane as it was.
    pub fn update(&mut self, value: Color<T>, index: usize)
        requires
            index < N,
        ensures
            final(self)@ == old(self)@.update(index as int, value),
    {
        let mut red = self.red;
        let mut green = self.green;
        let mut blue = self.blue;
        red.update(index, value.red);
        green.update(index, value.green);
        blue.update(index, value.blue);
        self.red = red;
        self.green = green;
        self.blue = blue;
        assert(self@ =~= old(self)@.update(index as int, value));
    }
}

impl<T: Copy + Mul<Output = T>, const N: usize> PackedColor<T, N> {
    /// Lane by lane, the product of the colors of the two batches; see
    /// [`Color::mul`].
    pub fn mul(self, rhs: PackedColor<T, N>) -> (r: PackedColor<T, N>)
        requires
            forall|i: int| 0 <= i < N ==> #[trigger] self@[i].mul_req(rhs@[i]),
        ensures
            T::obeys_mul_spec() ==> r@ == Seq::new(N as nat, |i: int| self@[i].mul_spec(rhs@[i])),
    {
        let mut r = self;
        let mut i: usize = 0;
        while i < N
            invariant
                i <= N,
                r@.len() == N,
                forall|j: int| 0 <= j < N ==> #[trigger] self@[j].mul_req(rhs@[j]),
                T::obeys_mul_spec() ==> forall|j: int|
                    0 <= j < i ==> #[trigger] r@[j] == self@[j].mul_spec(rhs@[j]),
            decreases N - i,
        {
            assert(self@[i as int].mul_req(rhs@[i as int]));
            let lane = self.at(i).mul(rhs.at(i));
            r.update(lane, i);
            i += 1;
        }
        proof {
            if T::obeys_mul_spec() {
                assert(r@ =~= Seq::new(N as nat, |i: int| self@[i].mul_spec(rhs@[i])));
            }
        }
        r
    }

    /// Lane by lane, the color made as many times as bright as its lane in
    /// `rhs` says; see [`Color::scale`].
    pub fn scale(self, rhs: Packed<T, N>) -> (r: PackedColor<T, N>)
        requires
            forall|i: int| 0 <= i < N ==> #[trigger] self@[i].scale_req(rhs@[i]),
        ensures
            T::obeys_mul_spec() ==> r@ == Seq::new(N as nat, |i: int| self@[i].scale_spec(rhs@[i])),
    {
        let mut r = self;
        let mut i: usize = 0;
        while i < N
            invariant
                i <= N,
                r@.len() == N,
                forall|j: int| 0 <= j < N ==> #[trigger] self@[j].scale_req(rhs@[j]),
                T::obeys_mul_spec() ==> forall|j: int|
                    0 <= j < i ==> #[trigger] r@[j] == self@[j].scale_spec(rhs@[j]),
            decreases N - i,
        {
            assert(self@[i as int].scale_req(rhs@[i as int]));
            let lane = self.at(i).scale(rhs.at(i));
            r.update(lane, i);
            i += 1;
        }
        proof {
            if T::obeys_mul_spec() {
                assert(r@ =~= Seq::new(N as nat, |i: int| self@[i].scale_spec(rhs@[i])));
            }
        }
        r
    }
}

impl<T: Copy + Add<Output = T>, const N: usize> PackedColor<T, N> {
    /// Lane by lane, the sum of the colors of the two batches; see
    /// [`Color::add`].
    pub fn add(self, rhs: PackedColor<T, N>) -> (r: PackedColor<T, N>)
        requires
            forall|i: int| 0 <= i < N ==> #[trigger] self@[i].add_req(rhs@[i]),
        ensures
            T::obeys_add_spec() ==> r@ == Seq::new(N as nat, |i: int| self@[i].add_spec(rhs@[i])),
    {
        let mut r = self;
        let mut i: usize = 0;
        while i < N
            invariant
                i <= N,
                r@.len() == N,
                forall|j: int| 0 <= j < N ==> #[trigger] self@[j].add_req(rhs@[j]),
                T::obeys_add_spec() ==> forall|j: int|
                    0 <= j < i ==> #[trigger] r@[j] == self@[j].add_spec(rhs@[j]),
            decreases N - i,
        {
            assert(self@[i as int].add_req(rhs@[i as int]));
            let lane = self.at(i).add(rhs.at(i));
            r.update(lane, i);
            i += 1;
        }
        proof {
            if T::obeys_add_spec() {
                assert(r@ =~= Seq::new(N as nat, |i: int| self@[i].add_spec(rhs@[i])));
            }
        }
        r
    }
}

impl<T: Scaler + Add<Output = T>, const N: usize> PackedColor<T, N> {
    /// The first channels of all lanes.
    pub open spec fn reds(&self) -> Seq<T> {
        Seq::new(N as nat, |i: int| self@[i].red)
    }

    /// The second channels of all lanes.
    pub open spec fn greens(&self) -> Seq<T> {
        Seq::new(N as nat, |i: int| self@[i].green)
    }

    /// The third channels of all lanes.
    pub open spec fn blues(&self) -> Seq<T> {
        Seq::new(N as nat, |i: int| self@[i].blue)
    }

    /// The colors of all lanes added up, channel by channel, from the
    /// first lane on.
    pub fn sum(&self) -> (r: Color<T>)
        requires
            N >= 1,
            T::obeys_add_spec(),
            forall|i: int| 1 <= i < N ==> #[trigger] lane_sum(self.reds(), i).add_req(self@[i].red),
            forall|i: int|
                1 <= i < N ==> #[trigger] lane_sum(self.greens(), i).add_req(self@[i].green),
            forall|i: int|
                1 <= i < N ==> #[trigger] lane_sum(self.blues(), i).add_req(self@[i].blue),
        ensures
            r == (Color {
                red: lane_sum(self.reds(), N as int),
                green: lane_sum(self.greens(), N as int),
                blue: lane_sum(self.blues(), N as int),
            }),
    {
        proof {
            assert(self.red@ =~= self.reds());
            assert(self.green@ =~= self.greens());
            assert(self.blue@ =~= self.blues());
        }
        Color { red: self.red.sum(), green: self.green.sum(), blue: self.blue.sum() }
    }
}

/// The colors that lane `lane` holds in the batches of `batches`, batch
/// after batch.
pub open spec fn lane_colors<T>(batches: Seq<Seq<Color<T>>>, lane: int) -> Seq<Color<T>> {
    Seq::new(batches.len(), |k: int| batches[k][lane])
}

/// Lane by lane, the colors of the first `n` batches of `batches` added to
/// `black`, batch after batch.
pub open spec fn stacked<T: Copy + Add<Output = T>>(
    batches: Seq<Seq<Color<T>>>,
    black: Color<T>,
    lanes: nat,
    n: int,
) -> Seq<Color<T>> {
    Seq::new(lanes, |i: int| color_sum(lane_colors(batches, i), black, n))
}

/// The colors of all lanes of all batches of `batches` in one: the batches
/// are added to `black` lane by lane, and the lanes of that sum are added
/// up from the first on.
pub open spec fn total_of<T: Copy + Add<Output = T>>(
    batches: Seq<Seq<Color<T>>>,
    black: Color<T>,
    lanes: nat,
) -> Color<T> {
    let sums = stacked(batches, black, lanes, batches.len() as int);
    Color {
        red: lane_sum(Seq::new(lanes, |i: int| sums[i].red), lanes as int),
        green: lane_sum(Seq::new(lanes, |i: int| sums[i].green), lanes as int),
        blue: lane_sum(Seq::new(lanes, |i: int| sums[i].blue), lanes as int),
    }
}

impl<T: Number + Scaler, const N: usize> PackedColor<T, N> {
    /// The light that the lanes of a list of batches gathered, in one
    /// color; see [`total_of`].
    pub fn total(batches: &[PackedColor<T, N>], black: Color<T>) -> (r: Color<T>)
        requires
            N >= 1,
            total_arithmetic::<T>(),
        ensures
            r == total_of(Seq::new(batches@.len(), |k: int| batches@[k]@), black, N as nat),
    {
        let ghost views = Seq::new(batches@.len(), |k: int| batches@[k]@);
        let mut sum_color = PackedColor::<T, N>::broadcast_scaler(black);
        assert(sum_color@ =~= stacked(views, black, N as nat, 0));
        let mut k: usize = 0;
        while k < batches.len()
            invariant
                k <= batches@.len(),
                total_arithmetic::<T>(),
                views == Seq::new(batches@.len(), |k: int| batches@[k]@),
                sum_color@ == stacked(views, black, N as nat, k as int),
            decreases batches.len() - k,
        {
            let ghost before = sum_color@;
            sum_color = sum_color.add(batches[k]);
            proof {
                assert forall|i: int| 0 <= i < N implies sum_color@[i] == stacked(
                    views,
                    black,
                    N as nat,
                    k + 1,
                )[i] by {
                    assert(before[i] == color_sum(lane_colors(views, i), black, k as int));
                    assert(lane_colors(views, i)[k as int] == batches@[k as int]@[i]);
                }
                assert(sum_color@ =~= stacked(views, black, N as nat, k + 1));
            }
            k += 1;
        }
        let r = sum_color.sum();
        proof {
            let sums = stacked(views, black, N as nat, batches@.len() as int);
            assert(sum_color.reds() =~= Seq::new(N as nat, |i: int| sums[i].red));
            assert(sum_color.greens() =~= Seq::new(N as nat, |i: int| sums[i].green));
            assert(sum_color.blues() =~= Seq::new(N as nat, |i: int| sums[i].blue));
        }
        r
    }
}

} // verus!
