//! Keeping the batches in use full: a cursor over the lanes of a list of
//! batches, and two ways to move the lanes that still carry a ray to the
//! front.

use crate::lanes::{lemma_trace_batch_len, LaneState, TraceBatch, TraceLane};
use crate::packed::{lemma_packed_len, Packed, Scaler};
use vstd::prelude::*;

verus! {

broadcast use {lemma_trace_batch_len, lemma_packed_len};

/// Whether the lane in slot `slot` of batch `chunk` is active.
pub open spec fn active_at<T: Scaler, const N: usize>(
    batches: Seq<TraceBatch<T, N>>,
    chunk: int,
    slot: int,
) -> bool {
    batches[chunk]@[slot].state is Active
}

/// A place among the lanes of a list of batches, read batch after batch and
/// slot after slot. A slot index of `N` or more marks the place before the
/// first lane; the place after the last lane is slot 0 of the batch that
/// would follow the last one.
#[derive(Clone, Copy, Debug)]
pub struct CombinedIndex<const N: usize> {
    pub chunk_index: usize,
    pub slot_index: usize,
}

impl<const N: usize> CombinedIndex<N> {
    /// Whether this place is a lane of a list of `len` batches.
    pub open spec fn names_lane(&self, len: usize) -> bool {
        self.chunk_index < len && self.slot_index < N
    }

    /// Whether this place comes before the lane `(chunk, slot)`.
    pub open spec fn precedes(&self, chunk: int, slot: int) -> bool {
        self.slot_index >= N || self.chunk_index < chunk || (self.chunk_index == chunk
            && self.slot_index < slot)
    }

    /// Whether this place comes after the lane `(chunk, slot)`.
    pub open spec fn follows(&self, chunk: int, slot: int) -> bool {
        self.slot_index < N && (chunk < self.chunk_index || (chunk == self.chunk_index && slot
            < self.slot_index))
    }

    /// The place one lane further on, if there is a lane there.
    pub open spec fn successor(&self, len: usize) -> Option<CombinedIndex<N>> {
        if self.slot_index >= N {
            if len > 0 {
                Some(CombinedIndex { chunk_index: 0, slot_index: 0 })
            } else {
                None
            }
        } else if self.slot_index + 1 < N {
            Some(
                CombinedIndex {
                    chunk_index: self.chunk_index,
                    slot_index: (self.slot_index + 1) as usize,
                },
            )
        } else if self.chunk_index + 1 < len {
            Some(CombinedIndex { chunk_index: (self.chunk_index + 1) as usize, slot_index: 0 })
        } else {
            None
        }
    }

    /// The place one lane back, if there is a lane there.
    pub open spec fn predecessor(&self) -> Option<CombinedIndex<N>> {
        if self.slot_index > 0 {
            Some(
                CombinedIndex {
                    chunk_index: self.chunk_index,
                    slot_index: (self.slot_index - 1) as usize,
                },
            )
        } else if self.chunk_index > 0 {
            Some(
                CombinedIndex {
                    chunk_index: (self.chunk_index - 1) as usize,
                    slot_index: (N - 1) as usize,
                },
            )
        } else {
            None
        }
    }

    /// How many lanes come before this place in reading order.
    pub open spec fn position(&self) -> int {
        self.chunk_index * N + self.slot_index
    }

    /// From a lane, one step further on leads to the lane that comes next
    /// in reading order, and one step back to the lane that comes before.
    /// There is no step further on from the last lane, nor back from the
    /// first.
    pub proof fn lemma_steps(self, len: usize)
        requires
            N >= 1,
            self.names_lane(len),
        ensures
            match self.successor(len) {
                Some(next) => next.names_lane(len) && next.position() == self.position() + 1,
                None => self.position() + 1 == len * N,
            },
            match self.predecessor() {
                Some(before) => before.names_lane(len) && before.position() == self.position() - 1,
                None => self.position() == 0,
            },
    {
        let chunk = self.chunk_index as int;
        assert((chunk + 1) * N == chunk * N + N) by (nonlinear_arith);
        assert((chunk - 1) * N == chunk * N - N) by (nonlinear_arith);
        assert(0 * N == 0);
    }

    /// The first step leads from the place before the first lane to the
    /// first lane, and the first step back from the place after the last
    /// lane to the last lane, if there is any lane.
    pub proof fn lemma_ends(len: usize)
        requires
            N >= 1,
        ensures
            (CombinedIndex::<N> { chunk_index: 0, slot_index: N }).successor(len) == (if len > 0 {
                Some(CombinedIndex::<N> { chunk_index: 0, slot_index: 0 })
            } else {
                None
            }),
            (CombinedIndex::<N> { chunk_index: len, slot_index: 0 }).predecessor() == (if len > 0 {
                Some(
                    CombinedIndex::<N> {
                        chunk_index: (len - 1) as usize,
                        slot_index: (N - 1) as usize,
                    },
                )
            } else {
                None
            }),
    {
    }

    /// The place before the first lane.
    pub fn before_first<T: Scaler>(batches: &Vec<TraceBatch<T, N>>) -> (r: CombinedIndex<N>)
        ensures
            r == (CombinedIndex::<N> { chunk_index: 0, slot_index: N }),
    {
        CombinedIndex { chunk_index: 0, slot_index: N }
    }

    /// The place after the last lane.
    pub fn after_last<T: Scaler>(batches: &Vec<TraceBatch<T, N>>) -> (r: CombinedIndex<N>)
        ensures
            r == (CombinedIndex::<N> { chunk_index: batches.len(), slot_index: 0 }),
    {
        CombinedIndex { chunk_index: batches.len(), slot_index: 0 }
    }

    /// Whether this place is a lane of `batches`.
    pub fn valid<T: Scaler>(&self, batches: &Vec<TraceBatch<T, N>>) -> (b: bool)
        ensures
            b == self.names_lane(batches.len()),
    {
        self.chunk_index < batches.len() && self.slot_index < N
    }

    /// One lane further on. From a lane of `batches` this is the next lane
    /// in reading order, and nothing after the last one.
    pub fn increment<T: Scaler>(&self, batches: &Vec<TraceBatch<T, N>>) -> (r: Option<
        CombinedIndex<N>,
    >)
        requires
            N >= 1,
        ensures
            r == self.successor(batches.len()),
            self.slot_index >= N || self.names_lane(batches.len()) ==> (r matches Some(
                next,
            ) ==> next.names_lane(batches.len())),
    {
        if self.slot_index >= N {
            if batches.len() > 0 {
                Some(CombinedIndex { chunk_index: 0, slot_index: 0 })
            } else {
                None
            }
        } else if self.slot_index < N - 1 {
            Some(CombinedIndex { chunk_index: self.chunk_index, slot_index: self.slot_index + 1 })
        } else if batches.len() > 0 && self.chunk_index < batches.len() - 1 {
            Some(CombinedIndex { chunk_index: self.chunk_index + 1, slot_index: 0 })
        } else {
            None
        }
    }

    /// One lane back. From the place after the last lane this is the last
    /// lane, and nothing before the first one.
    pub fn decrement<T: Scaler>(&self, batches: &Vec<TraceBatch<T, N>>) -> (r: Option<
        CombinedIndex<N>,
    >)
        requires
            N >= 1,
        ensures
            r == self.predecessor(),
    {
        if self.slot_index > 0 {
            Some(CombinedIndex { chunk_index: self.chunk_index, slot_index: self.slot_index - 1 })
        } else if self.chunk_index > 0 {
            Some(CombinedIndex { chunk_index: self.chunk_index - 1, slot_index: N - 1 })
        } else {
            None
        }
    }

    /// The first lane after this place that is not active, if there is one.
    pub fn next_disabled<T: Scaler>(&self, batches: &Vec<TraceBatch<T, N>>) -> (r: Option<
        CombinedIndex<N>,
    >)
        requires
            N >= 1,
            self.slot_index >= N || self.names_lane(batches.len()),
        ensures
            match r {
                Some(found) => {
                    &&& found.names_lane(batches.len())
                    &&& self.precedes(found.chunk_index as int, found.slot_index as int)
                    &&& !active_at(batches@, found.chunk_index as int, found.slot_index as int)
                    &&& forall|chunk: int, slot: int|
                        0 <= chunk < batches.len() && 0 <= slot < N && self.precedes(chunk, slot)
                            && found.follows(chunk, slot) ==> #[trigger] active_at(
                            batches@,
                            chunk,
                            slot,
                        )
                },
                None => forall|chunk: int, slot: int|
                    0 <= chunk < batches.len() && 0 <= slot < N && self.precedes(chunk, slot)
                        ==> #[trigger] active_at(batches@, chunk, slot),
            },
    {
        let mut index = self.increment(batches);
        loop
            invariant
                N >= 1,
                self.slot_index >= N || self.names_lane(batches.len()),
                index matches Some(at) ==> at.names_lane(batches.len()) && self.precedes(
                    at.chunk_index as int,
                    at.slot_index as int,
                ),
                forall|chunk: int, slot: int|
                    0 <= chunk < batches.len() && 0 <= slot < N && self.precedes(chunk, slot) && (
                    index matches Some(at) ==> at.follows(chunk, slot)) ==> #[trigger] active_at(
                        batches@,
                        chunk,
                        slot,
                    ),
            decreases
                    (match index {
                        Some(at) => batches.len() - at.chunk_index + 1,
                        None => 0,
                    }),
                    (match index {
                        Some(at) => N - at.slot_index,
                        None => 0,
                    }),
        {
            match index {
                Some(safe_index) => {
                    if !batches[safe_index.chunk_index].is_active(safe_index.slot_index) {
                        return Some(safe_index);
                    }
                    let next = safe_index.increment(batches);
                    index = next;
                },
                None => {
                    return None;
                },
            }
        }
    }

    /// The last lane before this place that is active, if there is one.
    pub fn previous_enabled<T: Scaler>(&self, batches: &Vec<TraceBatch<T, N>>) -> (r: Option<
        CombinedIndex<N>,
    >)
        requires
            N >= 1,
            self.slot_index < N,
            self.chunk_index < batches.len() || (self.chunk_index == batches.len()
                && self.slot_index == 0),
        ensures
            match r {
                Some(found) => {
                    &&& found.names_lane(batches.len())
                    &&& self.follows(found.chunk_index as int, found.slot_index as int)
                    &&& active_at(batches@, found.chunk_index as int, found.slot_index as int)
                    &&& forall|chunk: int, slot: int|
                        0 <= chunk < batches.len() && 0 <= slot < N && self.follows(chunk, slot)
                            && found.precedes(chunk, slot) ==> !#[trigger] active_at(
                            batches@,
                            chunk,
                            slot,
                        )
                },
                None => forall|chunk: int, slot: int|
                    0 <= chunk < batches.len() && 0 <= slot < N && self.follows(chunk, slot)
                        ==> !#[trigger] active_at(batches@, chunk, slot),
            },
    {
        let mut index = self.decrement(batches);
        loop
            invariant
                N >= 1,
                self.slot_index < N,
                self.chunk_index < batches.len() || (self.chunk_index == batches.len()
                    && self.slot_index == 0),
                index matches Some(at) ==> at.names_lane(batches.len()) && self.follows(
                    at.chunk_index as int,
                    at.slot_index as int,
                ),
                forall|chunk: int, slot: int|
                    0 <= chunk < batches.len() && 0 <= slot < N && self.follows(chunk, slot) && (
                    index matches Some(at) ==> at.precedes(chunk, slot)) ==> !#[trigger] active_at(
                        batches@,
                        chunk,
                        slot,
                    ),
            decreases
                    (match index {
                        Some(at) => at.chunk_index + 1,
                        None => 0,
                    }),
                    (match index {
                        Some(at) => at.slot_index + 1,
                        None => 0,
                    }),
        {
            match index {
                Some(safe_index) => {
                    if batches[safe_index.chunk_index].is_active(safe_index.slot_index) {
                        return Some(safe_index);
                    }
                    let next = safe_index.decrement(batches);
                    index = next;
                },
                None => {
                    return None;
                },
            }
        }
    }
}

/// The cells of a table of rows of `width` cells each, row after row.
pub open spec fn flat<A>(rows: Seq<Seq<A>>, width: int) -> Seq<A> {
    Seq::new((rows.len() * width) as nat, |k: int| rows[k / width][k % width])
}

/// The row and the column of the `k`-th cell of a table.
pub proof fn lemma_flat_cell(rows: int, width: int, k: int)
    requires
        width > 0,
        0 <= k < rows * width,
    ensures
        0 <= k / width < rows,
        0 <= k % width < width,
        k == (k / width) * width + k % width,
{
    let q = k / width;
    let r = k % width;
    vstd::arithmetic::div_mod::lemma_fundamental_div_mod(k, width);
    vstd::arithmetic::div_mod::lemma_mod_bound(k, width);
    assert(width * q == q * width) by (nonlinear_arith);
    assert(0 <= q < rows) by (nonlinear_arith)
        requires
            k == q * width + r,
            0 <= r < width,
            0 <= k < rows * width,
    ;
}

/// The cell in column `column` of row `row` is the cell
/// `row * width + column` of the table.
pub proof fn lemma_flat_index<A>(rows: Seq<Seq<A>>, width: int, row: int, column: int)
    requires
        0 <= row < rows.len(),
        0 <= column < width,
    ensures
        0 <= row * width + column < flat(rows, width).len(),
        flat(rows, width)[row * width + column] == rows[row][column],
{
    let len = rows.len() as int;
    assert(row * width + column < len * width) by (nonlinear_arith)
        requires
            0 <= row < len,
            0 <= column < width,
    ;
    assert(row * width >= 0) by (nonlinear_arith)
        requires
            0 <= row,
            0 <= width,
    ;
    vstd::arithmetic::div_mod::lemma_fundamental_div_mod_converse(
        row * width + column,
        width,
        row,
        column,
    );
}

/// Overwriting one cell of one row overwrites one cell of the table.
pub proof fn lemma_flat_set<A>(rows: Seq<Seq<A>>, width: int, row: int, column: int, cell: A)
    requires
        0 <= row < rows.len(),
        0 <= column < width,
        rows[row].len() == width,
    ensures
        flat(rows.update(row, rows[row].update(column, cell)), width) == flat(rows, width).update(
            row * width + column,
            cell,
        ),
{
    let after = rows.update(row, rows[row].update(column, cell));
    lemma_flat_index(rows, width, row, column);
    assert forall|k: int| 0 <= k < flat(rows, width).len() implies flat(after, width)[k] == flat(
        rows,
        width,
    ).update(row * width + column, cell)[k] by {
        lemma_flat_cell(rows.len() as int, width, k);
        let q = k / width;
        let r = k % width;
        if q == row && r == column {
        } else if q == row {
        } else {
            assert(k != row * width + column) by (nonlinear_arith)
                requires
                    k == q * width + r,
                    0 <= r < width,
                    0 <= column < width,
                    q != row,
            ;
        }
    }
    assert(flat(after, width) =~= flat(rows, width).update(row * width + column, cell));
}

/// Applying one function to every cell of every row applies it to every
/// cell of the table.
pub proof fn lemma_flat_map<A, B>(from: Seq<Seq<A>>, to: Seq<Seq<B>>, width: int, f: spec_fn(A) -> B)
    requires
        width > 0,
        from.len() == to.len(),
        forall|row: int, column: int|
            0 <= row < from.len() && 0 <= column < width ==> #[trigger] to[row][column] == f(
                from[row][column],
            ),
    ensures
        flat(to, width) == flat(from, width).map_values(f),
{
    assert forall|k: int| 0 <= k < flat(to, width).len() implies flat(to, width)[k] == flat(
        from,
        width,
    ).map_values(f)[k] by {
        lemma_flat_cell(from.len() as int, width, k);
        assert(to[k / width][k % width] == f(from[k / width][k % width]));
    }
    assert(flat(to, width) =~= flat(from, width).map_values(f));
}

/// The lanes of each batch of a list.
pub open spec fn lane_rows<T: Scaler, const N: usize>(batches: Seq<TraceBatch<T, N>>) -> Seq<
    Seq<TraceLane<T>>,
> {
    Seq::new(batches.len(), |j: int| batches[j]@)
}

/// All lanes of a list of batches, batch after batch and slot after slot.
pub open spec fn flat_lanes<T: Scaler, const N: usize>(batches: Seq<TraceBatch<T, N>>) -> Seq<
    TraceLane<T>,
> {
    flat(lane_rows(batches), N as int)
}

/// The lane in slot `slot` of batch `chunk` stands at `chunk * N + slot`
/// among the flat lanes.
pub proof fn lemma_flat_lane<T: Scaler, const N: usize>(
    batches: Seq<TraceBatch<T, N>>,
    chunk: int,
    slot: int,
)
    requires
        0 <= chunk < batches.len(),
        0 <= slot < N,
    ensures
        flat_lanes(batches).len() == batches.len() * N,
        0 <= chunk * N + slot < flat_lanes(batches).len(),
        flat_lanes(batches)[chunk * N + slot] == batches[chunk]@[slot],
{
    lemma_flat_index(lane_rows(batches), N as int, chunk, slot);
}

/// Overwriting one lane of one batch overwrites one flat lane.
pub proof fn lemma_flat_update<T: Scaler, const N: usize>(
    batches: Seq<TraceBatch<T, N>>,
    chunk: int,
    slot: int,
    batch: TraceBatch<T, N>,
    lane: TraceLane<T>,
)
    requires
        0 <= chunk < batches.len(),
        0 <= slot < N,
        batch@ == batches[chunk]@.update(slot, lane),
    ensures
        flat_lanes(batches.update(chunk, batch)) == flat_lanes(batches).update(
            chunk * N + slot,
            lane,
        ),
{
    let rows = lane_rows(batches);
    lemma_flat_set(rows, N as int, chunk, slot, lane);
    assert(lane_rows(batches.update(chunk, batch)) =~= rows.update(
        chunk,
        rows[chunk].update(slot, lane),
    ));
}

/// Exchanging two elements of a sequence keeps what the sequence holds.
pub proof fn lemma_exchange_keeps_lanes<A>(s: Seq<A>, i: int, j: int)
    requires
        0 <= i < s.len(),
        0 <= j < s.len(),
        i != j,
    ensures
        s.update(i, s[j]).update(j, s[i]).to_multiset() == s.to_multiset(),
{
    broadcast use vstd::multiset::group_multiset_axioms;

    let once = s.update(i, s[j]);
    vstd::seq_lib::to_multiset_update(s, i, s[j]);
    vstd::seq_lib::to_multiset_update(once, j, s[i]);
    vstd::seq_lib::to_multiset_contains(s, s[i]);
    vstd::seq_lib::to_multiset_contains(s, s[j]);
    assert(s.contains(s[i]));
    assert(s.contains(s[j]));
    assert(once[j] == s[j]);
    assert(once.update(j, s[i]).to_multiset() =~= s.to_multiset());
}

/// Whether the active lanes fill the batches from the front: every batch
/// before the last of the first `active` ones is full of active lanes, the
/// last of them holds at least one, and no batch after them holds any.
pub open spec fn packed_to_front<T: Scaler, const N: usize>(
    batches: Seq<TraceBatch<T, N>>,
    active: usize,
) -> bool {
    &&& active <= batches.len()
    &&& forall|chunk: int, slot: int|
        0 <= chunk < active - 1 && 0 <= slot < N ==> #[trigger] active_at(batches, chunk, slot)
    &&& forall|chunk: int, slot: int|
        active <= chunk < batches.len() && 0 <= slot < N ==> !#[trigger] active_at(
            batches,
            chunk,
            slot,
        )
    &&& active > 0 ==> exists|slot: int| 0 <= slot < N && #[trigger] active_at(
        batches,
        active - 1,
        slot,
    )
}

/// Moves the active lanes to the front in place, by exchanging inactive
/// lanes near the front with active lanes near the back, and returns the
/// number of batches that still hold an active lane. No lane is lost or
/// made up; lanes may change their order.
pub fn compact_in_place<T: Scaler, const N: usize>(batches: &mut Vec<TraceBatch<T, N>>) -> (active:
    usize)
    requires
        N >= 1,
    ensures
        final(batches)@.len() == old(batches)@.len(),
        flat_lanes(final(batches)@).to_multiset() == flat_lanes(old(batches)@).to_multiset(),
        packed_to_front(final(batches)@, active),
{
    let mut front_index = CombinedIndex::<N>::before_first(batches);
    let mut back_index = CombinedIndex::<N>::after_last(batches);
    let mut last_active_chunk: usize = 0;
    loop
        invariant_except_break
            front_index.slot_index <= N,
            front_index.slot_index == N || front_index.names_lane(batches.len()),
            front_index.slot_index == N ==> front_index.chunk_index == 0,
            back_index.slot_index < N,
            back_index.chunk_index < batches.len() || (back_index.chunk_index == batches.len()
                && back_index.slot_index == 0),
            front_index.chunk_index <= back_index.chunk_index,
            forall|chunk: int, slot: int|
                0 <= chunk < batches.len() && 0 <= slot < N && !front_index.precedes(chunk, slot)
                    ==> #[trigger] active_at(batches@, chunk, slot),
            forall|chunk: int, slot: int|
                0 <= chunk < batches.len() && 0 <= slot < N && !back_index.follows(chunk, slot)
                    ==> !#[trigger] active_at(batches@, chunk, slot),
        invariant
            N >= 1,
            batches@.len() == old(batches)@.len(),
            flat_lanes(batches@).to_multiset() == flat_lanes(old(batches)@).to_multiset(),
        ensures
            packed_to_front(batches@, last_active_chunk),
        decreases back_index.chunk_index - front_index.chunk_index,
            back_index.slot_index + N - (if front_index.slot_index == N {
                0
            } else {
                front_index.slot_index + 1
            }),
    {
        let ghost old_front = front_index;
        let ghost old_back = back_index;
        front_index =
        match front_index.next_disabled(batches) {
            Some(ci) => ci,
            None => {
                last_active_chunk = batches.len();
                proof {
                    assert forall|chunk: int, slot: int|
                        0 <= chunk < batches.len() && 0 <= slot < N implies #[trigger] active_at(
                        batches@,
                        chunk,
                        slot,
                    ) by {}
                    if batches.len() > 0 {
                        assert(active_at(batches@, batches.len() - 1, 0));
                    }
                }
                break ;
            },
        };
        back_index =
        match back_index.previous_enabled(batches) {
            Some(ci) => ci,
            None => {
                last_active_chunk = 0;
                proof {
                    assert forall|chunk: int, slot: int|
                        0 <= chunk < batches.len() && 0 <= slot < N implies !#[trigger] active_at(
                        batches@,
                        chunk,
                        slot,
                    ) by {}
                }
                break ;
            },
        };
        if front_index.chunk_index >= back_index.chunk_index {
            last_active_chunk = back_index.chunk_index + 1;
            proof {
                assert forall|chunk: int, slot: int|
                    0 <= chunk < last_active_chunk - 1 && 0 <= slot < N implies #[trigger] active_at(
                    batches@,
                    chunk,
                    slot,
                ) by {}
                assert forall|chunk: int, slot: int|
                    last_active_chunk <= chunk < batches.len() && 0 <= slot < N implies !#[trigger] active_at(
                    batches@,
                    chunk,
                    slot,
                ) by {}
                assert(active_at(
                    batches@,
                    last_active_chunk - 1,
                    back_index.slot_index as int,
                ));
            }
            break ;
        }
        let ghost before = batches@;
        let mut front_batch = batches[front_index.chunk_index];
        let mut back_batch = batches[back_index.chunk_index];
        let front_lane = front_batch.lane(front_index.slot_index);
        let back_lane = back_batch.lane(back_index.slot_index);
        front_batch.set_lane(front_index.slot_index, back_lane);
        back_batch.set_lane(back_index.slot_index, front_lane);
        batches[front_index.chunk_index] = front_batch;
        let ghost between = batches@;
        batches[back_index.chunk_index] = back_batch;
        proof {
            let fc = front_index.chunk_index as int;
            let fs = front_index.slot_index as int;
            let bc = back_index.chunk_index as int;
            let bs = back_index.slot_index as int;
            lemma_flat_lane(before, fc, fs);
            lemma_flat_lane(before, bc, bs);
            lemma_flat_update(before, fc, fs, front_batch, back_lane);
            lemma_flat_lane(between, bc, bs);
            lemma_flat_update(between, bc, bs, back_batch, front_lane);
            let flat0 = flat_lanes(before);
            let flat1 = flat_lanes(between);
            let flat2 = flat_lanes(batches@);
            assert(flat1 == flat0.update(fc * N + fs, back_lane));
            assert(flat2 == flat1.update(bc * N + bs, front_lane));
            assert(fc * N + fs != bc * N + bs) by (nonlinear_arith)
                requires
                    fc < bc,
                    0 <= fs < N,
                    0 <= bs < N,
            ;
            lemma_exchange_keeps_lanes(flat0, fc * N + fs, bc * N + bs);
            assert forall|chunk: int, slot: int|
                0 <= chunk < batches.len() && 0 <= slot < N && !front_index.precedes(
                    chunk,
                    slot,
                ) implies #[trigger] active_at(batches@, chunk, slot) by {
                if chunk == fc && slot == fs {
                } else {
                    assert(active_at(before, chunk, slot));
                }
            }
            assert forall|chunk: int, slot: int|
                0 <= chunk < batches.len() && 0 <= slot < N && !back_index.follows(
                    chunk,
                    slot,
                ) implies !#[trigger] active_at(batches@, chunk, slot) by {
                if chunk == bc && slot == bs {
                } else {
                    assert(!active_at(before, chunk, slot));
                }
            }
        }
    }
    last_active_chunk
}

/// The test that picks the active lanes (`want`), or the others.
pub open spec fn lanes_that<T>(want: bool) -> spec_fn(TraceLane<T>) -> bool {
    |lane: TraceLane<T>| (lane.state is Active) == want
}

/// The active lanes in their order, followed by the other lanes in theirs.
pub open spec fn live_first<T>(lanes: Seq<TraceLane<T>>) -> Seq<TraceLane<T>> {
    lanes.filter(lanes_that(true)) + lanes.filter(lanes_that(false))
}

/// Every lane is either active or not.
pub proof fn lemma_live_first_len<T>(lanes: Seq<TraceLane<T>>)
    ensures
        lanes.filter(lanes_that(true)).len() + lanes.filter(lanes_that(false)).len()
            == lanes.len(),
    decreases lanes.len(),
{
    broadcast use Seq::lemma_filter_len_push;

    if lanes.len() == 0 {
        lanes.lemma_filter_len(lanes_that(true));
        lanes.lemma_filter_len(lanes_that(false));
    } else {
        let front = lanes.drop_last();
        lemma_live_first_len(front);
        assert(front.push(lanes.last()) =~= lanes);
    }
}

/// Putting the active lanes first neither loses a lane nor makes one up.
pub proof fn lemma_live_first_keeps_lanes<T>(lanes: Seq<TraceLane<T>>)
    ensures
        live_first(lanes).to_multiset() == lanes.to_multiset(),
    decreases lanes.len(),
{
    broadcast use {
        Seq::lemma_filter_push,
        vstd::seq_lib::lemma_multiset_commutative,
        vstd::seq_lib::to_multiset_build,
        vstd::multiset::group_multiset_axioms,
    };

    if lanes.len() == 0 {
        lanes.lemma_filter_len(lanes_that(true));
        lanes.lemma_filter_len(lanes_that(false));
        assert(live_first(lanes) =~= lanes);
    } else {
        let front = lanes.drop_last();
        let last = lanes.last();
        lemma_live_first_keeps_lanes(front);
        assert(front.push(last) =~= lanes);
        let live = front.filter(lanes_that(true));
        let rest = front.filter(lanes_that(false));
        assert((live + rest).to_multiset() =~= live.to_multiset().add(rest.to_multiset()));
        if last.state is Active {
            assert(live_first(lanes) == live.push(last) + rest);
            assert((live.push(last) + rest).to_multiset() =~= live.push(last).to_multiset().add(
                rest.to_multiset(),
            ));
        } else {
            assert(live_first(lanes) == live + rest.push(last));
            assert((live + rest.push(last)).to_multiset() =~= live.to_multiset().add(
                rest.push(last).to_multiset(),
            ));
        }
        assert(live_first(lanes).to_multiset() =~= lanes.to_multiset());
    }
}

/// Appends to `target`, from the place `start` on, the lanes of `source`
/// that are active (`want`) or that are not, in their order.
fn append_lanes<T: Scaler, const N: usize>(
    source: &Vec<TraceBatch<T, N>>,
    target: &mut Vec<TraceBatch<T, N>>,
    want: bool,
    start: CombinedIndex<N>,
) -> (end: CombinedIndex<N>)
    requires
        N >= 1,
        old(target)@.len() == source@.len(),
        start.slot_index < N,
        start.chunk_index * N + start.slot_index + flat_lanes(source@).filter(
            lanes_that(want),
        ).len() <= source@.len() * N,
    ensures
        final(target)@.len() == source@.len(),
        end.slot_index < N,
        end.chunk_index * N + end.slot_index == start.chunk_index * N + start.slot_index
            + flat_lanes(source@).filter(lanes_that(want)).len(),
        flat_lanes(final(target)@).take(end.chunk_index * N + end.slot_index) == flat_lanes(
            old(target)@,
        ).take(start.chunk_index * N + start.slot_index) + flat_lanes(source@).filter(
            lanes_that(want),
        ),
{
    let ghost lanes = flat_lanes(source@);
    let ghost pred = lanes_that::<T>(want);
    let ghost first = start.chunk_index * N + start.slot_index;
    let ghost kept = flat_lanes(old(target)@).take(first);
    let mut output_chunk = start.chunk_index;
    let mut output_slot = start.slot_index;
    let mut i: usize = 0;
    proof {
        assert(lanes.take(0) =~= Seq::empty());
        lanes.take(0).lemma_filter_len(pred);
        assert(flat_lanes(target@).take(first) =~= kept + lanes.take(0).filter(pred));
        assert(0 * N == 0);
    }
    while i < source.len()
        invariant
            N >= 1,
            i <= source.len(),
            target@.len() == source@.len(),
            lanes == flat_lanes(source@),
            lanes.len() == source@.len() * N,
            pred == lanes_that::<T>(want),
            first + lanes.filter(pred).len() <= source@.len() * N,
            output_slot < N,
            output_chunk * N + output_slot == first + lanes.take(i * N).filter(pred).len(),
            flat_lanes(target@).take(output_chunk * N + output_slot) == kept + lanes.take(
                i * N,
            ).filter(pred),
        decreases source.len() - i,
    {
        let mut j: usize = 0;
        proof {
            assert(i * N + N <= source@.len() * N) by (nonlinear_arith)
                requires
                    i < source@.len(),
            ;
        }
        while j < N
            invariant
                N >= 1,
                i < source.len(),
                j <= N,
                i * N + N <= source@.len() * N,
                target@.len() == source@.len(),
                lanes == flat_lanes(source@),
                lanes.len() == source@.len() * N,
                pred == lanes_that::<T>(want),
                first + lanes.filter(pred).len() <= source@.len() * N,
                output_slot < N,
                output_chunk * N + output_slot == first + lanes.take(i * N + j).filter(pred).len(),
                flat_lanes(target@).take(output_chunk * N + output_slot) == kept + lanes.take(
                    i * N + j,
                ).filter(pred),
            decreases N - j,
        {
            let ghost p = i * N + j;
            let ghost k = output_chunk * N + output_slot;
            let lane = source[i].lane(j);
            proof {
                lemma_flat_lane(source@, i as int, j as int);
                assert(lanes.take(p + 1) =~= lanes.take(p).push(lane));
                lanes.take(p).lemma_filter_push(lane, pred);
                lanes.lemma_filter_take_len(pred, p + 1);
            }
            let is_active = match lane.state {
                LaneState::Active => true,
                _ => false,
            };
            if is_active == want {
                proof {
                    assert(output_chunk < source@.len()) by (nonlinear_arith)
                        requires
                            output_chunk * N + output_slot < source@.len() * N,
                            0 <= output_slot,
                    ;
                }
                let ghost before = target@;
                let mut batch = target[output_chunk];
                batch.set_lane(output_slot, lane);
                target[output_chunk] = batch;
                proof {
                    lemma_flat_lane(before, output_chunk as int, output_slot as int);
                    lemma_flat_update(
                        before,
                        output_chunk as int,
                        output_slot as int,
                        batch,
                        lane,
                    );
                    assert(flat_lanes(target@).take(k + 1) =~= flat_lanes(before).take(k).push(
                        lane,
                    ));
                    assert(flat_lanes(before).take(k).push(lane) =~= kept + lanes.take(
                        p + 1,
                    ).filter(pred));
                }
                output_slot += 1;
                if output_slot >= N {
                    output_slot = 0;
                    proof {
                        assert((output_chunk + 1) * N == output_chunk * N + N)
                            by (nonlinear_arith);
                        assert(output_chunk + 1 <= source@.len()) by (nonlinear_arith)
                            requires
                                output_chunk * N + N <= source@.len() * N,
                                N >= 1,
                        ;
                    }
                    output_chunk += 1;
                }
            }
            j += 1;
        }
        proof {
            assert((i + 1) * N == i * N + N) by (nonlinear_arith);
        }
        i += 1;
    }
    proof {
        assert(lanes.take(source@.len() * N) =~= lanes);
    }
    CombinedIndex { chunk_index: output_chunk, slot_index: output_slot }
}

/// Copies the lanes of `source` into `target`, the active lanes first and
/// the other lanes after them, each group in its order, and returns the
/// number of batches of `target` that hold an active lane.
pub fn compact_into<T: Scaler, const N: usize>(
    source: &Vec<TraceBatch<T, N>>,
    target: &mut Vec<TraceBatch<T, N>>,
) -> (active: usize)
    requires
        N >= 1,
        old(target)@.len() == source@.len(),
    ensures
        final(target)@.len() == source@.len(),
        flat_lanes(final(target)@) == live_first(flat_lanes(source@)),
        flat_lanes(final(target)@).to_multiset() == flat_lanes(source@).to_multiset(),
        packed_to_front(final(target)@, active),
{
    let ghost lanes = flat_lanes(source@);
    let ghost live = lanes.filter(lanes_that(true));
    let ghost rest = lanes.filter(lanes_that(false));
    let ghost total = source@.len() * N;
    proof {
        lemma_live_first_len(lanes);
        lemma_live_first_keeps_lanes(lanes);
        assert(lanes.len() == total);
        assert(0 * N == 0);
        assert(flat_lanes(target@).take(0) =~= Seq::empty());
    }
    let middle = append_lanes(source, target, true, CombinedIndex { chunk_index: 0, slot_index: 0 });
    let ghost count = middle.chunk_index * N + middle.slot_index;
    proof {
        assert(count == live.len());
        assert(source.len() == source@.len());
        assert(middle.slot_index > 0 ==> middle.chunk_index < source@.len()) by (nonlinear_arith)
            requires
                middle.chunk_index * N + middle.slot_index <= source@.len() * N,
                middle.slot_index < N,
        ;
        assert(middle.chunk_index <= source@.len()) by (nonlinear_arith)
            requires
                middle.chunk_index * N + middle.slot_index <= source@.len() * N,
                0 <= middle.slot_index < N,
        ;
    }
    let new_last_active_chunk = if middle.slot_index == 0 {
        middle.chunk_index
    } else {
        middle.chunk_index + 1
    };
    let ghost half = flat_lanes(target@);
    proof {
        assert(half.take(count) =~= live);
    }
    let end = append_lanes(source, target, false, middle);
    proof {
        let done = flat_lanes(target@);
        assert(done.len() == total);
        assert(end.chunk_index * N + end.slot_index == total);
        assert(done.take(total) =~= done);
        assert(done =~= live + rest);
        assert forall|chunk: int, slot: int|
            0 <= chunk < target@.len() && 0 <= slot < N implies #[trigger] active_at(
            target@,
            chunk,
            slot,
        ) == (chunk * N + slot < count) by {
            lemma_flat_lane(target@, chunk, slot);
            let at = chunk * N + slot;
            if at < count {
                lanes.lemma_filter_pred(lanes_that(true), at);
                assert(done[at] == live[at]);
            } else {
                lanes.lemma_filter_pred(lanes_that(false), at - count);
                assert(done[at] == rest[at - count]);
            }
        }
        let mc = middle.chunk_index as int;
        let ms = middle.slot_index as int;
        assert forall|chunk: int, slot: int|
            0 <= chunk < new_last_active_chunk - 1 && 0 <= slot < N implies #[trigger] active_at(
            target@,
            chunk,
            slot,
        ) by {
            assert(chunk * N + slot < mc * N + ms) by (nonlinear_arith)
                requires
                    chunk < mc,
                    0 <= slot < N,
                    0 <= ms,
            ;
        }
        assert forall|chunk: int, slot: int|
            new_last_active_chunk <= chunk < target@.len() && 0 <= slot < N implies !#[trigger] active_at(
            target@,
            chunk,
            slot,
        ) by {
            assert(chunk * N + slot >= mc * N + ms) by (nonlinear_arith)
                requires
                    (ms == 0 && chunk >= mc) || chunk >= mc + 1,
                    0 <= slot,
                    0 <= ms < N,
            ;
        }
        if new_last_active_chunk > 0 {
            let chunk = new_last_active_chunk - 1;
            assert(chunk * N + 0 < mc * N + ms) by (nonlinear_arith)
                requires
                    (ms == 0 && chunk == mc - 1) || (ms > 0 && chunk == mc),
                    N >= 1,
            ;
            assert(active_at(target@, chunk, 0));
        }
    }
    new_last_active_chunk
}

/// Two sequences that hold the same elements still hold the same elements
/// after one function was applied to each element of both.
pub proof fn lemma_map_keeps_permutation<A, B>(a: Seq<A>, b: Seq<A>, f: spec_fn(A) -> B)
    requires
        a.to_multiset() == b.to_multiset(),
    ensures
        a.map_values(f).to_multiset() == b.map_values(f).to_multiset(),
    decreases a.len(),
{
    broadcast use vstd::multiset::group_multiset_axioms;

    vstd::seq_lib::to_multiset_len(a);
    vstd::seq_lib::to_multiset_len(b);
    if a.len() == 0 {
        assert(a.map_values(f) =~= b.map_values(f));
    } else {
        let x = a.last();
        let shorter = a.drop_last();
        assert(shorter.push(x) =~= a);
        vstd::seq_lib::to_multiset_build(shorter, x);
        vstd::seq_lib::to_multiset_contains(b, x);
        assert(a.to_multiset().count(x) > 0);
        let i = choose|i: int| 0 <= i < b.len() && b[i] == x;
        let rest = b.remove(i);
        vstd::seq_lib::to_multiset_remove(b, i);
        assert(shorter.to_multiset() =~= rest.to_multiset());
        lemma_map_keeps_permutation(shorter, rest, f);
        assert(shorter.map_values(f).push(f(x)) =~= a.map_values(f));
        vstd::seq_lib::to_multiset_build(shorter.map_values(f), f(x));
        assert(b.map_values(f).remove(i) =~= rest.map_values(f));
        vstd::seq_lib::to_multiset_remove(b.map_values(f), i);
        vstd::seq_lib::to_multiset_contains(b.map_values(f), f(x));
        assert(b.map_values(f)[i] == f(x));
        assert(b.map_values(f).contains(f(x)));
        assert(b.map_values(f).to_multiset() =~= rest.map_values(f).to_multiset().insert(f(x)));
        assert(a.map_values(f).to_multiset() =~= b.map_values(f).to_multiset());
    }
}

/// The number of active lanes among the lanes of a list of batches.
pub open spec fn active_count<T: Scaler, const N: usize>(batches: Seq<TraceBatch<T, N>>) -> nat {
    flat_lanes(batches).filter(lanes_that(true)).len()
}

/// Two sequences that hold the same elements hold equally many elements
/// that pass a test.
pub proof fn lemma_filter_keeps_count<A>(a: Seq<A>, b: Seq<A>, pred: spec_fn(A) -> bool)
    requires
        a.to_multiset() == b.to_multiset(),
    ensures
        a.filter(pred).len() == b.filter(pred).len(),
    decreases a.len(),
{
    broadcast use vstd::multiset::group_multiset_axioms;

    vstd::seq_lib::to_multiset_len(a);
    vstd::seq_lib::to_multiset_len(b);
    if a.len() == 0 {
        assert(a =~= b);
    } else {
        let x = a.last();
        let shorter = a.drop_last();
        assert(shorter.push(x) =~= a);
        vstd::seq_lib::to_multiset_build(shorter, x);
        vstd::seq_lib::to_multiset_contains(b, x);
        assert(a.to_multiset().count(x) > 0);
        let i = choose|i: int| 0 <= i < b.len() && b[i] == x;
        let rest = b.remove(i);
        vstd::seq_lib::to_multiset_remove(b, i);
        assert(shorter.to_multiset() =~= rest.to_multiset());
        lemma_filter_keeps_count(shorter, rest, pred);
        shorter.lemma_filter_len_push(pred, x);
        let front = b.take(i);
        let back = b.skip(i + 1);
        assert(b =~= front.push(x) + back);
        assert(rest =~= front + back);
        Seq::filter_distributes_over_add(front.push(x), back, pred);
        Seq::filter_distributes_over_add(front, back, pred);
        front.lemma_filter_len_push(pred, x);
    }
}

/// Where the active lanes fill the batches from the front, the number of
/// batches in use is the number of batches needed to hold the active
/// lanes, and no more.
pub proof fn lemma_batches_in_use<T: Scaler, const N: usize>(
    batches: Seq<TraceBatch<T, N>>,
    active: usize,
)
    requires
        N >= 1,
        packed_to_front(batches, active),
    ensures
        active == 0 ==> active_count(batches) == 0,
        active > 0 ==> (active - 1) * N < active_count(batches) <= active * N,
{
    let lanes = flat_lanes(batches);
    let pred = lanes_that::<T>(true);
    let total = batches.len() * N;
    let full = if active > 0 {
        (active - 1) * N
    } else {
        0
    };
    assert(lanes.len() == total);
    assert(0 <= full <= active * N <= total) by (nonlinear_arith)
        requires
            0 <= active <= batches.len(),
            N >= 1,
            full == (if active > 0 {
                (active - 1) * N
            } else {
                0
            }),
            total == batches.len() * N,
    ;
    lemma_count_of_prefix(batches, active, total as int);
    assert(lanes.take(total as int) =~= lanes);
    if active > 0 {
        let used = active * N;
        lemma_count_of_prefix(batches, active, used);
        let slot = choose|slot: int| 0 <= slot < N && #[trigger] active_at(
            batches,
            active - 1,
            slot,
        );
        let at = (active - 1) * N + slot;
        lemma_flat_lane(batches, active - 1, slot);
        assert(used == (active - 1) * N + N) by (nonlinear_arith)
            requires
                used == active * N,
        ;
        lemma_count_of_prefix(batches, active, at);
        assert(lanes.take(at + 1) =~= lanes.take(at).push(lanes[at]));
        lanes.take(at).lemma_filter_len_push(pred, lanes[at]);
        lanes.take(used).lemma_filter_take_len(pred, at + 1);
        assert(lanes.take(used).take(at + 1) =~= lanes.take(at + 1));
    } else {
        lemma_count_of_prefix(batches, active, 0);
        assert(0 * N == 0);
    }
}

/// Among the first `k` lanes of batches whose active lanes fill them from
/// the front: every lane of the batches that are full counts, no lane
/// after the batches in use counts, and the count never shrinks.
proof fn lemma_count_of_prefix<T: Scaler, const N: usize>(
    batches: Seq<TraceBatch<T, N>>,
    active: usize,
    k: int,
)
    requires
        N >= 1,
        packed_to_front(batches, active),
        0 <= k <= batches.len() * N,
    ensures
        ({
            let count = flat_lanes(batches).take(k).filter(lanes_that(true)).len();
            let full = if active > 0 {
                (active - 1) * N
            } else {
                0
            };
            &&& count <= k
            &&& k <= full ==> count == k
            &&& k >= full ==> count >= full
            &&& k >= active * N ==> count == flat_lanes(batches).take(active * N).filter(
                lanes_that(true),
            ).len()
        }),
    decreases k,
{
    let lanes = flat_lanes(batches);
    let pred = lanes_that::<T>(true);
    assert(0 <= active * N <= batches.len() * N) by (nonlinear_arith)
        requires
            0 <= active <= batches.len(),
            N >= 1,
    ;
    if k == 0 {
        assert(lanes.take(0) =~= Seq::empty());
        lanes.take(0).lemma_filter_len(pred);
    } else {
        lemma_count_of_prefix(batches, active, k - 1);
        let at = k - 1;
        assert(lanes.take(k) =~= lanes.take(at).push(lanes[at]));
        lanes.take(at).lemma_filter_len_push(pred, lanes[at]);
        lemma_flat_cell(batches.len() as int, N as int, at);
        let chunk = at / (N as int);
        let slot = at % (N as int);
        assert(lanes[at] == batches[chunk]@[slot]);
        if active > 0 && k <= (active - 1) * N {
            assert(chunk < active - 1) by (nonlinear_arith)
                requires
                    at == chunk * N + slot,
                    0 <= slot < N,
                    at < (active - 1) * N,
            ;
            assert(active_at(batches, chunk, slot));
        }
        if at >= active * N {
            assert(chunk >= active) by (nonlinear_arith)
                requires
                    at == chunk * N + slot,
                    0 <= slot < N,
                    at >= active * N,
            ;
            assert(!active_at(batches, chunk, slot));
        }
    }
}

/// Two lists of batches that hold the same lanes, each with its active
/// lanes filling it from the front, have the same number of batches in
/// use.
pub proof fn lemma_same_lanes_same_batches_in_use<T: Scaler, const N: usize>(
    first: Seq<TraceBatch<T, N>>,
    first_active: usize,
    second: Seq<TraceBatch<T, N>>,
    second_active: usize,
)
    requires
        N >= 1,
        flat_lanes(first).to_multiset() == flat_lanes(second).to_multiset(),
        packed_to_front(first, first_active),
        packed_to_front(second, second_active),
    ensures
        first_active == second_active,
{
    lemma_filter_keeps_count(flat_lanes(first), flat_lanes(second), lanes_that(true));
    lemma_batches_in_use(first, first_active);
    lemma_batches_in_use(second, second_active);
    let count = active_count(first) as int;
    let a = first_active as int;
    let b = second_active as int;
    if a > 0 && b > 0 {
        assert(a == b) by (nonlinear_arith)
            requires
                (a - 1) * N < count <= a * N,
                (b - 1) * N < count <= b * N,
                N >= 1,
        ;
    }
}

/// The lane in slot `slot` of batch `chunk`, or `fallback` where the list
/// has no such lane.
pub open spec fn gathered<T: Scaler, const N: usize>(
    batches: Seq<TraceBatch<T, N>>,
    chunk: usize,
    slot: usize,
    fallback: TraceLane<T>,
) -> TraceLane<T> {
    if chunk < batches.len() && slot < N {
        batches[chunk as int]@[slot as int]
    } else {
        fallback
    }
}

/// Rearranges the lanes of a list of batches: afterwards each lane holds
/// what the lane held that `chunk_indices` and `lane_indices` name for it,
/// or `fallback` where they name none. A lane may be named for several
/// places or for none.
pub fn permute<T: Scaler, const N: usize>(
    batches: &mut Vec<TraceBatch<T, N>>,
    chunk_indices: &Vec<Packed<usize, N>>,
    lane_indices: &Vec<Packed<usize, N>>,
    fallback: TraceLane<T>,
)
    requires
        chunk_indices@.len() == old(batches)@.len(),
        lane_indices@.len() == old(batches)@.len(),
    ensures
        final(batches)@.len() == old(batches)@.len(),
        forall|chunk: int, slot: int|
            0 <= chunk < old(batches)@.len() && 0 <= slot < N
                ==> #[trigger] final(batches)@[chunk]@[slot] == gathered(
                old(batches)@,
                chunk_indices@[chunk]@[slot],
                lane_indices@[chunk]@[slot],
                fallback,
            ),
{
    let mut tmp_buffer: Vec<TraceBatch<T, N>> = Vec::new();
    let mut k: usize = 0;
    while k < batches.len()
        invariant
            k <= batches@.len(),
            batches@ == old(batches)@,
            tmp_buffer@ == batches@.take(k as int),
        decreases batches.len() - k,
    {
        tmp_buffer.push(batches[k]);
        assert(tmp_buffer@ =~= batches@.take(k + 1));
        k += 1;
    }
    assert(tmp_buffer@ =~= old(batches)@);
    let mut i: usize = 0;
    while i < batches.len()
        invariant
            i <= batches@.len(),
            batches@.len() == old(batches)@.len(),
            chunk_indices@.len() == batches@.len(),
            lane_indices@.len() == batches@.len(),
            tmp_buffer@ == old(batches)@,
            forall|chunk: int, slot: int|
                0 <= chunk < i && 0 <= slot < N ==> #[trigger] batches@[chunk]@[slot] == gathered(
                    old(batches)@,
                    chunk_indices@[chunk]@[slot],
                    lane_indices@[chunk]@[slot],
                    fallback,
                ),
        decreases batches.len() - i,
    {
        let mut batch = batches[i];
        let mut slot: usize = 0;
        while slot < N
            invariant
                slot <= N,
                i < batches@.len(),
                chunk_indices@.len() == batches@.len(),
                lane_indices@.len() == batches@.len(),
                tmp_buffer@ == old(batches)@,
                batches@.len() == old(batches)@.len(),
                batch@.len() == N,
                forall|l: int|
                    0 <= l < slot ==> #[trigger] batch@[l] == gathered(
                        old(batches)@,
                        chunk_indices@[i as int]@[l],
                        lane_indices@[i as int]@[l],
                        fallback,
                    ),
            decreases N - slot,
        {
            let from_chunk = chunk_indices[i].at(slot);
            let from_slot = lane_indices[i].at(slot);
            let lane = if from_chunk < tmp_buffer.len() && from_slot < N {
                tmp_buffer[from_chunk].lane(from_slot)
            } else {
                fallback
            };
            batch.set_lane(slot, lane);
            slot += 1;
        }
        let ghost before = batches@;
        batches[i] = batch;
        proof {
            assert forall|chunk: int, l: int|
                0 <= chunk < i + 1 && 0 <= l < N implies #[trigger] batches@[chunk]@[l]
                == gathered(
                old(batches)@,
                chunk_indices@[chunk]@[l],
                lane_indices@[chunk]@[l],
                fallback,
            ) by {
                if chunk < i {
                    assert(batches@[chunk] == before[chunk]);
                }
            }
        }
        i += 1;
    }
}

} // verus!
