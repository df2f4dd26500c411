//! Cutting an image into square tiles that can be rendered apart, and
//! finding a pixel again among the tiles.

use vstd::prelude::*;

verus! {

/// The number of tiles of `block_size` pixels needed to cover `length`
/// pixels.
pub open spec fn blocks_for(length: int, block_size: int) -> int {
    if length % block_size == 0 {
        length / block_size
    } else {
        length / block_size + 1
    }
}

/// The pixels that tile `block_index` covers along one side of an image of
/// `length` pixels: a full tile, or what is left of the image.
pub open spec fn tile_extent(length: int, block_size: int, block_index: int) -> int {
    if length - block_index * block_size < block_size {
        length - block_index * block_size
    } else {
        block_size
    }
}

/// The tiles cover the image and stay inside it but for the last tile
/// of a side, which may be cut short.
pub proof fn lemma_blocks_for(length: int, block_size: int)
    requires
        length >= 0,
        block_size >= 1,
    ensures
        0 <= blocks_for(length, block_size) <= length,
        (blocks_for(length, block_size) - 1) * block_size < length || length == 0,
        length <= blocks_for(length, block_size) * block_size,
        forall|pixel: int|
            0 <= pixel < length ==> 0 <= #[trigger] (pixel / block_size) < blocks_for(
                length,
                block_size,
            ),
        forall|block_index: int|
            0 <= block_index < blocks_for(length, block_size) ==> 1 <= #[trigger] tile_extent(
                length,
                block_size,
                block_index,
            ) <= block_size,
{
    let q = length / block_size;
    let r = length % block_size;
    vstd::arithmetic::div_mod::lemma_fundamental_div_mod(length, block_size);
    vstd::arithmetic::div_mod::lemma_mod_bound(length, block_size);
    assert(block_size * q == q * block_size) by (nonlinear_arith);
    assert(0 <= q <= length) by (nonlinear_arith)
        requires
            length == q * block_size + r,
            0 <= r < block_size,
            block_size >= 1,
            length >= 0,
    ;
    assert(q + 1 <= length || r == 0) by (nonlinear_arith)
        requires
            length == q * block_size + r,
            0 <= r < block_size,
            block_size >= 1,
            q >= 0,
    ;
    assert((q + 1) * block_size == q * block_size + block_size) by (nonlinear_arith);
    assert((q - 1) * block_size == q * block_size - block_size) by (nonlinear_arith);
    assert forall|pixel: int| 0 <= pixel < length implies 0 <= #[trigger] (pixel / block_size)
        < blocks_for(length, block_size) by {
        let pq = pixel / block_size;
        let pr = pixel % block_size;
        vstd::arithmetic::div_mod::lemma_fundamental_div_mod(pixel, block_size);
        vstd::arithmetic::div_mod::lemma_mod_bound(pixel, block_size);
        assert(block_size * pq == pq * block_size) by (nonlinear_arith);
        assert(0 <= pq && (pq < q || (pq == q && r > 0))) by (nonlinear_arith)
            requires
                pixel == pq * block_size + pr,
                0 <= pr < block_size,
                length == q * block_size + r,
                0 <= r < block_size,
                0 <= pixel < length,
        ;
    }
    assert forall|block_index: int|
        0 <= block_index < blocks_for(length, block_size) implies 1 <= #[trigger] tile_extent(
        length,
        block_size,
        block_index,
    ) <= block_size by {
        assert(block_index * block_size < length) by (nonlinear_arith)
            requires
                0 <= block_index,
                block_index < q || (block_index == q && r > 0),
                length == q * block_size + r,
                0 <= r < block_size,
        ;
    }
}

/// One tile of an image: which tile it is, counted in tiles from the upper
/// left corner, how many pixels of the image it covers each way, and the
/// side of a full tile.
#[derive(Clone, Copy, Debug, PartialEq, Eq)]
pub struct TileRenderTask {
    pub block_index_x: usize,
    pub block_index_y: usize,
    pub size_x: usize,
    pub size_y: usize,
    pub block_size: usize,
}

impl TileRenderTask {
    /// Whether the tile is no larger than a full tile, and the places of
    /// its pixels, in the image and in its own list of pixels, can be
    /// counted.
    pub open spec fn wf(&self) -> bool {
        &&& self.size_x <= self.block_size
        &&& self.size_y <= self.block_size
        &&& self.block_size * self.block_size <= usize::MAX
        &&& self.block_index_x * self.block_size + self.size_x <= usize::MAX
        &&& self.block_index_y * self.block_size + self.size_y <= usize::MAX
    }

    /// The pixels of the tile, where `pixel` gives the three bytes of the
    /// pixel in a column and a row of the image. The pixels are kept row
    /// after row, each row as long as a full tile is wide; the places that
    /// lie outside the image stay black.
    pub fn render<P: Fn(usize, usize) -> [u8; 3]>(&self, pixel: &P) -> (r: Vec<[u8; 3]>)
        requires
            self.wf(),
            forall|col: usize, row: usize| #[trigger] pixel.requires((col, row)),
        ensures
            r@.len() == self.block_size * self.block_size,
            forall|i: int, j: int|
                0 <= i < self.size_x && 0 <= j < self.size_y ==> pixel.ensures(
                    (
                        (self.block_index_x * self.block_size + i) as usize,
                        (self.block_index_y * self.block_size + j) as usize,
                    ),
                    #[trigger] r@[j * self.block_size + i],
                ),
            forall|i: int, j: int|
                0 <= i < self.block_size && 0 <= j < self.block_size && !(i < self.size_x && j
                    < self.size_y) ==> (#[trigger] r@[j * self.block_size + i])@ == seq![
                    0u8,
                    0u8,
                    0u8,
                ],
    {
        let ghost bs = self.block_size as int;
        let count = self.block_size * self.block_size;
        let mut r: Vec<[u8; 3]> = Vec::new();
        let mut k: usize = 0;
        while k < count
            invariant
                k <= count,
                r@.len() == k,
                forall|n: int| 0 <= n < k ==> (#[trigger] r@[n])@ == seq![0u8, 0u8, 0u8],
            decreases count - k,
        {
            let dark = [0u8, 0u8, 0u8];
            assert(dark@ =~= seq![0u8, 0u8, 0u8]);
            r.push(dark);
            k += 1;
        }
        proof {
            assert(self.block_index_x * bs >= 0 && self.block_index_y * bs >= 0)
                by (nonlinear_arith)
                requires
                    bs >= 0,
                    self.block_index_x >= 0,
                    self.block_index_y >= 0,
            ;
        }
        let col_offset = self.block_index_x * self.block_size;
        let row_offset = self.block_index_y * self.block_size;
        let mut j: usize = 0;
        while j < self.size_y
            invariant
                self.wf(),
                bs == self.block_size,
                count == bs * bs,
                col_offset == self.block_index_x * bs,
                row_offset == self.block_index_y * bs,
                j <= self.size_y,
                r@.len() == count,
                forall|col: usize, row: usize| #[trigger] pixel.requires((col, row)),
                forall|n: int|
                    j * bs <= n < count ==> (#[trigger] r@[n])@ == seq![0u8, 0u8, 0u8],
                forall|a: int, b: int|
                    0 <= a < self.size_x && 0 <= b < j ==> pixel.ensures(
                        ((col_offset + a) as usize, (row_offset + b) as usize),
                        #[trigger] r@[b * bs + a],
                    ),
                forall|a: int, b: int|
                    self.size_x <= a < bs && 0 <= b < j ==> (#[trigger] r@[b * bs + a])@ == seq![
                        0u8,
                        0u8,
                        0u8,
                    ],
            decreases self.size_y - j,
        {
            let mut i: usize = 0;
            proof {
                lemma_row_place(bs, j as int, 0);
            }
            while i < self.size_x
                invariant
                    self.wf(),
                    bs == self.block_size,
                    count == bs * bs,
                    col_offset == self.block_index_x * bs,
                    row_offset == self.block_index_y * bs,
                    j < self.size_y,
                    i <= self.size_x,
                    r@.len() == count,
                    forall|col: usize, row: usize| #[trigger] pixel.requires((col, row)),
                    forall|n: int|
                        j * bs + i <= n < count ==> (#[trigger] r@[n])@ == seq![0u8, 0u8, 0u8],
                    forall|a: int, b: int|
                        0 <= a < self.size_x && 0 <= b < j ==> pixel.ensures(
                            ((col_offset + a) as usize, (row_offset + b) as usize),
                            #[trigger] r@[b * bs + a],
                        ),
                    forall|a: int, b: int|
                        self.size_x <= a < bs && 0 <= b < j ==> (#[trigger] r@[b * bs + a])@
                            == seq![0u8, 0u8, 0u8],
                    forall|a: int|
                        0 <= a < i ==> pixel.ensures(
                            ((col_offset + a) as usize, (row_offset + j) as usize),
                            #[trigger] r@[j * bs + a],
                        ),
                decreases self.size_x - i,
            {
                proof {
                    lemma_row_place(bs, j as int, i as int);
                }
                let ghost before = r@;
                let bytes = pixel(i + col_offset, j + row_offset);
                r[j * self.block_size + i] = bytes;
                proof {
                    assert forall|a: int, b: int|
                        0 <= a < self.size_x && 0 <= b < j implies pixel.ensures(
                        ((col_offset + a) as usize, (row_offset + b) as usize),
                        #[trigger] r@[b * bs + a],
                    ) by {
                        lemma_row_place(bs, b, a);
                        lemma_rows_apart(bs, b, a, j as int, i as int);
                        assert(r@[b * bs + a] == before[b * bs + a]);
                    }
                    assert forall|a: int, b: int|
                        self.size_x <= a < bs && 0 <= b < j implies (#[trigger] r@[b * bs + a])@
                        == seq![0u8, 0u8, 0u8] by {
                        lemma_row_place(bs, b, a);
                        lemma_rows_apart(bs, b, a, j as int, i as int);
                        assert(r@[b * bs + a] == before[b * bs + a]);
                    }
                    assert forall|a: int| 0 <= a < i + 1 implies pixel.ensures(
                        ((col_offset + a) as usize, (row_offset + j) as usize),
                        #[trigger] r@[j * bs + a],
                    ) by {
                        if a < i {
                            assert(r@[j * bs + a] == before[j * bs + a]);
                        }
                    }
                }
                i += 1;
            }
            proof {
                assert((j + 1) * bs == j * bs + bs) by (nonlinear_arith);
                assert forall|a: int, b: int|
                    self.size_x <= a < bs && 0 <= b < j + 1 implies (#[trigger] r@[b * bs + a])@
                    == seq![0u8, 0u8, 0u8] by {
                    if b == j {
                        lemma_row_place(bs, b, a);
                    }
                }
            }
            j += 1;
        }
        proof {
            assert forall|a: int, b: int|
                0 <= a < bs && 0 <= b < bs && !(a < self.size_x && b < self.size_y) implies (
            #[trigger] r@[b * bs + a])@ == seq![0u8, 0u8, 0u8] by {
                lemma_row_place(bs, b, a);
                if b >= self.size_y {
                    assert(b * bs >= self.size_y * bs) by (nonlinear_arith)
                        requires
                            b >= self.size_y,
                            bs >= 0,
                    ;
                }
            }
        }
        r
    }
}

/// The place of the pixel in column `i` of row `j` of a tile lies among
/// the places of the tile.
proof fn lemma_row_place(bs: int, j: int, i: int)
    requires
        0 <= i < bs,
        0 <= j < bs,
    ensures
        0 <= j * bs,
        j * bs + i < bs * bs,
        j * bs + i < (j + 1) * bs,
        (j + 1) * bs <= bs * bs,
{
    assert(0 <= j * bs && j * bs + i < bs * bs && j * bs + i < (j + 1) * bs && (j + 1) * bs <= bs
        * bs) by (nonlinear_arith)
        requires
            0 <= i < bs,
            0 <= j < bs,
    ;
}

/// Pixels of two rows of a tile have two places.
proof fn lemma_rows_apart(bs: int, b: int, a: int, j: int, i: int)
    requires
        0 <= a < bs,
        0 <= i < bs,
        0 <= b < j,
    ensures
        b * bs + a < j * bs + i,
{
    assert(b * bs + a < j * bs + i) by (nonlinear_arith)
        requires
            0 <= a < bs,
            0 <= i < bs,
            0 <= b < j,
    ;
}

/// Where a pixel of an image is kept: in which tile of the list of tiles,
/// and at which place among the pixels of that tile.
#[derive(Clone, Copy, Debug, PartialEq, Eq)]
pub struct TilePixel {
    pub tile: usize,
    pub pixel: usize,
}

/// Renders an image tile by tile, on a number of threads.
#[derive(Clone, Copy, Debug)]
pub struct TileRenderer {
    num_threads: usize,
    block_size: usize,
}

impl TileRenderer {
    pub closed spec fn spec_num_threads(&self) -> usize {
        self.num_threads
    }

    pub closed spec fn spec_block_size(&self) -> usize {
        self.block_size
    }

    /// Whether the renderer has a thread to work on and tiles of a side.
    pub open spec fn wf(&self) -> bool {
        self.spec_num_threads() >= 1 && self.spec_block_size() >= 1
    }

    /// The task of the tile in column `x` and row `y` of the tiles of an
    /// image of `width` by `height` pixels.
    pub open spec fn task_at(&self, width: usize, height: usize, x: int, y: int) -> TileRenderTask {
        TileRenderTask {
            block_index_x: x as usize,
            block_index_y: y as usize,
            size_x: tile_extent(width as int, self.spec_block_size() as int, x) as usize,
            size_y: tile_extent(height as int, self.spec_block_size() as int, y) as usize,
            block_size: self.spec_block_size(),
        }
    }

    pub fn new(num_threads: usize, block_size: usize) -> (r: TileRenderer)
        requires
            num_threads >= 1,
            block_size >= 1,
        ensures
            r.wf(),
            r.spec_num_threads() == num_threads,
            r.spec_block_size() == block_size,
    {
        TileRenderer { num_threads, block_size }
    }

    pub fn num_threads(&self) -> (r: usize)
        ensures
            r == self.spec_num_threads(),
    {
        self.num_threads
    }

    pub fn block_size(&self) -> (r: usize)
        ensures
            r == self.spec_block_size(),
    {
        self.block_size
    }

    /// The number of tiles needed to cover `length` pixels.
    pub fn blocks(&self, length: usize) -> (r: usize)
        requires
            self.wf(),
        ensures
            r == blocks_for(length as int, self.spec_block_size() as int),
    {
        proof {
            lemma_blocks_for(length as int, self.block_size as int);
        }
        if length % self.block_size == 0 {
            length / self.block_size
        } else {
            length / self.block_size + 1
        }
    }

    /// The tasks of all tiles of an image of `width` by `height` pixels,
    /// row of tiles after row of tiles.
    pub fn tasks(&self, width: usize, height: usize) -> (r: Vec<TileRenderTask>)
        requires
            self.wf(),
        ensures
            r@.len() == blocks_for(width as int, self.spec_block_size() as int) * blocks_for(
                height as int,
                self.spec_block_size() as int,
            ),
            forall|x: int, y: int|
                0 <= x < blocks_for(width as int, self.spec_block_size() as int) && 0 <= y
                    < blocks_for(height as int, self.spec_block_size() as int) ==> r@[y
                    * blocks_for(width as int, self.spec_block_size() as int) + x]
                    == #[trigger] self.task_at(width, height, x, y),
    {
        let width_in_blocks = self.blocks(width);
        let height_in_blocks = self.blocks(height);
        let ghost wb = width_in_blocks as int;
        let ghost hb = height_in_blocks as int;
        let ghost bs = self.block_size as int;
        let mut r: Vec<TileRenderTask> = Vec::new();
        let mut block_index_y: usize = 0;
        proof {
            lemma_blocks_for(width as int, bs);
            lemma_blocks_for(height as int, bs);
            assert(0 * wb == 0);
        }
        while block_index_y < height_in_blocks
            invariant
                self.wf(),
                bs == self.spec_block_size(),
                wb == blocks_for(width as int, bs),
                hb == blocks_for(height as int, bs),
                wb == width_in_blocks,
                hb == height_in_blocks,
                block_index_y <= height_in_blocks,
                r@.len() == block_index_y * wb,
                forall|x: int, y: int|
                    0 <= x < wb && 0 <= y < block_index_y ==> r@[y * wb + x]
                        == #[trigger] self.task_at(width, height, x, y),
            decreases height_in_blocks - block_index_y,
        {
            let mut block_index_x: usize = 0;
            proof {
                lemma_blocks_for(width as int, bs);
                lemma_blocks_for(height as int, bs);
            }
            while block_index_x < width_in_blocks
                invariant
                    self.wf(),
                    bs == self.spec_block_size(),
                    wb == blocks_for(width as int, bs),
                    hb == blocks_for(height as int, bs),
                    wb == width_in_blocks,
                    hb == height_in_blocks,
                    block_index_y < height_in_blocks,
                    block_index_x <= width_in_blocks,
                    r@.len() == block_index_y * wb + block_index_x,
                    forall|x: int, y: int|
                        0 <= x < wb && 0 <= y < block_index_y ==> r@[y * wb + x]
                            == #[trigger] self.task_at(width, height, x, y),
                    forall|x: int|
                        0 <= x < block_index_x ==> r@[block_index_y * wb + x]
                            == #[trigger] self.task_at(width, height, x, block_index_y as int),
                    forall|block_index: int|
                        0 <= block_index < wb ==> 1 <= #[trigger] tile_extent(
                            width as int,
                            bs,
                            block_index,
                        ) <= bs,
                    forall|block_index: int|
                        0 <= block_index < hb ==> 1 <= #[trigger] tile_extent(
                            height as int,
                            bs,
                            block_index,
                        ) <= bs,
                decreases width_in_blocks - block_index_x,
            {
                proof {
                    assert(1 <= tile_extent(width as int, bs, block_index_x as int) <= bs);
                    assert(1 <= tile_extent(height as int, bs, block_index_y as int) <= bs);
                    assert(block_index_x * bs < width) by (nonlinear_arith)
                        requires
                            tile_extent(width as int, bs, block_index_x as int) >= 1,
                            bs >= 1,
                            block_index_x >= 0,
                            tile_extent(width as int, bs, block_index_x as int) <= width
                                - block_index_x * bs,
                    ;
                    assert(block_index_y * bs < height) by (nonlinear_arith)
                        requires
                            tile_extent(height as int, bs, block_index_y as int) >= 1,
                            bs >= 1,
                            block_index_y >= 0,
                            tile_extent(height as int, bs, block_index_y as int) <= height
                                - block_index_y * bs,
                    ;
                }
                let left = width - block_index_x * self.block_size;
                let below = height - block_index_y * self.block_size;
                let size_x = if left < self.block_size {
                    left
                } else {
                    self.block_size
                };
                let size_y = if below < self.block_size {
                    below
                } else {
                    self.block_size
                };
                let ghost before = r@;
                r.push(
                    TileRenderTask {
                        block_index_x,
                        block_index_y,
                        size_x,
                        size_y,
                        block_size: self.block_size,
                    },
                );
                proof {
                    assert forall|x: int, y: int|
                        0 <= x < wb && 0 <= y < block_index_y implies r@[y * wb + x]
                        == #[trigger] self.task_at(width, height, x, y) by {
                        assert(y * wb + x < block_index_y * wb) by (nonlinear_arith)
                            requires
                                0 <= x < wb,
                                0 <= y < block_index_y,
                        ;
                        assert(before[y * wb + x] == self.task_at(width, height, x, y));
                    }
                }
                block_index_x += 1;
            }
            proof {
                assert((block_index_y + 1) * wb == block_index_y * wb + wb) by (nonlinear_arith);
                assert forall|x: int, y: int|
                    0 <= x < wb && 0 <= y < block_index_y + 1 implies r@[y * wb + x]
                    == #[trigger] self.task_at(width, height, x, y) by {}
            }
            block_index_y += 1;
        }
        proof {
            assert(hb * wb == wb * hb) by (nonlinear_arith);
        }
        r
    }

    /// Where the pixel in column `col` and row `row` of an image of
    /// `width` by `height` pixels is kept: the place of its tile in the
    /// list of [`TileRenderer::tasks`], and its place among the pixels of
    /// that tile, which are kept row after row, each row as long as a full
    /// tile is wide.
    pub fn locate(&self, col: usize, row: usize, width: usize, height: usize) -> (r: TilePixel)
        requires
            self.wf(),
            col < width,
            row < height,
            blocks_for(width as int, self.spec_block_size() as int) * blocks_for(
                height as int,
                self.spec_block_size() as int,
            ) <= usize::MAX,
            self.spec_block_size() * self.spec_block_size() <= usize::MAX,
        ensures
            ({
                let bs = self.spec_block_size() as int;
                let wb = blocks_for(width as int, bs);
                let hb = blocks_for(height as int, bs);
                let x = col as int / bs;
                let y = row as int / bs;
                let task = self.task_at(width, height, x, y);
                &&& 0 <= x < wb
                &&& 0 <= y < hb
                &&& r.tile == y * wb + x
                &&& r.tile < wb * hb
                &&& r.pixel == (row as int % bs) * bs + col as int % bs
                &&& r.pixel < bs * bs
                &&& col == task.block_index_x * bs + col as int % bs
                &&& row == task.block_index_y * bs + row as int % bs
                &&& col as int % bs < task.size_x
                &&& row as int % bs < task.size_y
            }),
    {
        let ghost bs = self.block_size as int;
        let ghost wb = blocks_for(width as int, bs);
        let ghost hb = blocks_for(height as int, bs);
        let width_in_blocks = self.blocks(width);
        let block_index_x = col / self.block_size;
        let block_index_y = row / self.block_size;
        let intra_block_x = col % self.block_size;
        let intra_block_y = row % self.block_size;
        proof {
            lemma_blocks_for(width as int, bs);
            lemma_blocks_for(height as int, bs);
            assert(0 <= col as int / bs < wb);
            assert(0 <= row as int / bs < hb);
            vstd::arithmetic::div_mod::lemma_fundamental_div_mod(col as int, bs);
            vstd::arithmetic::div_mod::lemma_fundamental_div_mod(row as int, bs);
            vstd::arithmetic::div_mod::lemma_mod_bound(col as int, bs);
            vstd::arithmetic::div_mod::lemma_mod_bound(row as int, bs);
            assert(bs * block_index_x == block_index_x * bs) by (nonlinear_arith);
            assert(bs * block_index_y == block_index_y * bs) by (nonlinear_arith);
            assert(block_index_y * wb + block_index_x < wb * hb) by (nonlinear_arith)
                requires
                    0 <= block_index_x < wb,
                    0 <= block_index_y < hb,
            ;
            assert(block_index_y * wb >= 0) by (nonlinear_arith)
                requires
                    block_index_y >= 0,
                    wb >= 0,
            ;
            assert(intra_block_y * bs + intra_block_x < bs * bs) by (nonlinear_arith)
                requires
                    0 <= intra_block_x < bs,
                    0 <= intra_block_y < bs,
            ;
            assert(intra_block_y * bs >= 0) by (nonlinear_arith)
                requires
                    intra_block_y >= 0,
                    bs >= 0,
            ;
        }
        TilePixel {
            tile: block_index_x + block_index_y * width_in_blocks,
            pixel: intra_block_x + intra_block_y * self.block_size,
        }
    }
}

/// Every tile that a renderer cuts from an image can be rendered: it is no
/// larger than a full tile and lies inside the image.
pub proof fn lemma_task_fits(renderer: TileRenderer, width: usize, height: usize, x: int, y: int)
    requires
        renderer.wf(),
        renderer.spec_block_size() * renderer.spec_block_size() <= usize::MAX,
        0 <= x < blocks_for(width as int, renderer.spec_block_size() as int),
        0 <= y < blocks_for(height as int, renderer.spec_block_size() as int),
    ensures
        renderer.task_at(width, height, x, y).wf(),
        x * renderer.spec_block_size() + renderer.task_at(width, height, x, y).size_x <= width,
        y * renderer.spec_block_size() + renderer.task_at(width, height, x, y).size_y <= height,
{
    let bs = renderer.spec_block_size() as int;
    lemma_blocks_for(width as int, bs);
    lemma_blocks_for(height as int, bs);
    assert(1 <= tile_extent(width as int, bs, x) <= bs);
    assert(1 <= tile_extent(height as int, bs, y) <= bs);
    assert(x * bs >= 0 && y * bs >= 0) by (nonlinear_arith)
        requires
            x >= 0,
            y >= 0,
            bs >= 1,
    ;
    assert(x <= width && y <= height);
}

} // verus!
