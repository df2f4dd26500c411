use raytracer::renderer::{TilePixel, TileRenderTask, TileRenderer};

#[test]
fn renderer_keeps_its_settings() {
    let renderer = TileRenderer::new(8, 128);
    assert_eq!(renderer.num_threads(), 8);
    assert_eq!(renderer.block_size(), 128);
}

#[test]
fn blocks_round_up() {
    let renderer = TileRenderer::new(1, 128);
    assert_eq!(renderer.blocks(0), 0);
    assert_eq!(renderer.blocks(1), 1);
    assert_eq!(renderer.blocks(128), 1);
    assert_eq!(renderer.blocks(129), 2);
    assert_eq!(renderer.blocks(3840), 30);
    assert_eq!(renderer.blocks(2160), 17);
    assert_eq!(TileRenderer::new(1, 1).blocks(usize::MAX), usize::MAX);
    assert_eq!(TileRenderer::new(1, 2).blocks(usize::MAX), usize::MAX / 2 + 1);
}

#[test]
fn tasks_cover_the_image_row_by_row() {
    let renderer = TileRenderer::new(2, 4);
    let tasks = renderer.tasks(10, 6);
    assert_eq!(tasks.len(), 6);
    assert_eq!(
        tasks[0],
        TileRenderTask { block_index_x: 0, block_index_y: 0, size_x: 4, size_y: 4, block_size: 4 }
    );
    assert_eq!(
        tasks[2],
        TileRenderTask { block_index_x: 2, block_index_y: 0, size_x: 2, size_y: 4, block_size: 4 }
    );
    assert_eq!(
        tasks[3],
        TileRenderTask { block_index_x: 0, block_index_y: 1, size_x: 4, size_y: 2, block_size: 4 }
    );
    assert_eq!(
        tasks[5],
        TileRenderTask { block_index_x: 2, block_index_y: 1, size_x: 2, size_y: 2, block_size: 4 }
    );
    let pixels: usize = tasks.iter().map(|t| t.size_x * t.size_y).sum();
    assert_eq!(pixels, 60);
}

#[test]
fn tasks_of_an_empty_image() {
    let renderer = TileRenderer::new(2, 4);
    assert!(renderer.tasks(0, 6).is_empty());
    assert!(renderer.tasks(10, 0).is_empty());
}

#[test]
fn a_tile_larger_than_the_image() {
    let tasks = TileRenderer::new(1, 128).tasks(3, 2);
    assert_eq!(
        tasks,
        vec![TileRenderTask { block_index_x: 0, block_index_y: 0, size_x: 3, size_y: 2, block_size: 128 }]
    );
}

#[test]
fn locate_finds_tile_and_place() {
    let renderer = TileRenderer::new(2, 4);
    assert_eq!(renderer.locate(0, 0, 10, 6), TilePixel { tile: 0, pixel: 0 });
    assert_eq!(renderer.locate(3, 3, 10, 6), TilePixel { tile: 0, pixel: 15 });
    assert_eq!(renderer.locate(4, 0, 10, 6), TilePixel { tile: 1, pixel: 0 });
    assert_eq!(renderer.locate(9, 5, 10, 6), TilePixel { tile: 5, pixel: 5 });
    assert_eq!(renderer.locate(5, 4, 10, 6), TilePixel { tile: 4, pixel: 1 });
}

#[test]
fn every_pixel_has_one_place_in_one_tile() {
    let renderer = TileRenderer::new(3, 5);
    let (width, height) = (13, 11);
    let tasks = renderer.tasks(width, height);
    let mut seen = vec![vec![false; 25]; tasks.len()];
    for row in 0..height {
        for col in 0..width {
            let at = renderer.locate(col, row, width, height);
            let task = tasks[at.tile];
            assert!(at.pixel % 5 < task.size_x);
            assert!(at.pixel / 5 < task.size_y);
            assert_eq!(task.block_index_x * 5 + at.pixel % 5, col);
            assert_eq!(task.block_index_y * 5 + at.pixel / 5, row);
            assert!(!seen[at.tile][at.pixel]);
            seen[at.tile][at.pixel] = true;
        }
    }
    let used: usize = seen.iter().map(|tile| tile.iter().filter(|s| **s).count()).sum();
    assert_eq!(used, width * height);
}

#[test]
fn a_tile_keeps_its_pixels_row_after_row() {
    let task = TileRenderTask { block_index_x: 2, block_index_y: 1, size_x: 3, size_y: 2, block_size: 4 };
    let pixels = task.render(&|col: usize, row: usize| [col as u8, row as u8, 9]);
    assert_eq!(pixels.len(), 16);
    for j in 0..4 {
        for i in 0..4 {
            let expected = if i < 3 && j < 2 { [8 + i as u8, 4 + j as u8, 9] } else { [0, 0, 0] };
            assert_eq!(pixels[j * 4 + i], expected);
        }
    }
}

#[test]
fn a_tile_asks_for_each_of_its_pixels_once() {
    let asked = std::cell::RefCell::new(Vec::new());
    let task = TileRenderTask { block_index_x: 0, block_index_y: 3, size_x: 2, size_y: 2, block_size: 2 };
    let pixels = task.render(&|col: usize, row: usize| {
        asked.borrow_mut().push((col, row));
        [1, 2, 3]
    });
    assert_eq!(pixels, vec![[1, 2, 3]; 4]);
    assert_eq!(*asked.borrow(), vec![(0, 6), (1, 6), (0, 7), (1, 7)]);
    let empty = TileRenderTask { block_index_x: 5, block_index_y: 5, size_x: 0, size_y: 0, block_size: 3 };
    assert_eq!(empty.render(&|_: usize, _: usize| [7, 7, 7]), vec![[0, 0, 0]; 9]);
}

#[test]
fn the_tiles_of_an_image_render_every_pixel_once() {
    let renderer = TileRenderer::new(2, 4);
    let (width, height) = (10, 7);
    let tasks = renderer.tasks(width, height);
    let tiles: Vec<Vec<[u8; 3]>> =
        tasks.iter().map(|task| task.render(&|col: usize, row: usize| [col as u8, row as u8, 1])).collect();
    for row in 0..height {
        for col in 0..width {
            let place = renderer.locate(col, row, width, height);
            assert_eq!(tiles[place.tile][place.pixel], [col as u8, row as u8, 1]);
        }
    }
    let lit: usize = tiles.iter().map(|tile| tile.iter().filter(|p| p[2] == 1).count()).sum();
    assert_eq!(lit, width * height);
}
