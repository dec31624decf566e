use game_of_life::grid::LifeError;
use game_of_life::raster::{create_pixel_buffer, try_create_pixel_buffer};

const B: u32 = 0x0033_3333;
const W: u32 = 0x00FF_FFFF;
const K: u32 = 0x0000_0000;

#[test]
fn buffer_length_is_window_area() {
    let grid = vec![vec![true, false], vec![false, true]];
    assert_eq!(create_pixel_buffer(&grid, 4, 4).len(), 16);
    assert_eq!(create_pixel_buffer(&grid, 10, 6).len(), 60);
    assert_eq!(create_pixel_buffer(&grid, 5, 7).len(), 35);
    // a window smaller than the grid paints nothing but keeps its area
    assert_eq!(create_pixel_buffer(&grid, 1, 1).len(), 1);
    assert_eq!(create_pixel_buffer(&grid, 0, 9).len(), 0);
}

#[test]
fn checkerboard_two_by_two_window_four_by_four() {
    let grid = vec![vec![true, false], vec![false, true]];
    let buffer = create_pixel_buffer(&grid, 4, 4);
    let expected = vec![
        B, B, B, B, // py == 0 of the top blocks: all border
        B, W, B, K, // interior pixels of (0,0) alive and (0,1) dead
        B, B, B, B, // py == 0 of the bottom blocks: all border
        B, K, B, W, // interior pixels of (1,0) dead and (1,1) alive
    ];
    assert_eq!(buffer, expected);
}

#[test]
fn block_origins_are_border_colored() {
    let grid = vec![
        vec![true, true, false],
        vec![false, true, true],
        vec![true, false, true],
    ];
    let (ww, wh) = (9usize, 9usize);
    let buffer = create_pixel_buffer(&grid, ww, wh);
    let (cw, ch) = (ww / 3, wh / 3);
    for y in 0..3 {
        for x in 0..3 {
            let origin = (y * ch) * ww + x * cw;
            assert_eq!(buffer[origin], B);
        }
    }
}

#[test]
fn residual_strip_stays_black() {
    let grid = vec![vec![true, true], vec![true, true]];
    let buffer = create_pixel_buffer(&grid, 5, 5);
    // cell blocks are 2x2, so pixel column 4 and pixel row 4 are never painted
    for r in 0..5 {
        assert_eq!(buffer[r * 5 + 4], K);
    }
    for c in 0..5 {
        assert_eq!(buffer[4 * 5 + c], K);
    }
    // while the painted 4x4 area of an all-alive grid has no black pixel
    for r in 0..4 {
        for c in 0..4 {
            assert_ne!(buffer[r * 5 + c], K);
        }
    }
}

#[test]
fn checked_rasterize_rejects_bad_grids() {
    assert_eq!(
        try_create_pixel_buffer(&Vec::new(), 4, 4),
        Err(LifeError::InvalidDimension)
    );
    assert_eq!(
        try_create_pixel_buffer(&vec![Vec::new()], 4, 4),
        Err(LifeError::InvalidDimension)
    );
    assert_eq!(
        try_create_pixel_buffer(&vec![vec![true], vec![true, false]], 4, 4),
        Err(LifeError::ShapeMismatch)
    );
    let grid = vec![vec![true, false], vec![false, true]];
    let buffer = try_create_pixel_buffer(&grid, 4, 4).unwrap();
    assert_eq!(buffer, create_pixel_buffer(&grid, 4, 4));
}

#[test]
fn single_cell_block_is_all_border() {
    // with 1x1 blocks every pixel has local offset (0, 0)
    let grid = vec![vec![true, false], vec![false, true]];
    let buffer = create_pixel_buffer(&grid, 2, 2);
    assert_eq!(buffer, vec![B, B, B, B]);
}
