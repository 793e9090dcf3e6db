use raytracer::tiles::{bounded_tilesize, raster_order, spiral_order, tile_at, tile_channels, Tile, TILESIZE};
use raytracer::vecs::Vec3;

fn t(a: usize, b: usize, w: usize, h: usize) -> Tile {
    Tile { x: a * TILESIZE, y: b * TILESIZE, w, h }
}

#[test]
fn bounded_tilesize_clips_last_tile() {
    assert_eq!(bounded_tilesize(0, 50), 20);
    assert_eq!(bounded_tilesize(1, 50), 20);
    assert_eq!(bounded_tilesize(2, 50), 10);
    assert_eq!(bounded_tilesize(1, 40), 20);
    assert_eq!(bounded_tilesize(0, 1), 1);
}

#[test]
fn tile_at_inside_and_outside() {
    assert_eq!(tile_at(50, 30, 2, 1), Some(Tile { x: 40, y: 20, w: 10, h: 10 }));
    assert_eq!(tile_at(50, 30, 0, 0), Some(Tile { x: 0, y: 0, w: 20, h: 20 }));
    assert_eq!(tile_at(50, 30, 3, 0), None);
    assert_eq!(tile_at(50, 30, 0, 2), None);
    assert_eq!(tile_at(50, 30, -1, 0), None);
    assert_eq!(tile_at(50, 30, 0, -1), None);
    assert_eq!(tile_at(0, 30, 0, 0), None);
}

#[test]
fn spiral_of_empty_image_is_empty() {
    assert!(spiral_order(0, 10).is_empty());
    assert!(spiral_order(10, 0).is_empty());
}

#[test]
fn spiral_of_single_pixel() {
    assert_eq!(spiral_order(1, 1), vec![Tile { x: 0, y: 0, w: 1, h: 1 }]);
}

#[test]
fn spiral_order_three_by_two_tiles() {
    let expected = vec![
        t(1, 0, 20, 20),
        t(1, 1, 20, 10),
        t(0, 1, 20, 10),
        t(0, 0, 20, 20),
        t(2, 0, 10, 20),
        t(2, 1, 10, 10),
    ];
    assert_eq!(spiral_order(50, 30), expected);
}

#[test]
fn spiral_covers_every_tile_once() {
    for &(w, h) in [(100usize, 70usize), (37, 201), (400, 20), (21, 21), (1, 95)].iter() {
        let tiles = spiral_order(w, h);
        let across = (w - 1) / TILESIZE + 1;
        let down = (h - 1) / TILESIZE + 1;
        assert_eq!(tiles.len(), across * down);
        let mut seen = vec![false; across * down];
        let mut pixels = 0;
        for tile in tiles.iter() {
            let k = (tile.y / TILESIZE) * across + tile.x / TILESIZE;
            assert!(!seen[k]);
            seen[k] = true;
            assert!(tile.x + tile.w <= w && tile.y + tile.h <= h);
            pixels += tile.w * tile.h;
        }
        assert_eq!(pixels, w * h);
    }
}

#[test]
fn tile_channels_row_major_rgb() {
    // A 3 by 2 image whose pixel (col, row) is (10*row + col, 100 + col, 200 + row).
    let mut image = Vec::new();
    for row in 0..2u32 {
        for col in 0..3u32 {
            image.push(Vec3 { x: 10 * row + col, y: 100 + col, z: 200 + row });
        }
    }
    let tile = Tile { x: 1, y: 0, w: 2, h: 2 };
    assert_eq!(
        tile_channels(&image, 3, tile),
        vec![1, 101, 200, 2, 102, 200, 11, 101, 201, 12, 102, 201]
    );
    assert!(tile_channels(&image, 3, Tile { x: 0, y: 0, w: 0, h: 2 }).is_empty());
}

#[test]
fn raster_order_row_major() {
    let expected = vec![
        t(0, 0, 20, 20),
        t(1, 0, 20, 20),
        t(2, 0, 10, 20),
        t(0, 1, 20, 10),
        t(1, 1, 20, 10),
        t(2, 1, 10, 10),
    ];
    assert_eq!(raster_order(50, 30), expected);
    assert_eq!(raster_order(20, 20), vec![t(0, 0, 20, 20)]);
    assert!(raster_order(0, 5).is_empty());
}

#[test]
fn raster_and_spiral_hold_the_same_tiles() {
    let mut r = raster_order(130, 47);
    let mut s = spiral_order(130, 47);
    let key = |t: &Tile| (t.y, t.x);
    r.sort_by_key(key);
    s.sort_by_key(key);
    assert_eq!(r, s);
}
