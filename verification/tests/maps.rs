use momostyle::buffer::{GrayBuffer, RgbBuffer};
use momostyle::channels::{max_channel, min_channel};
use momostyle::fastimg::{darken, darken_pixel, pack_rgb_pixels, para_map2};

#[test]
fn darken_subtracts_half_edge() {
    assert_eq!(darken(100, 40), 80);
    assert_eq!(darken(100, 41), 80);
    assert_eq!(darken(10, 255), 0);
    assert_eq!(darken(127, 255), 0);
    assert_eq!(darken(128, 255), 1);
    assert_eq!(darken(200, 0), 200);
    assert_eq!(darken(200, 1), 200);
}

#[test]
fn para_map2_darkens_by_edges() {
    let colour = RgbBuffer::from_raw(2, 1, vec![100, 50, 3, 10, 20, 30]).unwrap();
    let edges = GrayBuffer::from_raw(2, 1, vec![40, 255]).unwrap();
    let out = para_map2(&colour, &edges);
    assert_eq!(out.dimensions(), (2, 1));
    assert_eq!(out.as_raw(), &vec![80, 30, 0, 0, 0, 0]);
    // the input is left as it was
    assert_eq!(colour.as_raw(), &vec![100, 50, 3, 10, 20, 30]);
}

#[test]
fn para_map2_stops_at_shorter_edge_map() {
    let colour = RgbBuffer::from_raw(3, 1, vec![100, 100, 100, 90, 90, 90, 80, 80, 80]).unwrap();
    let edges = GrayBuffer::from_raw(1, 1, vec![20]).unwrap();
    let out = para_map2(&colour, &edges);
    assert_eq!(out.dimensions(), (3, 1));
    assert_eq!(out.as_raw(), &vec![90, 90, 90, 90, 90, 90, 80, 80, 80]);
}

#[test]
fn para_map2_ignores_extra_edge_pixels() {
    let colour = RgbBuffer::from_raw(1, 1, vec![9, 8, 7]).unwrap();
    let edges = GrayBuffer::from_raw(2, 2, vec![4, 200, 200, 200]).unwrap();
    let out = para_map2(&colour, &edges);
    assert_eq!(out.as_raw(), &vec![7, 6, 5]);
}

#[test]
fn para_map2_with_black_edges_keeps_image() {
    let colour = RgbBuffer::from_raw(2, 2, vec![1, 2, 3, 4, 5, 6, 7, 8, 9, 10, 11, 12]).unwrap();
    let edges = GrayBuffer::from_raw(2, 2, vec![0, 1, 0, 1]).unwrap();
    let out = para_map2(&colour, &edges);
    assert_eq!(out.as_raw(), colour.as_raw());
}

#[test]
fn para_map2_never_brightens() {
    let colour = RgbBuffer::from_raw(2, 2, vec![0, 255, 17, 4, 5, 6, 200, 8, 9, 10, 11, 12]).unwrap();
    let edges = GrayBuffer::from_raw(2, 2, vec![13, 255, 2, 99]).unwrap();
    let out = para_map2(&colour, &edges);
    for (a, b) in out.as_raw().iter().zip(colour.as_raw().iter()) {
        assert!(a <= b);
    }
}

#[test]
fn pack_rgb_pixels_row_major() {
    let out = pack_rgb_pixels(2, 2, &vec![[1, 2, 3], [4, 5, 6], [7, 8, 9], [10, 11, 12]]);
    assert_eq!(out.dimensions(), (2, 2));
    assert_eq!(out.as_raw(), &vec![1, 2, 3, 4, 5, 6, 7, 8, 9, 10, 11, 12]);
}

#[test]
fn pack_rgb_pixels_fills_missing_with_black() {
    let out = pack_rgb_pixels(2, 2, &vec![[1, 2, 3]]);
    assert_eq!(out.as_raw(), &vec![1, 2, 3, 0, 0, 0, 0, 0, 0, 0, 0, 0]);
    let empty = pack_rgb_pixels(0, 3, &vec![]);
    assert_eq!(empty.dimensions(), (0, 3));
    assert_eq!(empty.as_raw(), &Vec::<u8>::new());
}

#[test]
fn channel_extremes() {
    assert_eq!(max_channel(&[10, 200, 30]), 200);
    assert_eq!(min_channel(&[10, 200, 30]), 10);
    assert_eq!(max_channel(&[5, 5, 9]), 9);
    assert_eq!(min_channel(&[5, 5, 9]), 5);
    assert_eq!(max_channel(&[250, 1, 250]), 250);
    assert_eq!(min_channel(&[250, 1, 250]), 1);
    assert_eq!(max_channel(&[7, 7, 7]), 7);
    assert_eq!(min_channel(&[7, 7, 7]), 7);
    assert_eq!(max_channel(&[0, 0, 255, 99]), 255);
}

#[test]
fn darken_pixel_reads_its_own_samples() {
    let colour = vec![10, 20, 30, 40, 50, 60];
    let edges = vec![100, 30];
    assert_eq!(darken_pixel(&colour, &edges, 0), [0, 0, 0]);
    assert_eq!(darken_pixel(&colour, &edges, 1), [25, 35, 45]);
}
