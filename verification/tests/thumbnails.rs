//! The image workload: decoding and the nearest-neighbor shrink.

use benchmark::jpeg::{resize_nearest, thumbnail};

#[test]
fn resize_to_one_pixel_takes_the_top_left() {
    let pixels = vec![10, 20, 30, 40];
    let out = resize_nearest(&pixels, 2, 2, 1, 1, 1);
    assert_eq!(out, vec![10]);
}

#[test]
fn resize_to_the_same_size_is_identity() {
    let pixels = vec![1, 2, 3, 4, 5, 6, 7, 8, 9];
    let out = resize_nearest(&pixels, 3, 3, 1, 3, 3);
    assert_eq!(out, pixels);
}

#[test]
fn resize_repeats_pixels_when_growing() {
    // Growing makes both scales zero, so every output pixel is the source's
    // top-left pixel.
    let pixels = vec![5, 6, 7, 8];
    let out = resize_nearest(&pixels, 2, 2, 1, 3, 3);
    assert_eq!(out, vec![5; 9]);
}

#[test]
fn resize_keeps_channels_together() {
    // One row of two RGB pixels, shrunk to one pixel: all three channels of
    // the first pixel survive.
    let pixels = vec![1, 2, 3, 4, 5, 6];
    let out = resize_nearest(&pixels, 2, 1, 3, 1, 1);
    assert_eq!(out, vec![1, 2, 3]);
}

#[test]
fn resize_halves_a_grid() {
    // A 4x2 single-channel image shrunk to 2x1: columns 0 and 2 of row 0.
    let pixels = vec![10, 11, 12, 13, 20, 21, 22, 23];
    let out = resize_nearest(&pixels, 4, 2, 1, 2, 1);
    assert_eq!(out, vec![10, 12]);
}

#[test]
fn thumbnail_refuses_bytes_that_are_no_jpeg() {
    assert!(thumbnail(&vec![]).is_none());
    assert!(thumbnail(&vec![1, 2, 3, 4]).is_none());
}
