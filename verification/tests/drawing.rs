use image::{Rgb, RgbImage};
use multiscale_detect::detection::draw_detections;
use multiscale_detect::detection::preprocessing::preprocess_image;
use multiscale_detect::drawing::canvas::Canvas;
use multiscale_detect::drawing::rectangle::draw_rectangle;

const RED: Rgb<u8> = Rgb([255, 0, 0]);

fn shaded(width: u32, height: u32) -> RgbImage {
    RgbImage::from_fn(width, height, |x, y| {
        Rgb([(x % 200) as u8, (y % 200) as u8, ((x + y) % 200) as u8])
    })
}

fn canvas_of(image: &RgbImage) -> Canvas {
    Canvas::from_raw(image.width(), image.height(), image.as_raw().clone()).unwrap()
}

fn image_of(canvas: Canvas, width: u32, height: u32) -> RgbImage {
    RgbImage::from_raw(width, height, canvas.into_raw()).unwrap()
}

fn on_outline(x: u32, y: u32, corners: [u32; 4]) -> bool {
    let [x1, y1, x2, y2] = corners.map(u64::from);
    let (x, y) = (u64::from(x), u64::from(y));
    let rows = x1 <= x && x <= x2 && ((y1 <= y && y < y1 + 3) || (y2 <= y && y < y2 + 3));
    let columns = y1 <= y && y <= y2 && ((x1 <= x && x < x1 + 3) || (x2 <= x && x < x2 + 3));
    rows || columns
}

fn check_outlines(before: &RgbImage, after: &RgbImage, boxes: &[[u32; 4]]) {
    assert_eq!(before.dimensions(), after.dimensions());
    for (x, y, pixel) in after.enumerate_pixels() {
        if boxes.iter().any(|corners| on_outline(x, y, *corners)) {
            assert_eq!(*pixel, RED, "pixel ({x}, {y})");
        } else {
            assert_eq!(pixel, before.get_pixel(x, y), "pixel ({x}, {y})");
        }
    }
}

fn draw_and_check(width: u32, height: u32, corners: [u32; 4]) -> RgbImage {
    let before = shaded(width, height);
    let mut canvas = canvas_of(&before);
    draw_rectangle(&mut canvas, corners[0], corners[1], corners[2], corners[3]);
    let after = image_of(canvas, width, height);
    check_outlines(&before, &after, &[corners]);
    after
}

#[test]
fn canvas_keeps_size_and_bytes() {
    let bytes: Vec<u8> = (0..24).collect();
    let canvas = Canvas::from_raw(4, 2, bytes.clone()).unwrap();
    assert_eq!(canvas.width(), 4);
    assert_eq!(canvas.height(), 2);
    assert_eq!(canvas.as_raw(), &bytes);
    assert_eq!(canvas.into_raw(), bytes);
}

#[test]
fn canvas_needs_three_bytes_a_pixel() {
    assert!(Canvas::from_raw(4, 2, vec![0; 23]).is_none());
    assert!(Canvas::from_raw(4, 2, vec![0; 24]).is_some());
    assert!(Canvas::from_raw(4, 2, vec![0; 30]).is_some());
    assert!(Canvas::from_raw(0, 0, Vec::new()).is_some());
    assert!(Canvas::from_raw(0, 7, Vec::new()).is_some());
    assert!(Canvas::from_raw(1, 1, Vec::new()).is_none());
    assert!(Canvas::from_raw(u32::MAX, u32::MAX, vec![0; 16]).is_none());
}

#[test]
fn rectangle_inside_the_canvas() {
    let after = draw_and_check(20, 20, [4, 5, 12, 13]);
    assert_eq!(*after.get_pixel(4, 5), RED);
    assert_eq!(*after.get_pixel(12, 7), RED);
    assert_eq!(*after.get_pixel(8, 15), RED);
    assert_eq!(*after.get_pixel(14, 13), RED);
    assert_eq!(*after.get_pixel(6, 7), RED);
    assert_ne!(*after.get_pixel(7, 8), RED);
    assert_ne!(*after.get_pixel(14, 15), RED);
    assert_ne!(*after.get_pixel(3, 5), RED);
    assert_ne!(*after.get_pixel(15, 9), RED);
}

#[test]
fn rectangle_of_one_pixel() {
    let after = draw_and_check(10, 10, [4, 4, 4, 4]);
    let red = after.pixels().filter(|pixel| **pixel == RED).count();
    assert_eq!(red, 5);
    assert_eq!(*after.get_pixel(4, 6), RED);
    assert_eq!(*after.get_pixel(6, 4), RED);
    assert_ne!(*after.get_pixel(5, 5), RED);
}

#[test]
fn rectangle_is_cut_at_the_border() {
    draw_and_check(16, 12, [10, 8, 30, 40]);
    draw_and_check(16, 12, [0, 0, 15, 11]);
    draw_and_check(16, 12, [14, 10, 15, 11]);
    draw_and_check(16, 12, [3, 2, 1000, 3]);
}

#[test]
fn rectangle_outside_the_canvas_changes_nothing() {
    let before = shaded(16, 12);
    assert_eq!(draw_and_check(16, 12, [16, 12, 40, 40]), before);
    assert_eq!(draw_and_check(16, 12, [100, 0, 200, 5]), before);
}

#[test]
fn rectangle_with_corners_in_reverse_has_no_edges_there() {
    let after = draw_and_check(20, 20, [12, 4, 6, 14]);
    assert_eq!(*after.get_pixel(12, 9), RED);
    assert_eq!(*after.get_pixel(8, 9), RED);
    assert_ne!(*after.get_pixel(9, 4), RED);
    let before = shaded(20, 20);
    assert_eq!(draw_and_check(20, 20, [12, 14, 6, 4]), before);
    draw_and_check(20, 20, [4, 14, 12, 6]);
}

#[test]
fn rectangle_at_the_largest_coordinates() {
    let before = shaded(8, 8);
    assert_eq!(draw_and_check(8, 8, [u32::MAX, u32::MAX, u32::MAX, u32::MAX]), before);
    assert_eq!(draw_and_check(8, 8, [u32::MAX - 1, 2, u32::MAX, 5]), before);
    draw_and_check(8, 8, [2, 3, u32::MAX, u32::MAX]);
    draw_and_check(8, 8, [0, 0, u32::MAX, 0]);
}

#[test]
fn rectangle_on_an_empty_canvas() {
    let mut canvas = Canvas::from_raw(0, 0, Vec::new()).unwrap();
    draw_rectangle(&mut canvas, 0, 0, 5, 5);
    assert_eq!(canvas.width(), 0);
    assert!(canvas.into_raw().is_empty());
}

#[test]
fn bytes_behind_the_pixels_stay() {
    let mut bytes = vec![9u8; 4 * 4 * 3 + 6];
    for (k, byte) in bytes.iter_mut().enumerate() {
        *byte = (k % 251) as u8;
    }
    let mut canvas = Canvas::from_raw(4, 4, bytes.clone()).unwrap();
    draw_rectangle(&mut canvas, 0, 0, 3, 3);
    let after = canvas.into_raw();
    assert_eq!(after.len(), bytes.len());
    assert_eq!(after[48..], bytes[48..]);
    assert_eq!(after[..3], [255, 0, 0]);
}

#[test]
fn drawing_twice_is_drawing_once() {
    let before = shaded(30, 30);
    let mut once = canvas_of(&before);
    draw_rectangle(&mut once, 3, 4, 20, 22);
    let mut twice = canvas_of(&before);
    draw_rectangle(&mut twice, 3, 4, 20, 22);
    draw_rectangle(&mut twice, 3, 4, 20, 22);
    assert_eq!(once.into_raw(), twice.into_raw());
}

#[test]
fn every_box_is_drawn() {
    let before = shaded(40, 30);
    let boxes = [[2, 2, 10, 10], [5, 5, 30, 20], [35, 25, 60, 60], [12, 1, 3, 0]];
    let mut canvas = canvas_of(&before);
    draw_detections(&mut canvas, &boxes);
    let after = image_of(canvas, 40, 30);
    check_outlines(&before, &after, &boxes);
    assert_eq!(*after.get_pixel(2, 2), RED);
    assert_eq!(*after.get_pixel(30, 12), RED);
    assert_eq!(*after.get_pixel(36, 25), RED);
}

#[test]
fn no_box_changes_nothing() {
    let before = shaded(9, 7);
    let mut canvas = canvas_of(&before);
    draw_detections(&mut canvas, &[]);
    assert_eq!(image_of(canvas, 9, 7), before);
}

#[test]
fn bytes_are_handed_over_channel_by_channel() {
    let image = shaded(5, 3);
    let input = preprocess_image(&canvas_of(&image));
    assert_eq!(input.len(), 45);
    for channel in 0..3usize {
        for row in 0..3u32 {
            for col in 0..5u32 {
                let at = channel * 15 + (row as usize) * 5 + col as usize;
                assert_eq!(input[at], image.get_pixel(col, row).0[channel]);
            }
        }
    }
}

#[test]
fn two_by_two_image_channel_by_channel() {
    let bytes = vec![1, 2, 3, 4, 5, 6, 7, 8, 9, 10, 11, 12];
    let canvas = Canvas::from_raw(2, 2, bytes).unwrap();
    assert_eq!(preprocess_image(&canvas), vec![1, 4, 7, 10, 2, 5, 8, 11, 3, 6, 9, 12]);
}

#[test]
fn spare_bytes_are_not_handed_over() {
    let bytes = vec![1, 2, 3, 4, 5, 6, 77, 88];
    let canvas = Canvas::from_raw(1, 2, bytes).unwrap();
    assert_eq!(preprocess_image(&canvas), vec![1, 4, 2, 5, 3, 6]);
    let empty = Canvas::from_raw(0, 4, vec![5, 6]).unwrap();
    assert!(preprocess_image(&empty).is_empty());
}

#[test]
fn put_pixel_sets_three_bytes() {
    let before = shaded(6, 4);
    let mut canvas = canvas_of(&before);
    canvas.put_pixel(5, 3, 10, 20, 30);
    canvas.put_pixel(0, 0, 1, 2, 3);
    canvas.put_pixel(2, 1, 255, 0, 0);
    let after = image_of(canvas, 6, 4);
    for (x, y, pixel) in after.enumerate_pixels() {
        match (x, y) {
            (5, 3) => assert_eq!(*pixel, Rgb([10, 20, 30])),
            (0, 0) => assert_eq!(*pixel, Rgb([1, 2, 3])),
            (2, 1) => assert_eq!(*pixel, RED),
            _ => assert_eq!(pixel, before.get_pixel(x, y)),
        }
    }
    assert_eq!(after.as_raw()[3 * (1 * 6 + 2)..][..3], [255, 0, 0]);
}
