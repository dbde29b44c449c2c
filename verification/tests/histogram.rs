//! The histogram buffer: projection, increments, merging, tone mapping and
//! the raw-dump framing.

use buddhabrot::buffer::{Buffer, Cell};
use buddhabrot::complex::Complex;
use buddhabrot::tone::{color_map_buffer, gain};

const S: i64 = 16777216;

fn square_frame() -> Buffer {
    // A 16 x 16 canvas centered at the origin with zoom 1/4: the visible
    // frame covers the whole sampling domain [-2, 2) x [-2, 2).
    Buffer::new(16, 16, Complex::zero(), S / 4)
}

#[test]
fn new_buffer_is_zeroed() {
    let b = square_frame();
    assert_eq!(b.buffer.len(), 256);
    assert!(b.buffer.iter().all(|c| c.r == 0 && c.g == 0 && c.b == 0));
}

#[test]
fn origin_projects_to_center() {
    let b = Buffer::new(512, 512, Complex::from_parts(-6710886, 0), 5872025);
    assert_eq!(b.project(Complex::from_parts(-6710886, 0)), (256, 256));
}

#[test]
fn origin_projects_with_aspect() {
    // width 640, height 480: x = trunc(0.5 * (4/3) * 480) = 319 after the
    // Q24 truncation of the aspect offset, y = 240.
    let b = Buffer::new(640, 480, Complex::zero(), 5872025);
    assert_eq!(b.project(Complex::zero()), (319, 240));
}

#[test]
fn projection_examples() {
    let b = square_frame();
    assert_eq!(b.project(Complex::from_parts(S / 2, S / 2)), (10, 10));
    // A point past the right edge projects outside the canvas.
    assert_eq!(b.project(Complex::from_parts(3 * S, 0)), (20, 8));
    // project saturates a negative coordinate to column 0 (the behavior of
    // a float-to-u32 conversion); the frame test below still rejects such
    // a point.
    assert_eq!(b.project(Complex::from_parts(-3 * S, 0)), (0, 8));
}

#[test]
fn increment_in_frame() {
    let mut b = square_frame();
    let p = Complex::from_parts(S / 2, S / 2);
    assert!(b.increment(0, p));
    assert!(b.increment(0, p));
    assert!(b.increment(2, p));
    let cell = b.buffer[10 + 10 * 16];
    assert_eq!(cell.r, 2);
    assert_eq!(cell.g, 0);
    assert_eq!(cell.b, 1);
}

#[test]
fn increment_out_of_frame_changes_nothing() {
    let mut b = square_frame();
    assert!(!b.increment(0, Complex::from_parts(3 * S, 0)));
    assert!(b.buffer.iter().all(|c| c.r == 0 && c.g == 0 && c.b == 0));
}

#[test]
fn increment_left_of_frame_changes_nothing() {
    // A point whose projection is negative lies outside the canvas: it is
    // rejected, not folded onto the edge pixels.
    let mut b = square_frame();
    assert!(!b.increment(0, Complex::from_parts(-3 * S, 0)));
    assert!(!b.increment(1, Complex::from_parts(0, -3 * S)));
    assert!(b.buffer.iter().all(|c| c.r == 0 && c.g == 0 && c.b == 0));
}

#[test]
fn increment_bad_channel_changes_nothing() {
    let mut b = square_frame();
    assert!(!b.increment(3, Complex::zero()));
    assert!(b.buffer.iter().all(|c| c.r == 0 && c.g == 0 && c.b == 0));
}

#[test]
fn check_matches_increment() {
    let b = square_frame();
    assert!(b.check(Complex::from_parts(S / 2, S / 2)));
    assert!(!b.check(Complex::from_parts(3 * S, 0)));
    assert!(!b.check(Complex::from_parts(-3 * S, 0)));
}

#[test]
fn merge_sums_cellwise() {
    let mut a = Buffer::new(2, 1, Complex::zero(), S);
    let mut b = Buffer::new(2, 1, Complex::zero(), S);
    a.buffer[0] = Cell { r: 1, g: 2, b: 3 };
    a.buffer[1] = Cell { r: 10, g: 0, b: 0 };
    b.buffer[0] = Cell { r: 5, g: 5, b: 5 };
    b.buffer[1] = Cell { r: 0, g: 7, b: 1 };
    a.merge(&b);
    assert_eq!(a.buffer[0], Cell { r: 6, g: 7, b: 8 });
    assert_eq!(a.buffer[1], Cell { r: 10, g: 7, b: 1 });
}

#[test]
fn merge_saturates() {
    let mut a = Buffer::new(1, 1, Complex::zero(), S);
    let mut b = Buffer::new(1, 1, Complex::zero(), S);
    a.buffer[0] = Cell { r: u32::MAX - 1, g: 0, b: 4 };
    b.buffer[0] = Cell { r: 5, g: 1, b: 4 };
    a.merge(&b);
    assert_eq!(a.buffer[0], Cell { r: u32::MAX, g: 1, b: 8 });
}

#[test]
fn merge_is_commutative() {
    let mut a = Buffer::new(2, 1, Complex::zero(), S);
    let mut b = Buffer::new(2, 1, Complex::zero(), S);
    a.buffer[0] = Cell { r: 1, g: 2, b: 3 };
    a.buffer[1] = Cell { r: u32::MAX, g: 0, b: 9 };
    b.buffer[0] = Cell { r: 4, g: 4, b: 4 };
    b.buffer[1] = Cell { r: 8, g: 8, b: 8 };
    let mut ab = Buffer::new(2, 1, Complex::zero(), S);
    ab.merge(&a);
    ab.merge(&b);
    let mut ba = Buffer::new(2, 1, Complex::zero(), S);
    ba.merge(&b);
    ba.merge(&a);
    assert_eq!(ab.buffer, ba.buffer);
}

#[test]
fn gain_values() {
    assert_eq!(gain(0, 0), 0);
    assert_eq!(gain(0, 7), 0);
    assert_eq!(gain(1, 4), 204);
    assert_eq!(gain(1, 10), 152);
    assert_eq!(gain(2, 4), 255);
    assert_eq!(gain(4, 4), 255);
    assert_eq!(gain(3, 1000), 49);
}

#[test]
fn gain_is_monotone_in_samples() {
    let m = 1000;
    let mut last = 0u8;
    for n in 0..=m {
        let v = gain(n, m);
        assert!(v >= last);
        last = v;
    }
}

#[test]
fn tone_map_full_resolution() {
    let cells = vec![
        Cell { r: 1, g: 0, b: 10 },
        Cell { r: 4, g: 0, b: 10 },
        Cell { r: 2, g: 0, b: 10 },
        Cell { r: 0, g: 0, b: 10 },
    ];
    let mut out = vec![0u8; 12];
    color_map_buffer(2, 2, 2, 2, &cells, &mut out);
    // red: counts 1,4,2,0 against max 4; green: all-zero channel stays
    // black; blue: every cell at its own maximum.
    assert_eq!(out, vec![204, 0, 255, 255, 0, 255, 255, 0, 255, 0, 0, 255]);
}

#[test]
fn tone_map_downsamples_by_stride() {
    let cells = vec![
        Cell { r: 1, g: 0, b: 0 },
        Cell { r: 4, g: 0, b: 0 },
        Cell { r: 2, g: 0, b: 0 },
        Cell { r: 0, g: 0, b: 0 },
    ];
    let mut out = vec![9u8; 3];
    color_map_buffer(2, 2, 1, 1, &cells, &mut out);
    // Stride 2 on both axes samples only the top-left cell.
    assert_eq!(out, vec![204, 0, 0]);
}

#[test]
fn tone_map_all_zero_is_black() {
    let cells = vec![Cell { r: 0, g: 0, b: 0 }; 4];
    let mut out = vec![7u8; 12];
    color_map_buffer(2, 2, 2, 2, &cells, &mut out);
    assert!(out.iter().all(|&v| v == 0));
}

#[test]
fn raw_bytes_little_endian() {
    let mut b = Buffer::new(1, 1, Complex::zero(), S);
    b.buffer[0] = Cell { r: 1, g: 258, b: 0x01020304 };
    let bytes = b.to_raw_bytes();
    assert_eq!(
        bytes,
        vec![1, 0, 0, 0, 1, 0, 0, 0, 1, 0, 0, 0, 2, 1, 0, 0, 4, 3, 2, 1]
    );
}
