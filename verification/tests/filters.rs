use momostyle::buffer::{GrayBuffer, RgbBuffer};
use momostyle::fast3x3::{clamp, flt3x3, flt3x3_checked, padding, padding1d, response_at};

const LAPL: [i32; 9] = [1, 1, 1, 1, -8, 1, 1, 1, 1];

fn gray(w: u32, h: u32, v: Vec<u8>) -> GrayBuffer {
    GrayBuffer::from_raw(w, h, v).unwrap()
}

#[test]
fn clamp_limits_to_sample_range() {
    assert_eq!(clamp(-5), 0);
    assert_eq!(clamp(i32::MIN), 0);
    assert_eq!(clamp(0), 0);
    assert_eq!(clamp(17), 17);
    assert_eq!(clamp(255), 255);
    assert_eq!(clamp(300), 255);
    assert_eq!(clamp(i32::MAX), 255);
}

#[test]
fn padding1d_puts_zero_rows_around_image() {
    let img = gray(2, 2, vec![1, 2, 3, 4]);
    assert_eq!(padding1d(&img), vec![0, 0, 0, 1, 2, 3, 4, 0, 0, 0]);
    let img = gray(3, 3, vec![1, 2, 3, 4, 5, 6, 7, 8, 9]);
    assert_eq!(
        padding1d(&img),
        vec![0, 0, 0, 0, 1, 2, 3, 4, 5, 6, 7, 8, 9, 0, 0, 0, 0]
    );
}

#[test]
fn padding1d_of_empty_image() {
    let img = gray(0, 5, vec![]);
    assert_eq!(padding1d(&img), vec![0, 0]);
    let img = gray(3, 0, vec![]);
    assert_eq!(padding1d(&img), vec![0, 0, 0, 0, 0, 0, 0, 0]);
}

#[test]
fn padding_frames_image_with_zero_border() {
    let img = gray(2, 1, vec![5, 6]);
    let out = padding(&img);
    assert_eq!(out.dimensions(), (4, 3));
    assert_eq!(
        out.as_raw(),
        &vec![0, 0, 0, 0, 0, 5, 6, 0, 0, 0, 0, 0]
    );
}

#[test]
fn padding_of_empty_image_is_all_border() {
    let img = gray(0, 0, vec![]);
    let out = padding(&img);
    assert_eq!(out.dimensions(), (2, 2));
    assert_eq!(out.as_raw(), &vec![0, 0, 0, 0]);
}

#[test]
fn flt3x3_laplacian_on_ramp() {
    let img = gray(3, 3, vec![1, 2, 3, 4, 5, 6, 7, 8, 9]);
    let out = flt3x3(&img, &LAPL);
    assert_eq!(out.dimensions(), (3, 3));
    assert_eq!(out.as_raw(), &vec![6, 3, 1, 0, 0, 0, 0, 0, 0]);
}

#[test]
fn flt3x3_laplacian_on_flat_image_is_black() {
    let img = gray(3, 3, vec![10; 9]);
    let out = flt3x3(&img, &LAPL);
    assert_eq!(out.as_raw(), &vec![0; 9]);
}

#[test]
fn flt3x3_laplacian_marks_isolated_dot() {
    let img = gray(3, 3, vec![0, 0, 0, 0, 200, 0, 0, 0, 0]);
    let out = flt3x3(&img, &LAPL);
    assert_eq!(out.as_raw(), &vec![200, 200, 200, 200, 0, 200, 200, 200, 200]);
}

#[test]
fn flt3x3_wraps_neighbourhood_at_row_ends() {
    // centre weight 2, bottom-right weight -1: the right neighbour of the
    // last pixel of a row is the first pixel of the next row
    let img = gray(2, 2, vec![9, 1, 4, 16]);
    let out = flt3x3(&img, &[0, 0, 0, 0, 2, 0, 0, 0, -1]);
    assert_eq!(out.as_raw(), &vec![2, 2, 8, 32]);
}

#[test]
fn flt3x3_gaussian_saturates() {
    let img = gray(4, 3, vec![100, 50, 30, 40, 60, 90, 10, 20, 250, 0, 5, 7]);
    let out = flt3x3(&img, &[1, 2, 1, 2, 4, 2, 1, 2, 1]);
    assert_eq!(out.dimensions(), (4, 3));
    assert_eq!(
        out.as_raw(),
        &vec![255, 255, 255, 255, 255, 255, 255, 255, 255, 255, 164, 255]
    );
}

#[test]
fn flt3x3_identity_kernel_gives_image_back() {
    let samples = vec![3, 141, 59, 26, 5, 35, 89, 79, 32, 38, 46, 26];
    let img = gray(4, 3, samples.clone());
    let out = flt3x3(&img, &[0, 0, 0, 0, 1, 0, 0, 0, 0]);
    assert_eq!(out.as_raw(), &samples);
}

#[test]
fn flt3x3_zero_kernel_gives_black() {
    let img = gray(3, 2, vec![7, 8, 9, 250, 251, 252]);
    let out = flt3x3(&img, &[0; 9]);
    assert_eq!(out.as_raw(), &vec![0; 6]);
}

#[test]
fn flt3x3_reads_only_first_nine_weights() {
    let img = gray(3, 3, vec![1, 2, 3, 4, 5, 6, 7, 8, 9]);
    let long = [1, 1, 1, 1, -8, 1, 1, 1, 1, 1000, -1000];
    assert_eq!(flt3x3(&img, &long).as_raw(), &vec![6, 3, 1, 0, 0, 0, 0, 0, 0]);
}

#[test]
fn flt3x3_checked_reports_overflow() {
    let img = gray(2, 2, vec![255, 255, 255, 255]);
    assert!(flt3x3_checked(&img, &[i32::MAX, 0, 0, 0, 0, 0, 0, 0, 0]).is_none());
    assert!(flt3x3_checked(&img, &[0, 0, 0, 0, i32::MAX / 2, i32::MAX / 2, 0, 0, 0]).is_none());
    let ok = flt3x3_checked(&img, &LAPL).unwrap();
    assert_eq!(ok.as_raw(), &vec![0, 0, 0, 0]);
}

#[test]
fn flt3x3_checked_accepts_large_weight_on_black_image() {
    let img = gray(2, 2, vec![0, 0, 0, 0]);
    let out = flt3x3_checked(&img, &[i32::MAX, i32::MIN, 0, 0, 0, 0, 0, 0, 0]).unwrap();
    assert_eq!(out.as_raw(), &vec![0, 0, 0, 0]);
}

#[test]
fn response_at_sums_neighbourhood() {
    let padded = vec![0, 0, 0, 0, 1, 2, 3, 4, 5, 6, 7, 8, 9, 0, 0, 0, 0];
    assert_eq!(response_at(&padded, 3, &LAPL, 4), Some(0));
    assert_eq!(response_at(&padded, 3, &LAPL, 0), Some(6));
    assert_eq!(response_at(&padded, 3, &[1, 1, 1, 1, 1, 1, 1, 1, 1], 4), Some(45));
    assert_eq!(response_at(&padded, 3, &[i32::MAX, 0, 0, 0, 5, 0, 0, 0, 0], 4), None);
}

#[test]
fn gray_buffer_from_raw_checks_length() {
    assert!(GrayBuffer::from_raw(2, 2, vec![1, 2, 3]).is_none());
    let img = GrayBuffer::from_raw(2, 1, vec![1, 2, 3]).unwrap();
    assert_eq!(img.dimensions(), (2, 1));
    assert_eq!(img.as_raw(), &vec![1, 2, 3]);
}

#[test]
fn gray_buffer_new_and_put_pixel() {
    let mut img = GrayBuffer::new(3, 2);
    assert_eq!(img.as_raw(), &vec![0; 6]);
    img.put_pixel(2, 1, 77);
    img.put_pixel(0, 1, 5);
    assert_eq!(img.as_raw(), &vec![0, 0, 0, 5, 0, 77]);
    assert_eq!(img.dimensions(), (3, 2));
}

#[test]
fn rgb_buffer_put_pixel_and_duplicate() {
    assert!(RgbBuffer::from_raw(1, 1, vec![1, 2]).is_none());
    let mut img = RgbBuffer::from_raw(2, 1, vec![1, 2, 3, 4, 5, 6]).unwrap();
    let copy = img.duplicate();
    img.put_pixel(1, 0, [7, 8, 9]);
    assert_eq!(img.as_raw(), &vec![1, 2, 3, 7, 8, 9]);
    assert_eq!(copy.as_raw(), &vec![1, 2, 3, 4, 5, 6]);
    assert_eq!(copy.dimensions(), (2, 1));
}

#[test]
fn flt3x3_inner_columns_match_filter_over_framed_image() {
    let (w, h) = (5u32, 4u32);
    let samples: Vec<u8> = (0..20u8).map(|v| (v * 7) % 23).collect();
    let kernel = [1, 0, 2, -1, 1, 0, 3, -2, 1];
    let img = gray(w, h, samples);
    let out = flt3x3(&img, &kernel);
    let framed = padding(&img);
    let fr = framed.as_raw();
    let fw = (w + 2) as usize;
    for y in 0..h as usize {
        for x in 1..(w as usize - 1) {
            let mut t: i32 = 0;
            for dy in 0..3 {
                for dx in 0..3 {
                    t += fr[(y + dy) * fw + x + dx] as i32 * kernel[dx + 3 * dy];
                }
            }
            assert_eq!(out.as_raw()[y * w as usize + x] as i32, clamp(t));
        }
    }
}
