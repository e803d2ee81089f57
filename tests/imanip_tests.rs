use imanip::image::{ColorType, Image, ImageChannel};
use imanip::image_ops::{
    complex_gaussian_blur, downscale_image, identity_image, resample_down, sharpen_image,
    simple_gaussian_blur,
};
use imanip::kernels::{
    gaussian_simple, gaussian_x, gaussian_y, identity1, identity2, identity3, laplacian, Kernel,
};
use imanip::{add_images, apply_filter, clamp_reflect, get_image_pixel, subtract_images};

fn plane(width: u32, height: u32, bytes: Vec<u8>) -> ImageChannel {
    ImageChannel::new(width, height, bytes)
}

fn gray_rgba(width: u32, height: u32, value: u8) -> Image {
    let data = vec![value; (width * height * 4) as usize];
    Image::new(width, height, ColorType::Rgba, &data)
}

#[test]
fn reflect_at_boundaries() {
    assert_eq!(clamp_reflect(-1, 0, 10), 1);
    assert_eq!(clamp_reflect(10, 0, 10), 9);
    assert_eq!(clamp_reflect(5, 0, 10), 5);
    assert_eq!(clamp_reflect(-3, 0, 10), 3);
    assert_eq!(clamp_reflect(12, 0, 10), 7);
    assert_eq!(clamp_reflect(0, 0, 10), 0);
    assert_eq!(clamp_reflect(9, 0, 10), 9);
}

#[test]
fn pixel_read_reflects_both_axes() {
    // 3 x 2 grid: row 0 = 1 2 3, row 1 = 4 5 6
    let bytes = [1u8, 2, 3, 4, 5, 6];
    assert_eq!(get_image_pixel(&bytes, 3, 0, 0), 1);
    assert_eq!(get_image_pixel(&bytes, 3, 2, 1), 6);
    assert_eq!(get_image_pixel(&bytes, 3, -1, 0), 2);
    assert_eq!(get_image_pixel(&bytes, 3, 3, 0), 3);
    assert_eq!(get_image_pixel(&bytes, 3, 0, -1), 4);
    assert_eq!(get_image_pixel(&bytes, 3, 1, 2), 5);
}

#[test]
fn saturating_subtract_stops_at_zero() {
    assert_eq!(subtract_images(&[5], &[10]), vec![0]);
    assert_eq!(subtract_images(&[10, 200, 7], &[5, 100, 7]), vec![5, 100, 0]);
}

#[test]
fn saturating_add_stops_at_255() {
    assert_eq!(add_images(&[250], &[10]), vec![255]);
    assert_eq!(add_images(&[1, 2, 3], &[4, 5, 6]), vec![5, 7, 9]);
}

#[test]
fn byte_arithmetic_uses_shorter_length() {
    assert_eq!(subtract_images(&[9, 9, 9], &[1]), vec![8]);
    assert_eq!(add_images(&[1], &[1, 2, 3]), vec![2]);
    assert_eq!(subtract_images(&[], &[1, 2]), Vec::<u8>::new());
}

#[test]
fn identity_kernel_leaves_plane_unchanged() {
    let bytes: Vec<u8> = (0..20u8).map(|b| b.wrapping_mul(37)).collect();
    let p = plane(5, 4, bytes.clone());
    let r = apply_filter(&p, &identity1());
    assert_eq!(r.bytes, bytes);
    assert_eq!((r.width, r.height), (5, 4));
    let r2 = apply_filter(&p, &identity2());
    assert_eq!(r2.bytes, bytes);
    let r3 = apply_filter(&p, &identity3());
    assert_eq!(r3.bytes, bytes);
}

#[test]
fn every_catalog_kernel_keeps_dimensions() {
    let p = plane(6, 5, (0..30u8).collect());
    let kernels: Vec<Kernel> = vec![
        identity1(),
        identity2(),
        identity3(),
        gaussian_simple(),
        gaussian_x(),
        gaussian_y(),
        laplacian(),
    ];
    for k in &kernels {
        let r = apply_filter(&p, k);
        assert_eq!(r.width, 6);
        assert_eq!(r.height, 5);
        assert_eq!(r.bytes.len(), 30);
    }
}

#[test]
fn gaussian_simple_spreads_a_point() {
    let p = plane(3, 3, vec![0, 0, 0, 0, 100, 0, 0, 0, 0]);
    let r = apply_filter(&p, &gaussian_simple());
    assert_eq!(r.bytes, vec![12, 18, 6, 18, 50, 9, 6, 9, 3]);
}

#[test]
fn laplacian_narrows_negative_sums_to_zero() {
    let p = plane(3, 3, vec![10, 10, 10, 10, 50, 10, 10, 10, 10]);
    let r = apply_filter(&p, &laplacian());
    assert_eq!(r.bytes, vec![0, 80, 0, 80, 0, 40, 0, 40, 0]);
}

#[test]
fn resample_down_keeps_even_rows_and_columns() {
    let p = plane(4, 4, (0..16u8).collect());
    let r = resample_down(&p);
    assert_eq!((r.width, r.height), (2, 2));
    assert_eq!(r.bytes, vec![0, 2, 8, 10]);
}

#[test]
fn resample_down_drops_trailing_odd_row_and_column() {
    let p = plane(5, 3, (0..15u8).collect());
    let r = resample_down(&p);
    assert_eq!((r.width, r.height), (2, 1));
    assert_eq!(r.bytes, vec![0, 2]);
    let tiny = resample_down(&plane(1, 1, vec![7]));
    assert_eq!((tiny.width, tiny.height), (0, 0));
    assert!(tiny.bytes.is_empty());
}

#[test]
fn split_then_merge_gives_back_the_buffer() {
    let data: Vec<u8> = (0..24u8).collect();
    let rgb = Image::new(4, 2, ColorType::Rgb, &data);
    assert_eq!(rgb.channels.len(), 3);
    assert_eq!(rgb.channels[1].bytes, vec![1, 4, 7, 10, 13, 16, 19, 22]);
    assert_eq!(rgb.to_bytes(), data);
    let rgba = Image::new(3, 2, ColorType::Rgba, &data);
    assert_eq!(rgba.channels.len(), 4);
    assert_eq!(rgba.channels[3].bytes, vec![3, 7, 11, 15, 19, 23]);
    assert_eq!(rgba.to_bytes(), data);
}

#[test]
fn channel_counts() {
    assert_eq!(ColorType::Rgb.channel_count(), 3);
    assert_eq!(ColorType::Rgba.channel_count(), 4);
}

#[test]
fn apply_to_channels_adopts_first_plane_extents() {
    let img = gray_rgba(4, 4, 9);
    let r = img.apply_to_channels(|c: &ImageChannel| resample_down(c));
    assert_eq!((r.width, r.height), (2, 2));
    assert_eq!(r.color_type, ColorType::Rgba);
    assert_eq!(r.channels.len(), 4);
}

#[test]
fn solid_gray_is_fixed_by_simple_blur() {
    let img = gray_rgba(4, 4, 128);
    let r = simple_gaussian_blur(img.clone());
    assert_eq!((r.width, r.height), (4, 4));
    assert_eq!(r.to_bytes(), img.to_bytes());
}

#[test]
fn solid_gray_is_fixed_by_sharpen() {
    let img = gray_rgba(4, 4, 128);
    let r = sharpen_image(img.clone());
    assert_eq!((r.width, r.height), (4, 4));
    assert_eq!(r.color_type, ColorType::Rgba);
    assert_eq!(r.to_bytes(), img.to_bytes());
}

#[test]
fn sharpen_subtracts_laplacian() {
    let data: Vec<u8> = [10u8, 10, 10, 10, 50, 10, 10, 10, 10]
        .iter()
        .flat_map(|&b| [b, b, b])
        .collect();
    let img = Image::new(3, 3, ColorType::Rgb, &data);
    let r = sharpen_image(img);
    for c in 0..3 {
        assert_eq!(r.channels[c].bytes, vec![10, 0, 10, 0, 50, 0, 10, 0, 10]);
    }
}

#[test]
fn identity_image_keeps_bytes() {
    let data: Vec<u8> = (0..48u8).collect();
    let img = Image::new(4, 4, ColorType::Rgb, &data);
    let r = identity_image(img);
    assert_eq!(r.to_bytes(), data);
}

#[test]
fn downscale_image_halves_extents() {
    let data: Vec<u8> = (0..64u8).collect();
    let img = Image::new(4, 4, ColorType::Rgba, &data);
    let r = downscale_image(img);
    assert_eq!((r.width, r.height), (2, 2));
    assert_eq!(r.channels[0].bytes, vec![0, 8, 32, 40]);
    assert_eq!(r.channels[3].bytes, vec![3, 11, 35, 43]);
}

#[test]
fn complex_blur_runs_rows_before_columns() {
    let src: Vec<u8> = vec![68, 32, 130, 60, 253, 230, 241, 194, 107, 48, 249, 14, 199, 221, 1, 228];
    let data: Vec<u8> = src.iter().flat_map(|&b| [b, b, b]).collect();
    let img = Image::new(4, 4, ColorType::Rgb, &data);
    let r = complex_gaussian_blur(img);
    let rows_then_columns: Vec<u8> =
        vec![143, 147, 154, 137, 159, 163, 168, 144, 151, 151, 150, 130, 170, 151, 125, 144];
    assert_eq!(r.channels[0].bytes, rows_then_columns);

    let p = plane(4, 4, src);
    let swapped = apply_filter(&apply_filter(&p, &gaussian_y()), &gaussian_x());
    assert_eq!(
        swapped.bytes,
        vec![143, 146, 154, 137, 159, 163, 168, 144, 151, 151, 150, 130, 169, 150, 124, 144]
    );
    assert_ne!(swapped.bytes, rows_then_columns);
}
