use snap::crop::CropMethod;
use snap::error::ImageError;
use snap::image::{Image, PPMFormat};
use snap::matrix::Matrix;
use snap::pixel::PixelRGB;
use snap::scale::{blend_samples, ScaleMethod};

fn numbered(width: usize, height: usize) -> Image {
    let mut image = Image::new(width, height, 255, PPMFormat::P3);
    for row in 0..height {
        for col in 0..width {
            image.set_pixel(row, col, PixelRGB { r: row * width + col, g: row, b: col });
        }
    }
    image
}

fn reds(image: &Image) -> Vec<usize> {
    let mut out = Vec::new();
    for row in 0..image.height() {
        for col in 0..image.width() {
            out.push(image.get_pixel(row, col).unwrap().r);
        }
    }
    out
}

#[test]
fn new_image_is_black() {
    let image = Image::new(2, 3, 255, PPMFormat::P6);
    assert_eq!((image.width(), image.height()), (2, 3));
    assert_eq!(image.max_intensity(), 255);
    assert_eq!(image.format(), PPMFormat::P6);
    for row in 0..3 {
        for col in 0..2 {
            assert_eq!(image.get_pixel(row, col), Some(PixelRGB { r: 0, g: 0, b: 0 }));
        }
    }
    assert_eq!(image.get_pixel(3, 0), None);
    assert_eq!(image.get_pixel(0, 2), None);
}

#[test]
fn from_channels_wants_one_shape() {
    let red: Matrix<usize> = Matrix::new_filled(2, 2, 1);
    let green: Matrix<usize> = Matrix::new_filled(2, 2, 2);
    let blue: Matrix<usize> = Matrix::new_filled(2, 2, 3);
    let image = Image::from_channels(255, red, green, blue, PPMFormat::P3).unwrap();
    assert_eq!(image.get_pixel(1, 1), Some(PixelRGB { r: 1, g: 2, b: 3 }));

    let red: Matrix<usize> = Matrix::new_filled(2, 2, 1);
    let green: Matrix<usize> = Matrix::new_filled(2, 2, 2);
    let blue: Matrix<usize> = Matrix::new_filled(1, 4, 3);
    let made = Image::from_channels(255, red, green, blue, PPMFormat::P3);
    assert!(matches!(made, Err(ImageError::ShapeMismatch)));

    let red: Matrix<usize> = Matrix::new_filled(2, 3, 1);
    let green: Matrix<usize> = Matrix::new_filled(3, 2, 2);
    let blue: Matrix<usize> = Matrix::new_filled(2, 3, 3);
    let made = Image::from_channels(255, red, green, blue, PPMFormat::P3);
    assert!(matches!(made, Err(ImageError::ShapeMismatch)));
}

#[test]
fn set_pixel_writes_all_three_channels() {
    let mut image = Image::new(2, 2, 255, PPMFormat::P3);
    image.set_pixel(1, 0, PixelRGB { r: 7, g: 8, b: 9 });
    assert_eq!(image.get_pixel(1, 0), Some(PixelRGB { r: 7, g: 8, b: 9 }));
    assert_eq!(*image.red_channel().at(1, 0), 7);
    assert_eq!(*image.green_channel().at(1, 0), 8);
    assert_eq!(*image.blue_channel().at(1, 0), 9);
    image.set_pixel(2, 0, PixelRGB { r: 1, g: 1, b: 1 });
    assert_eq!(reds(&image), vec![0, 0, 7, 0]);
}

#[test]
fn fill_sets_every_pixel() {
    let mut image = numbered(3, 2);
    image.fill(PixelRGB { r: 4, g: 5, b: 6 });
    for row in 0..2 {
        for col in 0..3 {
            assert_eq!(image.get_pixel(row, col), Some(PixelRGB { r: 4, g: 5, b: 6 }));
        }
    }
}

#[test]
fn samples_in_range_checks_the_largest_sample() {
    let mut image = Image::new(2, 2, 100, PPMFormat::P3);
    assert!(image.samples_in_range());
    image.set_pixel(1, 1, PixelRGB { r: 100, g: 0, b: 0 });
    assert!(image.samples_in_range());
    image.set_pixel(1, 1, PixelRGB { r: 0, g: 0, b: 101 });
    assert!(!image.samples_in_range());
}

#[test]
fn take_and_put_channels() {
    let mut image = numbered(2, 2);
    let (red, green, blue) = image.take_channels();
    assert_eq!((image.width(), image.height()), (0, 0));
    assert_eq!(image.max_intensity(), 255);
    image.put_channels(blue, green, red);
    assert_eq!(image.get_pixel(1, 1), Some(PixelRGB { r: 1, g: 1, b: 3 }));
}

#[test]
fn mirror_and_transpose() {
    let mut image = numbered(3, 2);
    image.mirror_x();
    assert_eq!(reds(&image), vec![3, 4, 5, 0, 1, 2]);
    image.mirror_y();
    assert_eq!(reds(&image), vec![5, 4, 3, 2, 1, 0]);
    image.transpose();
    assert_eq!((image.width(), image.height()), (2, 3));
    assert_eq!(reds(&image), vec![5, 2, 4, 1, 3, 0]);
    assert_eq!(image.get_pixel(0, 1), Some(PixelRGB { r: 2, g: 0, b: 2 }));
}

#[test]
fn one_sided_crops() {
    let mut image = numbered(4, 3);
    image.crop_left(3);
    assert_eq!(reds(&image), vec![1, 2, 3, 5, 6, 7, 9, 10, 11]);
    image.crop_right(2);
    assert_eq!(reds(&image), vec![1, 2, 5, 6, 9, 10]);
    image.crop_top(2);
    assert_eq!(reds(&image), vec![5, 6, 9, 10]);
    image.crop_bottom(1);
    assert_eq!(reds(&image), vec![5, 6]);
    assert_eq!((image.width(), image.height()), (2, 1));
}

#[test]
fn crops_that_do_not_apply() {
    let mut image = numbered(3, 2);
    let before = reds(&image);
    image.crop_left(0);
    image.crop_left(3);
    image.crop_right(4);
    image.crop_top(0);
    image.crop_bottom(2);
    image.crop(0, 1, CropMethod::Left, None, None);
    image.crop(1, 0, CropMethod::Left, None, None);
    image.crop(4, 1, CropMethod::Left, None, None);
    image.crop(1, 3, CropMethod::Left, None, None);
    assert_eq!((image.width(), image.height()), (3, 2));
    assert_eq!(reds(&image), before);
}

#[test]
fn crop_rect_cuts_a_rectangle() {
    let mut image = numbered(4, 4);
    image.crop_rect(2, 2, 1, 2);
    assert_eq!(reds(&image), vec![9, 10, 13, 14]);
    image.crop_rect(0, 1, 2, 0);
    assert_eq!((image.width(), image.height()), (0, 1));
}

#[test]
fn crop_by_every_method() {
    let cases: Vec<(CropMethod, (usize, usize), Vec<usize>)> = vec![
        (CropMethod::Left, (2, 5), vec![3, 4, 8, 9, 13, 14, 18, 19, 23, 24]),
        (CropMethod::Right, (2, 5), vec![0, 1, 5, 6, 10, 11, 15, 16, 20, 21]),
        (CropMethod::LeftRight, (2, 5), vec![1, 2, 6, 7, 11, 12, 16, 17, 21, 22]),
        (CropMethod::Top, (5, 2), vec![15, 16, 17, 18, 19, 20, 21, 22, 23, 24]),
        (CropMethod::Bottom, (5, 2), vec![0, 1, 2, 3, 4, 5, 6, 7, 8, 9]),
        (CropMethod::TopBottom, (5, 2), vec![5, 6, 7, 8, 9, 10, 11, 12, 13, 14]),
        (CropMethod::LeftTop, (2, 2), vec![18, 19, 23, 24]),
        (CropMethod::LeftBottom, (2, 2), vec![3, 4, 8, 9]),
        (CropMethod::RightTop, (2, 2), vec![15, 16, 20, 21]),
        (CropMethod::RightBottom, (2, 2), vec![0, 1, 5, 6]),
        (CropMethod::Rectangular, (2, 2), vec![6, 7, 11, 12]),
    ];
    for (method, size, expected) in cases {
        let mut image = numbered(5, 5);
        image.crop(2, 2, method, None, None);
        assert_eq!((image.width(), image.height()), size);
        assert_eq!(reds(&image), expected);
    }
    let mut image = numbered(5, 5);
    image.crop(2, 2, CropMethod::Rectangular, Some(3), Some(0));
    assert_eq!(reds(&image), vec![3, 4, 8, 9]);
    let mut image = numbered(5, 5);
    image.crop(2, 2, CropMethod::Rectangular, None, Some(3));
    assert_eq!(reds(&image), vec![16, 17, 21, 22]);
}

#[test]
fn crop_width_and_height() {
    let mut image = numbered(5, 3);
    image.crop_width(2, CropMethod::LeftRight);
    assert_eq!(reds(&image), vec![1, 2, 6, 7, 11, 12]);
    image.crop_height(1, CropMethod::TopBottom);
    assert_eq!(reds(&image), vec![6, 7]);
    let mut image = numbered(5, 3);
    image.crop_width(4, CropMethod::Left);
    image.crop_height(2, CropMethod::Bottom);
    assert_eq!(reds(&image), vec![1, 2, 3, 4, 6, 7, 8, 9]);
    image.crop_width(3, CropMethod::Right);
    image.crop_height(1, CropMethod::Top);
    assert_eq!(reds(&image), vec![6, 7, 8]);
}

#[test]
fn blend_rounds_halves_up() {
    assert_eq!(blend_samples(0, 10, 1, 2), 5);
    assert_eq!(blend_samples(0, 1, 1, 2), 1);
    assert_eq!(blend_samples(10, 0, 1, 4), 8);
    assert_eq!(blend_samples(0, 10, 1, 4), 3);
    assert_eq!(blend_samples(7, 7, 3, 5), 7);
    assert_eq!(blend_samples(3, 9, 0, 5), 3);
    assert_eq!(blend_samples(usize::MAX, 0, 1, 2), usize::MAX / 2 + 1);
    assert_eq!(blend_samples(0, usize::MAX, usize::MAX - 1, usize::MAX), usize::MAX - 1);
}

#[test]
fn linear_scale_repeats_pixels() {
    let mut image = numbered(2, 1);
    image.linear_scale(4, 2);
    assert_eq!((image.width(), image.height()), (4, 2));
    assert_eq!(reds(&image), vec![0, 0, 1, 1, 0, 0, 1, 1]);
    image.linear_scale(0, 3);
    assert_eq!((image.width(), image.height()), (0, 3));
}

#[test]
fn bilinear_scale_blends_and_repeats_the_edge() {
    let mut image = Image::new(2, 1, 255, PPMFormat::P3);
    image.set_pixel(0, 1, PixelRGB { r: 100, g: 50, b: 1 });
    image.bilinear_scale(4, 1);
    assert_eq!(reds(&image), vec![0, 50, 100, 100]);
    assert_eq!(image.get_pixel(0, 1), Some(PixelRGB { r: 50, g: 25, b: 1 }));

    let mut image = Image::new(2, 2, 255, PPMFormat::P3);
    image.set_pixel(0, 1, PixelRGB { r: 100, g: 0, b: 0 });
    image.set_pixel(1, 0, PixelRGB { r: 200, g: 0, b: 0 });
    image.set_pixel(1, 1, PixelRGB { r: 255, g: 0, b: 0 });
    image.bilinear_scale(4, 4);
    // rows 0 and 1 of the source blended along x: [0, 50, 100, 100] and
    // [200, 228, 255, 255]; then down the columns by 0, 1/2, 1, 1
    assert_eq!(
        reds(&image),
        vec![0, 50, 100, 100, 100, 139, 178, 178, 200, 228, 255, 255, 200, 228, 255, 255]
    );
}

#[test]
fn scale_leaves_empty_images_alone() {
    let mut image = numbered(2, 2);
    image.scale(0, 4, ScaleMethod::Linear);
    image.scale(4, 0, ScaleMethod::Bilinear);
    assert_eq!((image.width(), image.height()), (2, 2));
    let mut empty = Image::new(0, 2, 255, PPMFormat::P3);
    empty.scale(4, 4, ScaleMethod::Linear);
    assert_eq!((empty.width(), empty.height()), (0, 2));
    image.scale(4, 4, ScaleMethod::Linear);
    assert_eq!(reds(&image), vec![0, 0, 1, 1, 0, 0, 1, 1, 2, 2, 3, 3, 2, 2, 3, 3]);
    let mut image = numbered(2, 1);
    image.scale(3, 1, ScaleMethod::Bilinear);
    assert_eq!(reds(&image), vec![0, 1, 1]);
}

#[test]
fn resize_scales_up_and_crops_down() {
    let mut image = numbered(4, 2);
    let done =
        image.resize(2, 4, ScaleMethod::Linear, Some(CropMethod::Left), Some(CropMethod::Top));
    assert_eq!(done, Ok(()));
    assert_eq!((image.width(), image.height()), (2, 4));
    assert_eq!(reds(&image), vec![2, 3, 2, 3, 6, 7, 6, 7]);
    let done = image.resize(2, 4, ScaleMethod::Linear, None, None);
    assert_eq!(done, Ok(()));
    assert_eq!(reds(&image), vec![2, 3, 2, 3, 6, 7, 6, 7]);
}

#[test]
fn resize_without_a_crop_method_fails() {
    let mut image = numbered(4, 2);
    let before = reds(&image);
    let done = image.resize(2, 4, ScaleMethod::Linear, None, Some(CropMethod::Top));
    assert_eq!(done, Err(ImageError::MissingCropMethod));
    let done = image.resize(8, 1, ScaleMethod::Linear, Some(CropMethod::Left), None);
    assert_eq!(done, Err(ImageError::MissingCropMethod));
    assert_eq!((image.width(), image.height()), (4, 2));
    assert_eq!(reds(&image), before);
    let done = image.resize(8, 2, ScaleMethod::Bilinear, None, None);
    assert_eq!(done, Ok(()));
    assert_eq!(image.width(), 8);
}

#[test]
fn error_messages() {
    assert_eq!(ImageError::ShapeMismatch.message(), "Shape mismatch");
    assert_eq!(ImageError::FormatError.message(), "Malformed image data");
    assert_eq!(ImageError::MissingCropMethod.message(), "Crop method needed for this resize");
    assert_eq!(ImageError::MissingExtension.message(), "Missing or invalid file extension");
    assert_eq!(
        ImageError::UnknownExtension.message(),
        "Unknown or unsupported image file extension"
    );
    assert_eq!(ImageError::CodecFailure.message(), "The image could not be decoded or encoded");
}
