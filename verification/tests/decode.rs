use megascops::decode::{
    accept_jpeg, accept_picture, decode_image, encodable, read_jpeg_pixels, scale_picture, RgbImage,
};
use std::io::Cursor;

fn picture(width: u32, height: u32) -> image::RgbImage {
    image::RgbImage::from_fn(width, height, |x, y| image::Rgb([(x * 40) as u8, (y * 60) as u8, 200]))
}

fn encoded(img: &image::RgbImage, format: image::ImageFormat) -> Vec<u8> {
    let mut bytes = Cursor::new(Vec::new());
    image::DynamicImage::ImageRgb8(img.clone()).write_to(&mut bytes, format).unwrap();
    bytes.into_inner()
}

fn gray_jpeg(width: u32, height: u32) -> Vec<u8> {
    let img = image::GrayImage::from_fn(width, height, |x, _| image::Luma([(x * 10) as u8]));
    let mut bytes = Cursor::new(Vec::new());
    image::DynamicImage::ImageLuma8(img).write_to(&mut bytes, image::ImageFormat::Jpeg).unwrap();
    bytes.into_inner()
}

#[test]
fn a_png_is_decoded_to_its_pixels() {
    let img = picture(4, 3);
    let decoded = decode_image(&encoded(&img, image::ImageFormat::Png), "/in/a.png").unwrap();
    assert_eq!(decoded.width, 4);
    assert_eq!(decoded.height, 3);
    assert_eq!(decoded.pixels, img.into_raw());
    assert_eq!(&decoded.pixels[..6], &[0, 0, 200, 40, 0, 200]);
}

#[test]
fn a_png_with_transparency_is_turned_into_three_bytes() {
    let img = image::RgbaImage::from_fn(2, 2, |x, y| image::Rgba([x as u8 * 9, y as u8 * 7, 5, 128]));
    let mut bytes = Cursor::new(Vec::new());
    image::DynamicImage::ImageRgba8(img).write_to(&mut bytes, image::ImageFormat::Png).unwrap();
    let decoded = decode_image(&bytes.into_inner(), "a.PNG").unwrap();
    assert_eq!((decoded.width, decoded.height), (2, 2));
    assert_eq!(decoded.pixels, vec![0, 0, 5, 9, 0, 5, 0, 7, 5, 9, 7, 5]);
}

#[test]
fn a_jpeg_is_decoded_to_its_size() {
    let img = image::RgbImage::from_pixel(16, 8, image::Rgb([200, 100, 50]));
    let decoded = decode_image(&encoded(&img, image::ImageFormat::Jpeg), "/in/a.jpg").unwrap();
    assert_eq!((decoded.width, decoded.height), (16, 8));
    assert_eq!(decoded.pixels.len(), 16 * 8 * 3);
    for pixel in decoded.pixels.chunks(3) {
        assert!((pixel[0] as i32 - 200).abs() <= 6);
        assert!((pixel[1] as i32 - 100).abs() <= 6);
        assert!((pixel[2] as i32 - 50).abs() <= 6);
    }
}

#[test]
fn a_jpeg_under_another_name_is_read_by_the_second_decoder() {
    let img = image::RgbImage::from_pixel(8, 8, image::Rgb([10, 200, 90]));
    let bytes = encoded(&img, image::ImageFormat::Jpeg);
    for path in ["/in/really_a_jpeg.png", "/in/no_extension", "/in/a.webp"] {
        let decoded = decode_image(&bytes, path).unwrap();
        assert_eq!((decoded.width, decoded.height), (8, 8));
        assert_eq!(decoded.pixels.len(), 8 * 8 * 3);
        assert!((decoded.pixels[1] as i32 - 200).abs() <= 6);
    }
}

#[test]
fn bytes_that_are_no_picture_give_the_error_of_the_second_decoder() {
    let error = decode_image(b"this is no picture", "/in/broken.jpg").unwrap_err();
    assert_eq!(error, "invalid JPEG format: first two bytes are not an SOI marker");
    let png = encoded(&picture(2, 2), image::ImageFormat::Png);
    let error = decode_image(&png[..20], "/in/cut.png").unwrap_err();
    assert_eq!(error, "invalid JPEG format: first two bytes are not an SOI marker");
}

#[test]
fn an_empty_file_gives_an_error() {
    assert!(decode_image(b"", "/in/empty.jpg").is_err());
    assert!(decode_image(b"", "/in/empty.png").is_err());
}

#[test]
fn a_jpeg_cut_short_after_its_header_gives_an_error() {
    let bytes = encoded(&image::RgbImage::from_pixel(32, 32, image::Rgb([1, 2, 3])), image::ImageFormat::Jpeg);
    assert!(decode_image(&bytes[..4], "/in/broken.jpg").is_err());
}

#[test]
fn a_gray_jpeg_under_another_name_is_turned_into_three_bytes() {
    let decoded = decode_image(&gray_jpeg(8, 8), "/in/gray.png").unwrap();
    assert_eq!((decoded.width, decoded.height), (8, 8));
    assert_eq!(decoded.pixels.len(), 8 * 8 * 3);
    for pixel in decoded.pixels.chunks(3) {
        assert_eq!(pixel[0], pixel[1]);
        assert_eq!(pixel[1], pixel[2]);
    }
    // the picture grows lighter from left to right
    assert!(decoded.pixels[0] < decoded.pixels[7 * 3]);
}

#[test]
fn a_gray_jpeg_under_its_name_is_turned_into_three_bytes() {
    let decoded = decode_image(&gray_jpeg(8, 8), "/in/gray.jpg").unwrap();
    assert_eq!((decoded.width, decoded.height), (8, 8));
    assert_eq!(decoded.pixels.len(), 8 * 8 * 3);
    assert_eq!(decoded.pixels[0], decoded.pixels[1]);
    assert_eq!(decoded.pixels[1], decoded.pixels[2]);
}

#[test]
fn the_first_decoder_counts_only_with_a_full_buffer() {
    assert_eq!(
        accept_picture(Some((2, 1, vec![1, 2, 3, 4, 5, 6]))),
        Some(RgbImage { width: 2, height: 1, pixels: vec![1, 2, 3, 4, 5, 6] })
    );
    assert_eq!(accept_picture(Some((2, 1, vec![1, 2, 3, 4, 5]))), None);
    assert_eq!(accept_picture(Some((2, 1, vec![1, 2, 3, 4, 5, 6, 7]))), None);
    assert_eq!(accept_picture(Some((0, 5, vec![]))), Some(RgbImage { width: 0, height: 5, pixels: vec![] }));
    assert_eq!(accept_picture(None), None);
}

#[test]
fn the_second_decoder_counts_wherever_it_gives_pixels_and_a_size() {
    assert_eq!(
        accept_jpeg(Ok(vec![9, 8, 7]), Some((1, 1))),
        Ok(RgbImage { width: 1, height: 1, pixels: vec![9, 8, 7] })
    );
    // grey of one byte becomes red, green and blue
    assert_eq!(
        accept_jpeg(Ok(vec![9]), Some((1, 1))),
        Ok(RgbImage { width: 1, height: 1, pixels: vec![9, 9, 9] })
    );
    assert_eq!(
        accept_jpeg(Ok(vec![1, 2]), Some((2, 1))),
        Ok(RgbImage { width: 2, height: 1, pixels: vec![1, 1, 1, 2, 2, 2] })
    );
    // of a grey of two bytes the second one counts
    assert_eq!(
        accept_jpeg(Ok(vec![9, 8]), Some((1, 1))),
        Ok(RgbImage { width: 1, height: 1, pixels: vec![8, 8, 8] })
    );
    assert_eq!(
        accept_jpeg(Ok(vec![1, 2, 3, 4]), Some((1, 2))),
        Ok(RgbImage { width: 1, height: 2, pixels: vec![2, 2, 2, 4, 4, 4] })
    );
    // a buffer of four bytes a pixel is read as far as three bytes a pixel go
    assert_eq!(
        accept_jpeg(Ok(vec![9, 8, 7, 6]), Some((1, 1))),
        Ok(RgbImage { width: 1, height: 1, pixels: vec![9, 8, 7] })
    );
    assert_eq!(
        accept_jpeg(Ok(vec![1, 2, 3, 4, 5, 6, 7, 8]), Some((2, 1))),
        Ok(RgbImage { width: 2, height: 1, pixels: vec![1, 2, 3, 4, 5, 6] })
    );
    // a buffer that is too short for a grey is filled with black
    assert_eq!(
        accept_jpeg(Ok(vec![5]), Some((2, 1))),
        Ok(RgbImage { width: 2, height: 1, pixels: vec![5, 5, 5, 0, 0, 0] })
    );
    assert_eq!(
        accept_jpeg(Ok(vec![]), Some((0, 7))),
        Ok(RgbImage { width: 0, height: 7, pixels: vec![] })
    );
    assert_eq!(accept_jpeg(Ok(vec![9, 8, 7]), None), Err("the decoder read no size".to_string()));
    assert_eq!(accept_jpeg(Err("broken".to_string()), Some((1, 1))), Err("broken".to_string()));
    assert_eq!(accept_jpeg(Err("broken".to_string()), None), Err("broken".to_string()));
}

#[test]
fn the_pixels_of_the_second_decoder_are_read_by_their_length() {
    assert_eq!(
        read_jpeg_pixels(vec![1, 2, 3, 4, 5, 6], 2, 1),
        RgbImage { width: 2, height: 1, pixels: vec![1, 2, 3, 4, 5, 6] }
    );
    assert_eq!(
        read_jpeg_pixels(vec![1, 2, 3, 4], 2, 1),
        RgbImage { width: 2, height: 1, pixels: vec![2, 2, 2, 4, 4, 4] }
    );
    assert_eq!(
        read_jpeg_pixels(vec![1, 2], 2, 1),
        RgbImage { width: 2, height: 1, pixels: vec![1, 1, 1, 2, 2, 2] }
    );
    assert_eq!(read_jpeg_pixels(vec![], 0, 0), RgbImage { width: 0, height: 0, pixels: vec![] });
    assert_eq!(read_jpeg_pixels(vec![7], 0, 9), RgbImage { width: 0, height: 9, pixels: vec![] });
    let full = read_jpeg_pixels(vec![3; 65535 * 2], 65535, 1);
    assert_eq!(full.pixels.len(), 65535 * 3);
    assert!(full.pixels.iter().all(|b| *b == 3));
}

#[test]
fn a_picture_can_be_encoded_where_it_has_pixels() {
    assert!(encodable(&RgbImage { width: 1, height: 1, pixels: vec![1, 2, 3] }));
    assert!(encodable(&RgbImage { width: 2, height: 3, pixels: vec![0; 18] }));
    assert!(!encodable(&RgbImage { width: 0, height: 1, pixels: vec![] }));
    assert!(!encodable(&RgbImage { width: 1, height: 0, pixels: vec![] }));
    assert!(!encodable(&RgbImage { width: 0, height: 0, pixels: vec![] }));
    assert!(!encodable(&RgbImage { width: 1, height: 1, pixels: vec![1, 2] }));
    assert!(!encodable(&RgbImage { width: 1, height: 1, pixels: vec![1, 2, 3, 4] }));
}

#[test]
fn scaling_down_takes_the_nearest_pixels() {
    // 4 by 2 pixels, each with its own colour
    let source = RgbImage {
        width: 4,
        height: 2,
        pixels: vec![
            10, 0, 0, 20, 0, 0, 30, 0, 0, 40, 0, 0, //
            50, 0, 0, 60, 0, 0, 70, 0, 0, 80, 0, 0,
        ],
    };
    let scaled = scale_picture(&source, 2);
    assert_eq!((scaled.width, scaled.height), (2, 2));
    // the centres of the new pixels fall on columns 1 and 3, rows 0 and 1
    assert_eq!(scaled.pixels, vec![20, 0, 0, 40, 0, 0, 60, 0, 0, 80, 0, 0]);
}

#[test]
fn scaling_up_repeats_pixels() {
    let source = RgbImage { width: 1, height: 1, pixels: vec![7, 8, 9] };
    let scaled = scale_picture(&source, 2);
    assert_eq!((scaled.width, scaled.height), (2, 2));
    assert_eq!(scaled.pixels, vec![7, 8, 9, 7, 8, 9, 7, 8, 9, 7, 8, 9]);
}

#[test]
fn scaling_to_the_same_size_keeps_the_picture() {
    let source = RgbImage { width: 2, height: 2, pixels: (0..12).collect() };
    let scaled = scale_picture(&source, 2);
    assert_eq!(scaled, source);
}

#[test]
fn scaling_an_empty_picture_gives_an_empty_picture() {
    let source = RgbImage { width: 0, height: 0, pixels: Vec::new() };
    let scaled = scale_picture(&source, 4);
    assert_eq!((scaled.width, scaled.height), (0, 4));
    assert!(scaled.pixels.is_empty());
}

#[test]
fn the_scaled_picture_has_the_scaled_size() {
    let source = RgbImage { width: 30, height: 20, pixels: vec![128; 30 * 20 * 3] };
    let scaled = scale_picture(&source, 128);
    assert_eq!((scaled.width, scaled.height), (128, 86));
    assert_eq!(scaled.pixels.len(), 128 * 86 * 3);
    assert!(scaled.pixels.iter().all(|b| *b == 128));
}
