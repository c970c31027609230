use image_tagger::error::ModelError;
use image_tagger::geometry::padding_geometry;
use image_tagger::preprocess::{
    decode_rgba, describe_preprocessing, model_input_size, preprocess_bytes, preprocess_image,
    RgbaPixels, FALLBACK_MODEL_INPUT_SIZE,
};

fn png(width: u32, height: u32, pixel: [u8; 4]) -> Vec<u8> {
    let img = image::RgbaImage::from_pixel(width, height, image::Rgba(pixel));
    let mut out = std::io::Cursor::new(Vec::new());
    img.write_to(&mut out, image::ImageFormat::Png).unwrap();
    out.into_inner()
}

#[test]
fn padding_of_wide_image() {
    let g = padding_geometry(300, 200);
    assert_eq!((g.side, g.x_offset, g.y_offset), (300, 0, 50));
}

#[test]
fn padding_of_tall_image_rounds_down() {
    let g = padding_geometry(3, 10);
    assert_eq!((g.side, g.x_offset, g.y_offset), (10, 3, 0));
}

#[test]
fn padding_of_square_image_is_none() {
    let g = padding_geometry(448, 448);
    assert_eq!((g.side, g.x_offset, g.y_offset), (448, 0, 0));
}

#[test]
fn input_size_from_square_shape() {
    assert_eq!(model_input_size(&vec![1, 384, 384, 3]), 384);
}

#[test]
fn input_size_falls_back() {
    assert_eq!(model_input_size(&vec![1, 384, 448, 3]), FALLBACK_MODEL_INPUT_SIZE);
    assert_eq!(model_input_size(&vec![-1, -1, -1, 3]), 448);
    assert_eq!(model_input_size(&vec![1, 0, 0, 3]), 448);
    assert_eq!(model_input_size(&vec![1, 448, 448]), 448);
}

#[test]
fn channels_come_out_blue_green_red() {
    let img = RgbaPixels { width: 2, height: 2, data: [10u8, 20, 30, 255].repeat(4) };
    let t = preprocess_image(&img, 2);
    assert_eq!(t, [30u8, 20, 10].repeat(4));
}

#[test]
fn padding_is_white_and_image_is_centered() {
    // 1 x 2 red image: canvas 2 x 2, image in the left column
    let img = RgbaPixels { width: 1, height: 2, data: [255u8, 0, 0, 255].repeat(2) };
    let t = preprocess_image(&img, 2);
    assert_eq!(t, vec![0, 0, 255, 255, 255, 255, 0, 0, 255, 255, 255, 255]);
    // 3 x 1 blue image: canvas 3 x 3, image in the middle row
    let img = RgbaPixels { width: 3, height: 1, data: [0u8, 0, 255, 255].repeat(3) };
    let t = preprocess_image(&img, 3);
    let mut expected = [255u8, 255, 255].repeat(3);
    expected.extend([255u8, 0, 0].repeat(3));
    expected.extend([255u8, 255, 255].repeat(3));
    assert_eq!(t, expected);
}

#[test]
fn transparent_pixels_show_the_white_canvas() {
    let img = RgbaPixels { width: 1, height: 1, data: vec![0, 0, 0, 0] };
    assert_eq!(preprocess_image(&img, 1), vec![255, 255, 255]);
}

#[test]
fn output_has_target_size() {
    let img = RgbaPixels { width: 5, height: 3, data: [1u8, 2, 3, 255].repeat(15) };
    assert_eq!(preprocess_image(&img, 4).len(), 4 * 4 * 3);
    assert_eq!(preprocess_image(&img, 7).len(), 7 * 7 * 3);
}

#[test]
fn preprocessing_is_deterministic() {
    let mut data = Vec::new();
    for i in 0..(7 * 5) {
        data.extend([(i * 7) as u8, (i * 13) as u8, (i * 29) as u8, 200]);
    }
    let img = RgbaPixels { width: 7, height: 5, data };
    let a = preprocess_image(&img, 16);
    let b = preprocess_image(&img, 16);
    assert_eq!(a, b);
    let bytes = png(9, 4, [40, 80, 120, 255]);
    assert_eq!(preprocess_bytes(&bytes, 8).unwrap(), preprocess_bytes(&bytes, 8).unwrap());
}

#[test]
fn decodes_encoded_bytes() {
    let bytes = png(3, 2, [1, 2, 3, 4]);
    let p = decode_rgba(&bytes).unwrap();
    assert_eq!((p.width, p.height), (3, 2));
    assert_eq!(p.data, [1u8, 2, 3, 4].repeat(6));
}

#[test]
fn preprocess_bytes_of_opaque_square_image() {
    let bytes = png(2, 2, [200, 100, 50, 255]);
    assert_eq!(preprocess_bytes(&bytes, 2).unwrap(), [50u8, 100, 200].repeat(4));
}

#[test]
fn undecodable_bytes_are_rejected() {
    assert_eq!(preprocess_bytes(b"not an image", 448).err(), Some(ModelError::ImageDecodeFailed));
    assert!(decode_rgba(&[]).is_none());
}

#[test]
fn describes_preprocessing_sizes() {
    let d = describe_preprocessing(640, 480, 448);
    assert_eq!(d.original_size, (640, 480));
    assert_eq!(d.padded_size, (640, 640));
    assert_eq!(d.final_size, (448, 448));
    assert_eq!(d.preprocessing_steps[0], "Loaded image: 640x480 pixels");
    assert_eq!(d.preprocessing_steps[1], "Padded to square: 640x640 pixels (white background)");
    assert!(d.success);
}

#[test]
fn oversized_target_is_rejected() {
    let bytes = png(2, 2, [1, 2, 3, 255]);
    assert_eq!(preprocess_bytes(&bytes, u32::MAX).err(), Some(ModelError::ImageTooLarge));
}
