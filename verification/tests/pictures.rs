use base64::Engine;
use verditum::images::{
    image_data, is_whitespace, picture_from, split_rgba, strip_whitespace, ImageError, Picture, MAX_IMAGE_ALLOC,
    MAX_IMAGE_SIDE,
};

/// Reads an image file as the renderer does.
fn decode(bytes: Vec<u8>) -> Result<(u32, u32, Vec<u8>), ImageError> {
    let mut reader = image::ImageReader::new(std::io::Cursor::new(bytes))
        .with_guessed_format()
        .map_err(|e| ImageError::Unreadable(e.to_string()))?;
    let mut limits = image::Limits::default();
    limits.max_image_width = Some(MAX_IMAGE_SIDE);
    limits.max_image_height = Some(MAX_IMAGE_SIDE);
    limits.max_alloc = Some(MAX_IMAGE_ALLOC);
    reader.limits(limits);
    let rgba = reader.decode().map_err(|e| ImageError::Undecodable(e.to_string()))?.to_rgba8();
    Ok((rgba.width(), rgba.height(), rgba.into_raw()))
}

fn picture(data: &str) -> Result<Picture, String> {
    picture_from(decode(image_data(data)?))
}

/// A solid translucent PNG, base64 encoded the way a UDF carries one.
fn png(width: u32, height: u32) -> String {
    let image = image::RgbaImage::from_pixel(width, height, image::Rgba([200, 30, 30, 128]));
    let mut bytes = vec![];
    image.write_to(&mut std::io::Cursor::new(&mut bytes), image::ImageFormat::Png).expect("encodes");
    base64::engine::general_purpose::STANDARD.encode(bytes)
}

#[test]
fn rejects_unreadable_images() {
    assert_eq!(picture("not base64 at all").err().as_deref(), Some("Invalid UDF image data."));
    let encoded = base64::engine::general_purpose::STANDARD.encode("not an image");
    let message = picture(&encoded).err().unwrap();
    assert!(message.contains("Cannot decode UDF image"), "{message}");
}

#[test]
fn decodes_an_embedded_png_into_colour_and_transparency() {
    let data = png(4, 2);
    // Line breaks and spaces inside the data are ignored.
    let wrapped = format!(" {}\n{} ", &data[..10], &data[10..]);
    let p = picture(&wrapped).unwrap();
    assert_eq!((p.width, p.height), (4, 2));
    assert_eq!(p.rgb.len(), 4 * 2 * 3);
    assert_eq!(p.alpha, vec![128; 8]);
    assert_eq!(&p.rgb[..6], &[200, 30, 30, 200, 30, 30]);
}

#[test]
fn refuses_images_beyond_the_size_limit() {
    let data = png(10001, 1);
    let message = picture(&data).err().unwrap();
    assert!(message.starts_with("Cannot decode UDF image: "), "{message}");
}

#[test]
fn splits_pixels_into_planes() {
    let (rgb, alpha) = split_rgba(&vec![1, 2, 3, 4, 5, 6, 7, 8, 9]);
    assert_eq!(rgb, vec![1, 2, 3, 5, 6, 7]);
    assert_eq!(alpha, vec![4, 8]);
    let (rgb, alpha) = split_rgba(&vec![]);
    assert!(rgb.is_empty() && alpha.is_empty());
}

#[test]
fn strips_unicode_white_space() {
    assert_eq!(strip_whitespace(" a\tb\nc\r\u{a0}d\u{3000}e\u{2009}"), "abcde");
    for c in ['\u{9}', '\u{d}', ' ', '\u{85}', '\u{a0}', '\u{1680}', '\u{2000}', '\u{200a}', '\u{2028}', '\u{2029}', '\u{202f}', '\u{205f}', '\u{3000}'] {
        assert!(is_whitespace(c), "{:?}", c);
        assert_eq!(is_whitespace(c), c.is_whitespace());
    }
    for c in ['a', '\u{200b}', '\u{8}', '\u{e}', '\u{feff}'] {
        assert!(!is_whitespace(c));
        assert_eq!(is_whitespace(c), c.is_whitespace());
    }
}

#[test]
fn names_why_an_image_could_not_be_read() {
    assert_eq!(picture_from(Err(ImageError::Unreadable("io".into()))).err().as_deref(), Some("io"));
    assert_eq!(
        picture_from(Err(ImageError::Undecodable("bad".into()))).err().as_deref(),
        Some("Cannot decode UDF image: bad")
    );
    let p = picture_from(Ok((1, 1, vec![9, 8, 7, 6]))).unwrap();
    assert_eq!((p.rgb, p.alpha), (vec![9, 8, 7], vec![6]));
}

#[test]
fn decodes_base64_image_data_ignoring_white_space() {
    assert_eq!(image_data(" aGVs\nbG8= ").unwrap(), b"hello".to_vec());
    assert_eq!(image_data("").unwrap(), Vec::<u8>::new());
    assert_eq!(image_data("aGVsbG8").err().as_deref(), Some("Invalid UDF image data."));
}
