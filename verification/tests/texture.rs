use popone::texture::{
    decode_image_to_rgba, decode_image_to_rgba_with_hint, fallback_rgba, format_from_mime,
    mip_chain_sizes, mip_level_count, rgba_for_upload, DecodeError, ImageFormatHint, PixelFormat,
    RgbaImageData, UploadPixels,
};
use popone::texture::{create_thumbnail_rgba, thumbnail_from_rgba, ThumbnailError};

fn no_psd(_: &[u8]) -> Result<RgbaImageData, DecodeError> {
    Err(DecodeError { detail: "psd".to_string() })
}

fn encode(format: image::ImageFormat) -> Vec<u8> {
    let img = image::RgbaImage::from_raw(2, 1, vec![10, 20, 30, 255, 40, 50, 60, 255]).unwrap();
    let mut out = std::io::Cursor::new(Vec::new());
    image::DynamicImage::ImageRgba8(img).write_to(&mut out, format).unwrap();
    out.into_inner()
}

#[test]
fn fallback_colors() {
    assert_eq!(fallback_rgba(true), [255, 255, 255, 255]);
    assert_eq!(fallback_rgba(false), [255, 0, 255, 255]);
}

#[test]
fn mip_levels_are_floor_log2_plus_one() {
    assert_eq!(mip_level_count(1, 1), 1);
    assert_eq!(mip_level_count(0, 0), 1);
    assert_eq!(mip_level_count(2, 1), 2);
    assert_eq!(mip_level_count(256, 128), 9);
    assert_eq!(mip_level_count(1, 300), 9);
    assert_eq!(mip_level_count(u32::MAX, 7), 32);
    for w in 1..2000u32 {
        assert_eq!(mip_level_count(w, 1), 32 - w.leading_zeros());
    }
}

#[test]
fn mip_chain_halves_each_level() {
    assert_eq!(mip_chain_sizes(4, 2), vec![(2, 1), (1, 1)]);
    assert_eq!(mip_chain_sizes(1, 1), vec![]);
    assert_eq!(mip_chain_sizes(5, 20), vec![(2, 10), (1, 5), (1, 2), (1, 1)]);
}

#[test]
fn upload_pixels_by_format() {
    match rgba_for_upload(PixelFormat::R8G8B8, &[1, 2, 3, 4, 5, 6]) {
        UploadPixels::Converted(v) => assert_eq!(v, vec![1, 2, 3, 255, 4, 5, 6, 255]),
        _ => panic!("expected conversion"),
    }
    match rgba_for_upload(PixelFormat::R8, &[7, 9]) {
        UploadPixels::Converted(v) => assert_eq!(v, vec![7, 7, 7, 255, 9, 9, 9, 255]),
        _ => panic!("expected conversion"),
    }
    match rgba_for_upload(PixelFormat::R8G8, &[1, 2, 3, 4]) {
        UploadPixels::Converted(v) => assert_eq!(v, vec![1, 2, 0, 255, 3, 4, 0, 255]),
        _ => panic!("expected conversion"),
    }
    assert!(matches!(rgba_for_upload(PixelFormat::R8G8B8A8, &[1, 2, 3, 4]), UploadPixels::AsIs));
    assert!(matches!(rgba_for_upload(PixelFormat::R16, &[1, 2]), UploadPixels::Fallback));
    assert!(matches!(rgba_for_upload(PixelFormat::R32G32B32A32Float, &[]), UploadPixels::Fallback));
}

#[test]
fn mime_hints() {
    assert_eq!(format_from_mime(Some("image/tga")), Some(ImageFormatHint::Tga));
    assert_eq!(format_from_mime(Some("image/x-tga")), Some(ImageFormatHint::Tga));
    assert_eq!(format_from_mime(Some("image/bmp")), Some(ImageFormatHint::Bmp));
    assert_eq!(format_from_mime(Some("image/png")), Some(ImageFormatHint::Png));
    assert_eq!(format_from_mime(Some("image/jpeg")), Some(ImageFormatHint::Jpeg));
    assert_eq!(format_from_mime(Some("image/vnd.ms-dds")), Some(ImageFormatHint::Dds));
    assert_eq!(format_from_mime(Some("image/x-dds")), Some(ImageFormatHint::Dds));
    assert_eq!(format_from_mime(Some("image/dds")), Some(ImageFormatHint::Dds));
    assert_eq!(format_from_mime(Some("image/gif")), None);
    assert_eq!(format_from_mime(None), None);
}

#[test]
fn decodes_png_by_guess_and_by_hint() {
    let png = encode(image::ImageFormat::Png);
    let img = decode_image_to_rgba(&png, false, no_psd).unwrap();
    assert_eq!((img.width, img.height), (2, 1));
    assert_eq!(img.pixels, vec![10, 20, 30, 255, 40, 50, 60, 255]);
    let img = decode_image_to_rgba_with_hint(&png, false, Some("image/png"), no_psd).unwrap();
    assert_eq!(img.pixels, vec![10, 20, 30, 255, 40, 50, 60, 255]);
    // A wrong hint falls back to guessing from the bytes.
    let img = decode_image_to_rgba_with_hint(&png, false, Some("image/bmp"), no_psd).unwrap();
    assert_eq!(img.width, 2);
}

#[test]
fn tga_needs_its_hint() {
    let tga = encode(image::ImageFormat::Tga);
    assert!(decode_image_to_rgba(&tga, false, no_psd).is_err());
    let img = decode_image_to_rgba_with_hint(&tga, false, Some("image/x-tga"), no_psd).unwrap();
    assert_eq!(img.pixels, vec![10, 20, 30, 255, 40, 50, 60, 255]);
}

#[test]
fn garbage_fails_and_psd_goes_to_its_decoder() {
    let err = decode_image_to_rgba(&[1, 2, 3], false, no_psd).err().unwrap();
    assert!(!err.detail.is_empty());
    let err = decode_image_to_rgba(&[1, 2, 3], true, no_psd).err().unwrap();
    assert_eq!(err.detail, "psd");
}

fn checker(w: u32, h: u32) -> Vec<u8> {
    let mut v = Vec::new();
    for y in 0..h {
        for x in 0..w {
            let c = if (x + y) % 2 == 0 { 255 } else { 0 };
            v.extend_from_slice(&[c, c, c, 255]);
        }
    }
    v
}

#[test]
fn thumbnail_scales_to_the_square_size() {
    let img = image::RgbaImage::from_raw(4, 4, checker(4, 4)).unwrap();
    let mut out = std::io::Cursor::new(Vec::new());
    image::DynamicImage::ImageRgba8(img).write_to(&mut out, image::ImageFormat::Png).unwrap();
    let png = out.into_inner();
    let thumb = create_thumbnail_rgba(&png, false, 2, no_psd).unwrap();
    assert_eq!(thumb.len(), 2 * 2 * 4);
    assert_ne!(thumb, checker(4, 4));
    let big = create_thumbnail_rgba(&png, false, 8, no_psd).unwrap();
    assert_eq!(big.len(), 8 * 8 * 4);
}

#[test]
fn thumbnail_of_same_size_is_a_copy_and_of_empty_is_blank() {
    let px = checker(3, 3);
    let t = thumbnail_from_rgba(RgbaImageData { pixels: px.clone(), width: 3, height: 3 }, 3).unwrap();
    assert_eq!(t, px);
    let t = thumbnail_from_rgba(RgbaImageData { pixels: vec![], width: 0, height: 5 }, 2).unwrap();
    assert_eq!(t, vec![0u8; 16]);
}

#[test]
fn thumbnail_errors() {
    let short = thumbnail_from_rgba(RgbaImageData { pixels: vec![1, 2, 3], width: 1, height: 1 }, 4);
    assert_eq!(short, Err(ThumbnailError::PixelBufferTooShort));
    match create_thumbnail_rgba(&[1, 2, 3], false, 4, no_psd) {
        Err(ThumbnailError::Decode(e)) => assert!(!e.detail.is_empty()),
        other => panic!("unexpected {:?}", other),
    }
    match create_thumbnail_rgba(&[0], true, 4, no_psd) {
        Err(ThumbnailError::Decode(e)) => assert_eq!(e.detail, "psd"),
        other => panic!("unexpected {:?}", other),
    }
    let psd = |_: &[u8]| Ok(RgbaImageData { pixels: checker(2, 2), width: 2, height: 2 });
    assert_eq!(create_thumbnail_rgba(&[0], true, 2, psd), Ok(checker(2, 2)));
}
