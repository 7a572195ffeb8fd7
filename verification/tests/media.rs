use liteparse::draw_command::{CropRect, ImageFormat, MediaEntry};
use liteparse::media::{decode_media, finish_bitmap, media_extension, Bitmap, ImageCache};

fn png(width: u32, height: u32, pixels: &[[u8; 4]]) -> Vec<u8> {
    let mut img = image::RgbaImage::new(width, height);
    for (i, p) in pixels.iter().enumerate() {
        let i = i as u32;
        img.put_pixel(i % width, i / width, image::Rgba(*p));
    }
    let mut out = std::io::Cursor::new(Vec::new());
    img.write_to(&mut out, image::ImageFormat::Png).expect("encode");
    out.into_inner()
}

const RED: [u8; 4] = [255, 0, 0, 255];
const BLUE: [u8; 4] = [0, 0, 255, 255];

#[test]
fn a_picture_is_decoded_pixel_by_pixel() {
    let data = png(2, 1, &[RED, [100, 200, 50, 128]]);
    let bitmap = decode_media(&data, ImageFormat::Png, None).unwrap();
    assert_eq!((bitmap.width, bitmap.height), (2, 1));
    assert_eq!(&bitmap.rgba[..4], &RED);
    // Colours are weighted by their opacity.
    assert_eq!(bitmap.rgba[7], 128);
    assert!(bitmap.rgba[4] <= 51 && bitmap.rgba[4] >= 50);
    assert!(bitmap.rgba[5] <= 101 && bitmap.rgba[5] >= 100);
}

#[test]
fn what_is_no_picture_gives_none() {
    assert!(decode_media(&vec![1, 2, 3], ImageFormat::Png, None).is_none());
    let data = png(1, 1, &[RED]);
    assert!(decode_media(&data, ImageFormat::Svg, None).is_none());
    assert!(decode_media(&data, ImageFormat::Emf, None).is_none());
}

#[test]
fn a_crop_takes_its_part_of_the_picture() {
    let data = png(4, 2, &[RED, RED, BLUE, BLUE, RED, RED, BLUE, BLUE]);
    let right = CropRect { x: 500_000, y: 0, width: 500_000, height: 1_000_000 };
    let half = decode_media(&data, ImageFormat::Png, Some(right)).unwrap();
    assert_eq!((half.width, half.height), (2, 2));
    for p in half.rgba.chunks(4) {
        assert_eq!(p, BLUE);
    }
}

#[test]
fn cropping_stays_inside_the_picture() {
    let whole = || Bitmap {
        rgba: [RED, BLUE, RED, BLUE].concat(),
        width: 2,
        height: 2,
    };
    let far = CropRect { x: 900_000, y: 900_000, width: 5_000_000, height: 5_000_000 };
    let cut = finish_bitmap(whole(), Some(far));
    if let Some(b) = cut {
        assert!(b.width <= 2 && b.height <= 2);
    }
    let same = finish_bitmap(whole(), None).unwrap();
    assert_eq!(same.rgba, [RED, BLUE, RED, BLUE].concat());
}

#[test]
fn formats_have_their_extensions() {
    assert_eq!(media_extension(ImageFormat::Jpeg), Some("jpg"));
    assert_eq!(media_extension(ImageFormat::Tiff), Some("tiff"));
    assert_eq!(media_extension(ImageFormat::Wmf), None);
}

#[test]
fn a_cache_answers_alike() {
    let entry = MediaEntry {
        media: 9,
        data: png(1, 1, &[RED]),
        format: ImageFormat::Png,
    };
    let mut cache = ImageCache::new();
    let first = cache.get(&entry, None).unwrap().rgba.clone();
    let again = cache.get(&entry, None).unwrap().rgba.clone();
    assert_eq!(first, again);
    assert_eq!(first, RED.to_vec());
    let broken = MediaEntry { media: 10, data: vec![0], format: ImageFormat::Png };
    assert!(cache.get(&broken, None).is_none());
}
