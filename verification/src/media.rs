//! Embedded images: which are surfaced, how they are decoded and cropped.
use crate::draw_command::{CropRect, ImageFormat, MediaEntry};
use vstd::prelude::*;

verus! {

/// A decoded image: four bytes per pixel, row by row.
#[derive(Debug)]
pub struct Bitmap {
    pub rgba: Vec<u8>,
    pub width: u32,
    pub height: u32,
}

impl Bitmap {
    /// Whether there are four bytes for each pixel.
    pub open spec fn ok(self) -> bool {
        self.rgba@.len() == 4 * (self.width * self.height)
    }
}

impl View for Bitmap {
    type V = (Seq<u8>, u32, u32);

    open spec fn view(&self) -> (Seq<u8>, u32, u32) {
        (self.rgba@, self.width, self.height)
    }
}

/// What the image decoder makes of `data`: the pixels, the width and the
/// height, or nothing where it cannot read them.
pub uninterp spec fn decoded_rgba(data: Seq<u8>) -> Option<(Seq<u8>, u32, u32)>;

/// The width and height that the header of an encoded image declares.
pub uninterp spec fn declared_dimensions(data: Seq<u8>) -> Option<(u32, u32)>;

/// Decodes an image of any supported format with `image::load_from_memory`
/// and turns it to eight-bit RGBA with `DynamicImage::to_rgba8`. The result is
/// a function of the bytes alone, as long as no decoding hook is registered
/// with the `image` crate, and this crate registers none. It holds four bytes
/// per pixel. What the pixels are is not stated.
#[verifier::external_body]
fn load_rgba(data: &Vec<u8>) -> (r: Option<Bitmap>)
    ensures
        match r {
            Some(b) => decoded_rgba(data@) == Some(b@) && b.ok(),
            None => decoded_rgba(data@) is None,
        },
{
    match image::load_from_memory(data.as_slice()) {
        Ok(decoded) => {
            let pixels = decoded.to_rgba8();
            let (width, height) = pixels.dimensions();
            Some(Bitmap { rgba: pixels.into_raw(), width, height })
        },
        Err(_) => None,
    }
}

/// Reads an encoded image's size with `image::ImageReader::with_guessed_format`
/// and `ImageReader::into_dimensions`. The result is a function of the bytes
/// alone, as long as no decoding hook is registered with the `image` crate.
#[verifier::external_body]
pub(crate) fn read_dimensions(data: &Vec<u8>) -> (r: Option<(u32, u32)>)
    ensures
        r == declared_dimensions(data@),
{
    image::ImageReader::new(std::io::Cursor::new(data.as_slice()))
        .with_guessed_format()
        .ok()
        .and_then(|reader| reader.into_dimensions().ok())
}

/// The part of an image that starts at `(x, y)` and is `w` by `h` pixels
/// large, as far as it lies inside the image.
pub open spec fn cut(
    px: (Seq<u8>, u32, u32),
    x: u32,
    y: u32,
    w: u32,
    h: u32,
) -> (Seq<u8>, u32, u32) {
    let x0 = if x < px.1 {
        x
    } else {
        px.1
    };
    let y0 = if y < px.2 {
        y
    } else {
        px.2
    };
    let cw = if w < px.1 - x0 {
        w
    } else {
        (px.1 - x0) as u32
    };
    let ch = if h < px.2 - y0 {
        h
    } else {
        (px.2 - y0) as u32
    };
    (
        Seq::new(
            (4 * (cw * ch)) as nat,
            |i: int|
                px.0[4 * ((y0 + (i / 4) / (cw as int)) * px.1 + x0 + (i / 4) % (cw as int)) + i
                    % 4],
        ),
        cw,
        ch,
    )
}

/// Cuts a part out of an image with `image::imageops::crop_imm` and
/// `SubImage::to_image`: the part is first brought inside the image, and every
/// pixel of it is the image's pixel at the same place.
#[verifier::external_body]
fn crop_rgba(b: Bitmap, x: u32, y: u32, w: u32, h: u32) -> (r: Bitmap)
    requires
        b.ok(),
    ensures
        r@ == cut(b@, x, y, w, h),
{
    let whole = image::RgbaImage::from_raw(b.width, b.height, b.rgba).unwrap_or_default();
    let part = image::imageops::crop_imm(&whole, x, y, w, h).to_image();
    let (width, height) = part.dimensions();
    Bitmap { rgba: part.into_raw(), width, height }
}

/// Whether a format can be decoded: the vector formats cannot.
pub open spec fn raster_format(format: ImageFormat) -> bool {
    !(format is Emf || format is Wmf || format is Svg || format is Unknown)
}

/// The file extension of a format that is surfaced as an extracted image;
/// `None` for the vector formats, whose bytes most readers cannot use.
pub open spec fn extension_of(format: ImageFormat) -> Option<Seq<char>> {
    match format {
        ImageFormat::Png => Some("png"@),
        ImageFormat::Jpeg => Some("jpg"@),
        ImageFormat::Gif => Some("gif"@),
        ImageFormat::Bmp => Some("bmp"@),
        ImageFormat::Tiff => Some("tiff"@),
        ImageFormat::WebP => Some("webp"@),
        _ => None,
    }
}

/// The file extension of a format that is surfaced as an extracted image.
pub fn media_extension(format: ImageFormat) -> (r: Option<&'static str>)
    ensures
        match r {
            Some(e) => extension_of(format) == Some(e@),
            None => extension_of(format) is None,
        },
{
    match format {
        ImageFormat::Png => Some("png"),
        ImageFormat::Jpeg => Some("jpg"),
        ImageFormat::Gif => Some("gif"),
        ImageFormat::Bmp => Some("bmp"),
        ImageFormat::Tiff => Some("tiff"),
        ImageFormat::WebP => Some("webp"),
        ImageFormat::Svg => None,
        ImageFormat::Emf => None,
        ImageFormat::Wmf => None,
        ImageFormat::Unknown => None,
    }
}

/// `part` millionths of `whole` pixels, to the nearest pixel, and no less than
/// none.
pub open spec fn share(part: i64, whole: u32) -> int {
    if part <= 0 {
        0
    } else {
        (part * whole + 500_000) / 1_000_000
    }
}

/// Where a crop starts along one axis.
pub open spec fn crop_start(part: i64, whole: u32) -> u32 {
    if share(part, whole) > whole {
        whole
    } else {
        share(part, whole) as u32
    }
}

/// How long a crop is along one axis: one pixel at the least, and otherwise
/// not past the far edge.
pub open spec fn crop_length(part: i64, whole: u32, start: u32) -> u32 {
    let room = whole - start;
    let wished = share(part, whole);
    if wished < 1 || room < 1 {
        1
    } else if wished < room {
        wished as u32
    } else {
        room as u32
    }
}

fn share_of(part: i64, whole: u32) -> (r: u128)
    ensures
        r == share(part, whole),
{
    if part <= 0 {
        0
    } else {
        assert(0 <= part * whole <= 0x7fff_ffff_ffff_ffff * 0xffff_ffff) by (nonlinear_arith)
            requires
                0 <= part <= 0x7fff_ffff_ffff_ffff,
                0 <= whole <= 0xffff_ffff,
        ;
        ((part as u128) * (whole as u128) + 500_000) / 1_000_000
    }
}

fn start_of(part: i64, whole: u32) -> (r: u32)
    ensures
        r == crop_start(part, whole),
        r <= whole,
{
    let s: u128 = share_of(part, whole);
    if s > whole as u128 {
        whole
    } else {
        s as u32
    }
}

fn length_of(part: i64, whole: u32, start: u32) -> (r: u32)
    requires
        start <= whole,
    ensures
        r == crop_length(part, whole, start),
{
    let room: u32 = whole - start;
    let wished: u128 = share_of(part, whole);
    if wished < 1 || room < 1 {
        1
    } else if wished < room as u128 {
        wished as u32
    } else {
        room
    }
}

/// The pixels that a crop leaves: all of them without one.
pub open spec fn cropped(px: (Seq<u8>, u32, u32), crop: Option<CropRect>) -> (Seq<u8>, u32, u32) {
    match crop {
        None => px,
        Some(c) => {
            let x = crop_start(c.x, px.1);
            let y = crop_start(c.y, px.2);
            cut(px, x, y, crop_length(c.width, px.1, x), crop_length(c.height, px.2, y))
        },
    }
}

/// One byte of a pixel with its colour scaled by its opacity.
pub open spec fn premultiplied_byte(s: Seq<u8>, i: int) -> u8 {
    let a = s[4 * (i / 4) + 3];
    if i % 4 == 3 || a == 255 {
        s[i]
    } else {
        ((s[i] as int * a as int) / 255) as u8
    }
}

/// Pixels with every colour scaled by its opacity.
pub open spec fn premultiplied(s: Seq<u8>) -> Seq<u8> {
    Seq::new(s.len(), |i: int| premultiplied_byte(s, i))
}

/// The bitmap that is painted for decoded pixels: cropped, premultiplied, and
/// nothing at all where no pixel is left.
pub open spec fn painted_bitmap(
    px: (Seq<u8>, u32, u32),
    crop: Option<CropRect>,
) -> Option<(Seq<u8>, u32, u32)> {
    let c = cropped(px, crop);
    if c.1 == 0 || c.2 == 0 {
        None
    } else {
        Some((premultiplied(c.0), c.1, c.2))
    }
}

/// A colour byte scaled by an opacity.
fn scale_byte(c: u8, a: u8) -> (r: u8)
    ensures
        r == (c as int * a as int) / 255,
        r <= c,
{
    assert(0 <= c * a <= 255 * 255) by (nonlinear_arith)
        requires
            0 <= c <= 255,
            0 <= a <= 255,
    ;
    assert((c as int * a as int) / 255 <= c) by (nonlinear_arith)
        requires
            0 <= c <= 255,
            0 <= a <= 255,
    ;
    ((c as u16 * a as u16) / 255) as u8
}

/// Scales every colour by its opacity.
fn premultiply(rgba: &mut Vec<u8>)
    requires
        old(rgba)@.len() % 4 == 0,
    ensures
        final(rgba)@ == premultiplied(old(rgba)@),
{
    let ghost start = rgba@;
    let n: usize = rgba.len();
    let mut i: usize = 0;
    while i < n
        invariant
            i <= n,
            i % 4 == 0,
            n % 4 == 0,
            n == start.len(),
            rgba@.len() == n,
            forall|j: int| 0 <= j < i ==> rgba@[j] == premultiplied_byte(start, j),
            forall|j: int| i <= j < n ==> rgba@[j] == start[j],
        decreases n - i,
    {
        let a: u8 = rgba[i + 3];
        let ghost s = i as int;
        proof {
            assert(4 * (s / 4) + 3 == s + 3);
            assert((s + 1) / 4 == s / 4 && (s + 2) / 4 == s / 4 && (s + 3) / 4 == s / 4);
            assert((s + 3) % 4 == 3 && s % 4 != 3 && (s + 1) % 4 != 3 && (s + 2) % 4 != 3);
        }
        if a != 255 {
            let c0: u8 = rgba[i];
            rgba.set(i, scale_byte(c0, a));
            let c1: u8 = rgba[i + 1];
            rgba.set(i + 1, scale_byte(c1, a));
            let c2: u8 = rgba[i + 2];
            rgba.set(i + 2, scale_byte(c2, a));
        }
        i += 4;
    }
    assert(rgba@ =~= premultiplied(start));
}

proof fn lemma_cut_ok(px: (Seq<u8>, u32, u32), x: u32, y: u32, w: u32, h: u32)
    ensures
        cut(px, x, y, w, h).0.len() == 4 * (cut(px, x, y, w, h).1 * cut(px, x, y, w, h).2),
{
    let c = cut(px, x, y, w, h);
    assert(c.1 * c.2 >= 0) by (nonlinear_arith)
        requires
            c.1 >= 0,
            c.2 >= 0,
    ;
}

/// Crops and premultiplies a decoded image for painting.
pub fn finish_bitmap(decoded: Bitmap, src_rect: Option<CropRect>) -> (r: Option<Bitmap>)
    requires
        decoded.ok(),
    ensures
        match r {
            Some(b) => painted_bitmap(decoded@, src_rect) == Some(b@) && b.ok(),
            None => painted_bitmap(decoded@, src_rect) is None,
        },
{
    let ghost px = decoded@;
    let mut bitmap = match src_rect {
        Some(c) => {
            let (w, h) = (decoded.width, decoded.height);
            let x: u32 = start_of(c.x, w);
            let y: u32 = start_of(c.y, h);
            let cw: u32 = length_of(c.width, w, x);
            let ch: u32 = length_of(c.height, h, y);
            proof {
                lemma_cut_ok(px, x, y, cw, ch);
            }
            crop_rgba(decoded, x, y, cw, ch)
        },
        None => decoded,
    };
    if bitmap.width == 0 || bitmap.height == 0 {
        return None;
    }
    premultiply(&mut bitmap.rgba);
    Some(bitmap)
}

/// What is painted for one media entry.
pub open spec fn media_bitmap(
    data: Seq<u8>,
    format: ImageFormat,
    crop: Option<CropRect>,
) -> Option<(Seq<u8>, u32, u32)> {
    if !raster_format(format) {
        None
    } else {
        match decoded_rgba(data) {
            Some(px) => painted_bitmap(px, crop),
            None => None,
        }
    }
}

/// Decodes one media entry into a premultiplied bitmap, cropped. A placed
/// picture and a picture fill are decoded alike.
pub fn decode_media(
    data: &Vec<u8>,
    format: ImageFormat,
    src_rect: Option<CropRect>,
) -> (r: Option<Bitmap>)
    ensures
        match r {
            Some(b) => media_bitmap(data@, format, src_rect) == Some(b@) && b.ok(),
            None => media_bitmap(data@, format, src_rect) is None,
        },
{
    match format {
        ImageFormat::Emf => None,
        ImageFormat::Wmf => None,
        ImageFormat::Svg => None,
        ImageFormat::Unknown => None,
        _ => match load_rgba(data) {
            Some(decoded) => finish_bitmap(decoded, src_rect),
            None => None,
        },
    }
}

/// Premultiplying leaves opaque pixels alone, clears fully transparent ones,
/// and never brightens anything.
pub proof fn premultiplying_only_darkens(s: Seq<u8>, i: int)
    requires
        s.len() % 4 == 0,
        0 <= i < s.len(),
    ensures
        premultiplied(s)[i] <= s[i],
        s[4 * (i / 4) + 3] == 255 ==> premultiplied(s)[i] == s[i],
        s[4 * (i / 4) + 3] == 0 && i % 4 != 3 ==> premultiplied(s)[i] == 0,
        i % 4 == 3 ==> premultiplied(s)[i] == s[i],
{
    let a = s[4 * (i / 4) + 3] as int;
    let c = s[i] as int;
    assert((c * a) / 255 <= c && 0 <= (c * a) / 255) by (nonlinear_arith)
        requires
            0 <= c <= 255,
            0 <= a <= 255,
    ;
    if a == 0 {
        assert((c * a) / 255 == 0) by (nonlinear_arith)
            requires
                a == 0,
        ;
    }
}

/// A crop never reaches past the image, and it is never empty unless it starts
/// at the far edge.
pub proof fn crop_stays_inside(px: (Seq<u8>, u32, u32), c: CropRect)
    ensures
        cropped(px, Some(c)).1 <= px.1,
        cropped(px, Some(c)).2 <= px.2,
        crop_start(c.x, px.1) < px.1 ==> cropped(px, Some(c)).1 >= 1,
        crop_start(c.y, px.2) < px.2 ==> cropped(px, Some(c)).2 >= 1,
{
    if c.x > 0 {
        assert(c.x * px.1 >= 0) by (nonlinear_arith)
            requires
                c.x >= 0,
                px.1 >= 0,
        ;
    }
    if c.y > 0 {
        assert(c.y * px.2 >= 0) by (nonlinear_arith)
            requires
                c.y >= 0,
                px.2 >= 0,
        ;
    }
}

/// One decoded image of a cache.
#[derive(Debug)]
pub struct CachedImage {
    pub media: usize,
    pub crop: Option<CropRect>,
    pub bitmap: Option<Bitmap>,
}

/// The decoded images of one page, one for each media part and crop of it. The
/// same part cropped in two ways makes two bitmaps.
#[derive(Debug)]
pub struct ImageCache {
    entries: Vec<CachedImage>,
}

/// The contents of an optional bitmap.
pub open spec fn bitmap_view(b: Option<Bitmap>) -> Option<(Seq<u8>, u32, u32)> {
    match b {
        Some(b) => Some(b@),
        None => None,
    }
}

impl ImageCache {
    /// What has been decoded, by media part and crop.
    pub closed spec fn decoded(self) -> Map<
        (usize, Option<CropRect>),
        Option<(Seq<u8>, u32, u32)>,
    > {
        Map::new(
            |k: (usize, Option<CropRect>)|
                exists|i: int| 0 <= i < self.entries@.len() && #[trigger] self.key_at(i) == k,
            |k: (usize, Option<CropRect>)|
                bitmap_view(self.entries@[self.slot(k)].bitmap),
        )
    }

    spec fn key_at(self, i: int) -> (usize, Option<CropRect>) {
        (self.entries@[i].media, self.entries@[i].crop)
    }

    spec fn slot(self, k: (usize, Option<CropRect>)) -> int {
        choose|i: int| 0 <= i < self.entries@.len() && #[trigger] self.key_at(i) == k
    }

    /// Whether no part and crop was decoded twice.
    pub closed spec fn ok(self) -> bool {
        forall|i: int, j: int|
            0 <= i < self.entries@.len() && 0 <= j < self.entries@.len() && #[trigger] self.key_at(
                i,
            ) == #[trigger] self.key_at(j) ==> i == j
    }

    /// An empty cache.
    pub fn new() -> (r: ImageCache)
        ensures
            r.ok(),
            r.decoded() == Map::<(usize, Option<CropRect>), Option<(Seq<u8>, u32, u32)>>::empty(),
    {
        let r = ImageCache { entries: Vec::new() };
        assert(r.decoded() =~= Map::<
            (usize, Option<CropRect>),
            Option<(Seq<u8>, u32, u32)>,
        >::empty());
        r
    }

    /// The place of a media part's bitmap under a crop, which is decoded now
    /// where it was not before.
    fn place(&mut self, image: &MediaEntry, crop: Option<CropRect>) -> (r: usize)
        requires
            old(self).ok(),
        ensures
            final(self).ok(),
            final(self).decoded() == old(self).decoded_with(*image, crop),
            r < final(self).entries@.len(),
            final(self).key_at(r as int) == (image.media, crop),
    {
        let ghost start = *self;
        let ghost k = (image.media, crop);
        let mut i: usize = 0;
        while i < self.entries.len()
            invariant
                i <= self.entries.len(),
                *self == start,
                start.ok(),
                k == (image.media, crop),
                forall|j: int| 0 <= j < i ==> #[trigger] start.key_at(j) != k,
            decreases self.entries.len() - i,
        {
            if self.entries[i].media == image.media && self.entries[i].crop == crop {
                assert(start.key_at(i as int) == k);
                return i;
            }
            i += 1;
        }
        let bitmap = decode_media(&image.data, image.format, crop);
        let n: usize = self.entries.len();
        self.entries.push(CachedImage { media: image.media, crop, bitmap });
        proof {
            assert forall|j: int| 0 <= j < n implies #[trigger] self.key_at(j) == start.key_at(
                j,
            ) by {}
            assert(self.key_at(n as int) == k);
            assert(!start.decoded().contains_key(k));
            assert(self.ok()) by {
                assert forall|a: int, b: int|
                    0 <= a < self.entries@.len() && 0 <= b < self.entries@.len()
                        && #[trigger] self.key_at(a) == #[trigger] self.key_at(b) implies a == b by {
                    if a < n && b < n {
                        assert(start.key_at(a) == start.key_at(b));
                    }
                    if a < n && b == n {
                        assert(start.key_at(a) != k);
                    }
                    if b < n && a == n {
                        assert(start.key_at(b) != k);
                    }
                }
            }
            let expected = start.decoded().insert(
                k,
                media_bitmap(image.data@, image.format, crop),
            );
            assert forall|q: (usize, Option<CropRect>)|
                self.decoded().contains_key(q) == expected.contains_key(q) by {
                if start.decoded().contains_key(q) {
                    let j = choose|j: int|
                        0 <= j < start.entries@.len() && #[trigger] start.key_at(j) == q;
                    assert(self.key_at(j) == q);
                }
                if self.decoded().contains_key(q) && q != k {
                    let j = choose|j: int|
                        0 <= j < self.entries@.len() && #[trigger] self.key_at(j) == q;
                    assert(start.key_at(j) == q);
                }
            }
            assert forall|q: (usize, Option<CropRect>)|
                self.decoded().contains_key(q) implies #[trigger] self.decoded()[q]
                == expected[q] by {
                let j = self.slot(q);
                assert(self.key_at(j) == q);
                if q == k {
                    assert(j == n) by {
                        assert(self.key_at(n as int) == k);
                    }
                } else {
                    assert(j < n);
                    assert(start.key_at(j) == q);
                    let l = start.slot(q);
                    assert(start.key_at(l) == q);
                    assert(l == j);
                }
            }
            assert(self.decoded() =~= expected);
        }
        n
    }

    /// What has been decoded once `image` was asked for under `crop`.
    pub open spec fn decoded_with(self, image: MediaEntry, crop: Option<CropRect>) -> Map<
        (usize, Option<CropRect>),
        Option<(Seq<u8>, u32, u32)>,
    > {
        if self.decoded().contains_key((image.media, crop)) {
            self.decoded()
        } else {
            self.decoded().insert(
                (image.media, crop),
                media_bitmap(image.data@, image.format, crop),
            )
        }
    }

    /// The bitmap of a media part under a crop. It is decoded the first time
    /// that it is asked for, and every later time the first result is given.
    pub fn get(&mut self, image: &MediaEntry, crop: Option<CropRect>) -> (r: Option<&Bitmap>)
        requires
            old(self).ok(),
        ensures
            final(self).ok(),
            final(self).decoded() == old(self).decoded_with(*image, crop),
            match r {
                Some(b) => final(self).decoded()[(image.media, crop)] == Some(b@),
                None => final(self).decoded()[(image.media, crop)] is None,
            },
    {
        let slot: usize = self.place(image, crop);
        proof {
            let k = (image.media, crop);
            assert(self.key_at(slot as int) == k);
            assert(self.decoded().contains_key(k));
            let l = self.slot(k);
            assert(self.key_at(l) == k);
        }
        match &self.entries[slot].bitmap {
            Some(b) => Some(b),
            None => None,
        }
    }
}

/// Asking again for the same part under the same crop decodes nothing and
/// gives what the first request gave, and a request under another crop leaves
/// it alone.
pub proof fn cache_answers_alike(cache: ImageCache, a: MediaEntry, x: Option<CropRect>)
    requires
        cache.decoded().contains_key((a.media, x)),
    ensures
        cache.decoded_with(a, x) == cache.decoded(),
        forall|b: MediaEntry, y: Option<CropRect>| #[trigger]
            cache.decoded_with(b, y)[(a.media, x)] == cache.decoded()[(a.media, x)],
{
}

}
