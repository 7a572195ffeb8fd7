//! Pictures of natively laid out pages.
use crate::config::LiteParseConfig;
use crate::flow::OfficeKind;
use crate::geometry::PtSize;
use crate::parser::{LiteParseError, ScreenshotResult};
use crate::raster;
use crate::raster::RasterPage;
use crate::text;
use crate::types::ScreenshotRect;
use vstd::prelude::*;

verus! {

/// Whether all pixels of a picture, four bytes each, have one colour.
pub open spec fn one_color(rgba: Seq<u8>) -> bool {
    forall|i: int| 0 <= i < rgba.len() - rgba.len() % 4 ==> #[trigger] rgba[i] == rgba[i % 4]
}

/// Whether all pixels of a picture have one colour.
pub fn is_solid_fill(rgba: &Vec<u8>) -> (r: bool)
    ensures
        r == one_color(rgba@),
{
    let n: usize = rgba.len() - rgba.len() % 4;
    let mut i: usize = 0;
    while i < n
        invariant
            i <= n <= rgba@.len(),
            n == rgba@.len() - rgba@.len() % 4,
            forall|k: int| 0 <= k < i ==> #[trigger] rgba@[k] == rgba@[k % 4],
        decreases n - i,
    {
        if rgba[i] != rgba[i % 4] {
            assert(rgba@[i as int] != rgba@[i as int % 4]);
            return false;
        }
        i += 1;
    }
    true
}

/// The numbers of the pages to draw: those asked for, or all of them.
pub open spec fn pages_to_draw(page_numbers: Option<Vec<u32>>, count: u32) -> Seq<u32> {
    match page_numbers {
        Some(numbers) => numbers@,
        None => Seq::new(count as nat, |i: int| (i + 1) as u32),
    }
}

fn list_pages(page_numbers: &Option<Vec<u32>>, count: u32) -> (r: Vec<u32>)
    ensures
        r@ == pages_to_draw(*page_numbers, count),
{
    let mut out: Vec<u32> = Vec::new();
    match page_numbers {
        Some(numbers) => {
            let mut i: usize = 0;
            while i < numbers.len()
                invariant
                    i <= numbers@.len(),
                    out@ == numbers@.take(i as int),
                decreases numbers@.len() - i,
            {
                out.push(numbers[i]);
                i += 1;
                assert(out@ =~= numbers@.take(i as int));
            }
            assert(out@ =~= numbers@);
        },
        None => {
            let mut k: u32 = 0;
            while k < count
                invariant
                    k <= count,
                    out@.len() == k,
                    forall|i: int| 0 <= i < k ==> #[trigger] out@[i] == i + 1,
                decreases count - k,
            {
                k += 1;
                out.push(k);
            }
            assert(out@ =~= pages_to_draw(*page_numbers, count));
        },
    }
    out
}

/// What a document and its pages are called, by its format.
pub fn page_words(kind: OfficeKind) -> (r: (&'static str, &'static str))
    ensures
        match kind {
            OfficeKind::Docx => r.0@ == "document"@ && r.1@ == "pages"@,
            OfficeKind::Pptx => r.0@ == "deck"@ && r.1@ == "slides"@,
            OfficeKind::Xlsx => r.0@ == "workbook"@ && r.1@ == "pages"@,
        },
{
    match kind {
        OfficeKind::Docx => ("document", "pages"),
        OfficeKind::Pptx => ("deck", "slides"),
        OfficeKind::Xlsx => ("workbook", "pages"),
    }
}

/// What is said of a page that is not there.
pub open spec fn out_of_range(
    page: u32,
    container: Seq<char>,
    count: u32,
    noun: Seq<char>,
) -> Seq<char> {
    "page "@ + text::decimal(page as nat) + " out of range ("@ + container + " has "@
        + text::decimal(count as nat) + " "@ + noun + ")"@
}

fn out_of_range_words(page: u32, container: &str, count: u32, noun: &str) -> (r: String)
    ensures
        r@ == out_of_range(page, container@, count, noun@),
{
    let mut out = String::new();
    text::push_text(&mut out, "page ");
    text::push_decimal(&mut out, page as u64);
    text::push_text(&mut out, " out of range (");
    text::push_text(&mut out, container);
    text::push_text(&mut out, " has ");
    text::push_decimal(&mut out, count as u64);
    text::push_text(&mut out, " ");
    text::push_text(&mut out, noun);
    text::push_text(&mut out, ")");
    assert(out@ =~= out_of_range(page, container@, count, noun@));
    out
}

/// What makes pictures of pages.
pub struct Painter<D, F, P> {
    /// Draws the page with this number, counted from 0, at this scale.
    pub draw: D,
    /// Finds the solid boxes of a picture.
    pub find: F,
    /// Packs a picture up as a file.
    pub encode: P,
}

/// Whether a picture is that of a page. Boxes are looked for only where they are
/// wanted, and never in a picture of one colour, where there are none to find.
pub open spec fn is_shot<
    D: Fn(usize, u64) -> Result<RasterPage, String>,
    F: Fn(&RasterPage) -> Vec<ScreenshotRect>,
    P: Fn(&RasterPage) -> Result<Vec<u8>, LiteParseError>,
>(
    shot: ScreenshotResult,
    page: u32,
    dpi: u64,
    wanted: bool,
    painter: Painter<D, F, P>,
) -> bool {
    exists|raster: RasterPage|
        {
            &&& #[trigger] call_ensures(
                painter.draw,
                ((page - 1) as usize, dpi),
                Ok::<RasterPage, String>(raster),
            )
            &&& call_ensures(
                painter.encode,
                (&raster,),
                Ok::<Vec<u8>, LiteParseError>(shot.image_bytes),
            )
            &&& shot.page_num == page
            &&& shot.width == raster.width
            &&& shot.height == raster.height
            &&& shot.is_solid_fill == one_color(raster.rgba@)
            &&& if wanted && !shot.is_solid_fill {
                call_ensures(painter.find, (&raster,), shot.rects)
            } else {
                shot.rects@.len() == 0
            }
        }
}

/// Whether there is a picture of a page.
pub open spec fn can_be_shot<
    D: Fn(usize, u64) -> Result<RasterPage, String>,
    F: Fn(&RasterPage) -> Vec<ScreenshotRect>,
    P: Fn(&RasterPage) -> Result<Vec<u8>, LiteParseError>,
>(page: u32, dpi: u64, wanted: bool, painter: Painter<D, F, P>) -> bool {
    exists|shot: ScreenshotResult| #[trigger] is_shot(shot, page, dpi, wanted, painter)
}

/// Whether a page cannot be drawn, for this reason.
pub open spec fn is_shot_error<
    D: Fn(usize, u64) -> Result<RasterPage, String>,
    F: Fn(&RasterPage) -> Vec<ScreenshotRect>,
    P: Fn(&RasterPage) -> Result<Vec<u8>, LiteParseError>,
>(
    e: LiteParseError,
    page: u32,
    count: u32,
    dpi: u64,
    container: Seq<char>,
    noun: Seq<char>,
    painter: Painter<D, F, P>,
) -> bool {
    if page < 1 || page > count {
        e.says(out_of_range(page, container, count, noun))
    } else {
        ||| e matches LiteParseError::Conversion(why) && call_ensures(
            painter.draw,
            ((page - 1) as usize, dpi),
            Err::<RasterPage, String>(why),
        )
        ||| exists|raster: RasterPage|
            {
                &&& #[trigger] call_ensures(
                    painter.draw,
                    ((page - 1) as usize, dpi),
                    Ok::<RasterPage, String>(raster),
                )
                &&& call_ensures(painter.encode, (&raster,), Err::<Vec<u8>, LiteParseError>(e))
            }
    }
}

/// The picture of one page.
fn shoot_page<
    D: Fn(usize, u64) -> Result<RasterPage, String>,
    F: Fn(&RasterPage) -> Vec<ScreenshotRect>,
    P: Fn(&RasterPage) -> Result<Vec<u8>, LiteParseError>,
>(
    page: u32,
    count: u32,
    dpi: u64,
    wanted: bool,
    container: &str,
    noun: &str,
    painter: &Painter<D, F, P>,
) -> (r: Result<ScreenshotResult, LiteParseError>)
    requires
        forall|i: usize, dpi: u64| i < count ==> call_requires(painter.draw, (i, dpi)),
        forall|p: &RasterPage| call_requires(painter.find, (p,)),
        forall|p: &RasterPage| call_requires(painter.encode, (p,)),
    ensures
        match r {
            Ok(shot) => 1 <= page <= count && is_shot(shot, page, dpi, wanted, *painter),
            Err(e) => is_shot_error(e, page, count, dpi, container@, noun@, *painter),
        },
{
    if page < 1 || page > count {
        return Err(LiteParseError::Other(out_of_range_words(page, container, count, noun)));
    }
    let index: usize = (page - 1) as usize;
    let raster = match (painter.draw)(index, dpi) {
        Ok(raster) => raster,
        Err(why) => {
            return Err(LiteParseError::Conversion(why));
        },
    };
    assert(call_ensures(
        painter.draw,
        ((page - 1) as usize, dpi),
        Ok::<RasterPage, String>(raster),
    ));
    let solid = is_solid_fill(&raster.rgba);
    let rects: Vec<ScreenshotRect> = if wanted && !solid {
        (painter.find)(&raster)
    } else {
        Vec::new()
    };
    let image_bytes = match (painter.encode)(&raster) {
        Ok(bytes) => bytes,
        Err(e) => {
            return Err(e);
        },
    };
    let shot = ScreenshotResult {
        page_num: page,
        width: raster.width,
        height: raster.height,
        image_bytes,
        is_solid_fill: solid,
        rects,
    };
    assert(is_shot(shot, page, dpi, wanted, *painter));
    Ok(shot)
}

/// The pictures of some pages of a document, a deck or a workbook, at the scale
/// that the options ask for, one after the other up to the first that cannot be
/// drawn. A document without any page was not read at all, so that is the
/// engine's failure. `container` and `noun` say what the document and its pages
/// are called.
pub fn rasterize_native_pages<
    D: Fn(usize, u64) -> Result<RasterPage, String>,
    F: Fn(&RasterPage) -> Vec<ScreenshotRect>,
    P: Fn(&RasterPage) -> Result<Vec<u8>, LiteParseError>,
>(
    config: &LiteParseConfig,
    count: u32,
    page_numbers: &Option<Vec<u32>>,
    container: &str,
    noun: &str,
    painter: &Painter<D, F, P>,
) -> (r: Result<Vec<ScreenshotResult>, LiteParseError>)
    requires
        forall|i: usize, dpi: u64| i < count ==> call_requires(painter.draw, (i, dpi)),
        forall|p: &RasterPage| call_requires(painter.find, (p,)),
        forall|p: &RasterPage| call_requires(painter.encode, (p,)),
    ensures
        ({
            let pages = pages_to_draw(*page_numbers, count);
            match r {
                Ok(shots) => {
                    &&& count > 0
                    &&& shots@.len() == pages.len()
                    &&& forall|k: int|
                        0 <= k < pages.len() ==> 1 <= pages[k] <= count && is_shot(
                            #[trigger] shots@[k],
                            pages[k],
                            config.dpi,
                            config.detect_screenshot_rects,
                            *painter,
                        )
                },
                Err(e) => if count == 0 {
                    e matches LiteParseError::Conversion(s) && s@
                        == "native layout produced no "@ + noun@
                } else {
                    exists|k: int|
                        0 <= k < pages.len() && #[trigger] is_shot_error(
                            e,
                            pages[k],
                            count,
                            config.dpi,
                            container@,
                            noun@,
                            *painter,
                        ) && forall|j: int|
                            0 <= j < k ==> 1 <= #[trigger] pages[j] <= count && can_be_shot(
                                pages[j],
                                config.dpi,
                                config.detect_screenshot_rects,
                                *painter,
                            )
                },
            }
        }),
{
    if count == 0 {
        let mut words = String::new();
        text::push_text(&mut words, "native layout produced no ");
        text::push_text(&mut words, noun);
        assert(words@ =~= "native layout produced no "@ + noun@);
        return Err(LiteParseError::Conversion(words));
    }
    let pages = list_pages(page_numbers, count);
    let mut shots: Vec<ScreenshotResult> = Vec::new();
    let mut k: usize = 0;
    while k < pages.len()
        invariant
            count > 0,
            k <= pages@.len(),
            pages@ == pages_to_draw(*page_numbers, count),
            forall|i: usize, dpi: u64| i < count ==> call_requires(painter.draw, (i, dpi)),
            forall|p: &RasterPage| call_requires(painter.find, (p,)),
            forall|p: &RasterPage| call_requires(painter.encode, (p,)),
            shots@.len() == k,
            forall|j: int|
                0 <= j < k ==> is_shot(
                    #[trigger] shots@[j],
                    pages@[j],
                    config.dpi,
                    config.detect_screenshot_rects,
                    *painter,
                ),
            forall|j: int| 0 <= j < k ==> 1 <= #[trigger] pages@[j] <= count,
        decreases pages@.len() - k,
    {
        match shoot_page(
            pages[k],
            count,
            config.dpi,
            config.detect_screenshot_rects,
            container,
            noun,
            painter,
        ) {
            Ok(shot) => {
                shots.push(shot);
            },
            Err(e) => {
                assert(is_shot_error(
                    e,
                    pages@[k as int],
                    count,
                    config.dpi,
                    container@,
                    noun@,
                    *painter,
                ));
                assert forall|j: int| 0 <= j < k implies 1 <= #[trigger] pages@[j] <= count
                    && can_be_shot(
                    pages@[j],
                    config.dpi,
                    config.detect_screenshot_rects,
                    *painter,
                ) by {
                    assert(is_shot(
                        shots@[j],
                        pages@[j],
                        config.dpi,
                        config.detect_screenshot_rects,
                        *painter,
                    ));
                }
                return Err(e);
            },
        }
        k += 1;
    }
    Ok(shots)
}

/// Whether a picture has the size that a page of this size has at this scale,
/// which is brought down where the picture would be too large.
pub open spec fn fills_frame(raster: RasterPage, size: PtSize, dpi: u64) -> bool {
    let clamped = !raster::within_ceiling(size.width, size.height, dpi as int);
    &&& raster::is_effective(size.width, size.height, dpi as int, raster.scale as int)
    &&& raster.width == raster::pixels(size.width, raster.scale, clamped)
    &&& raster.height == raster::pixels(size.height, raster.scale, clamped)
}

/// Where pages are drawn at the size that the scale gives them, the picture of a
/// page that is not too large has, along each side, as many pixels as the side has
/// points, times the dots per inch and over 72, to the nearest pixel.
pub proof fn points_become_pixels<
    D: Fn(usize, u64) -> Result<RasterPage, String>,
    F: Fn(&RasterPage) -> Vec<ScreenshotRect>,
    P: Fn(&RasterPage) -> Result<Vec<u8>, LiteParseError>,
>(
    shot: ScreenshotResult,
    page: u32,
    dpi: u64,
    wanted: bool,
    painter: Painter<D, F, P>,
    sizes: Seq<PtSize>,
)
    requires
        is_shot(shot, page, dpi, wanted, painter),
        1 <= page <= sizes.len(),
        forall|i: usize, raster: RasterPage|
            i < sizes.len() && #[trigger] call_ensures(
                painter.draw,
                (i, dpi),
                Ok::<RasterPage, String>(raster),
            ) ==> fills_frame(raster, sizes[i as int], dpi),
        raster::within_ceiling(sizes[page - 1].width, sizes[page - 1].height, dpi as int),
    ensures
        shot.width == raster::pixels(sizes[page - 1].width, dpi, false),
        shot.height == raster::pixels(sizes[page - 1].height, dpi, false),
{
    let drawn = choose|raster: RasterPage|
        {
            &&& #[trigger] call_ensures(
                painter.draw,
                ((page - 1) as usize, dpi),
                Ok::<RasterPage, String>(raster),
            )
            &&& shot.width == raster.width
            &&& shot.height == raster.height
        };
    assert(fills_frame(drawn, sizes[page - 1], dpi));
}

/// Without a selection every page that there is gets drawn, once and in order.
pub proof fn all_pages_are_in_range(count: u32, k: int)
    requires
        0 <= k < count,
    ensures
        pages_to_draw(None, count).len() == count,
        pages_to_draw(None, count)[k] == k + 1,
{
}

}
