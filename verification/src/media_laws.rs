//! What the images of a document keep of the parts that they were placed from, and its
//! pages of their columns.
use crate::columns;
use crate::columns::SectionColumns;
use crate::docx_images;
use crate::docx_images::PlacedImage;
use crate::draw_command::{CropRect, DrawCommand, ImageFormat, LayoutedPage};
use crate::images;
use crate::media;
use crate::page_object;
use crate::page_object::{PageObjectKind, SegmentKind};
use crate::text;
use crate::types::ExtractedImage;
use std::collections::VecDeque;
use vstd::prelude::*;

verus! {

// ── Pixels ─────────────────────────────────────────────────────────────

/// Whether a number of pixels is a part, in millionths, of a whole, to the nearest one.
pub open spec fn is_share(n: int, part: int, whole: int) -> bool {
    &&& part <= 0 ==> n == 0
    &&& part > 0 ==> part * whole - 500_000 < 1_000_000 * n <= part * whole + 500_000
}

/// A crop begins at its part of the image and takes its part of it, to the nearest
/// pixel: no further than the image goes, and at least one pixel.
pub proof fn crops_take_their_part(part: i64, whole: u32, start: u32)
    requires
        start <= whole,
    ensures
        ({
            let s = media::crop_start(part, whole) as int;
            let n = media::crop_length(part, whole, start) as int;
            &&& s == whole || is_share(s, part as int, whole as int)
            &&& s <= whole
            &&& n == 1 || n == whole - start || is_share(n, part as int, whole as int)
            &&& n >= 1
            &&& start < whole ==> n <= whole - start
            &&& 0 <= part <= 1_000_000 ==> is_share(s, part as int, whole as int)
        }),
{
    let p = part * whole;
    if part > 0 {
        assert(p >= 0) by (nonlinear_arith)
            requires
                p == part * whole,
                part > 0,
                whole >= 0,
        ;
        let q = (p + 500_000) / 1_000_000;
        assert(p - 500_000 < 1_000_000 * q <= p + 500_000);
        if part <= 1_000_000 {
            assert(p <= 1_000_000 * whole) by (nonlinear_arith)
                requires
                    p == part * whole,
                    part <= 1_000_000,
                    whole >= 0,
            ;
        }
    }
}

proof fn lemma_index(u: int, v: int, w: int, c: int)
    requires
        0 <= u < w,
        0 <= v,
        0 <= c < 4,
    ensures
        (4 * (v * w + u) + c) / 4 == v * w + u,
        (4 * (v * w + u) + c) % 4 == c,
        (v * w + u) / w == v,
        (v * w + u) % w == u,
{
    vstd::arithmetic::div_mod::lemma_fundamental_div_mod_converse(v * w + u, w, v, u);
}

/// A cut-out shows the pixels of the image that it was cut from: the one in its column
/// and row is that of the image as many columns and rows beyond the corner.
pub proof fn cut_outs_show_the_pixels_of_the_image(
    px: (Seq<u8>, u32, u32),
    x: u32,
    y: u32,
    w: u32,
    h: u32,
    u: int,
    v: int,
    c: int,
)
    requires
        x + w <= px.1,
        y + h <= px.2,
        0 <= u < w,
        0 <= v < h,
        0 <= c < 4,
    ensures
        media::cut(px, x, y, w, h).1 == w,
        media::cut(px, x, y, w, h).2 == h,
        media::cut(px, x, y, w, h).0.len() == 4 * (w * h),
        media::cut(px, x, y, w, h).0[4 * (v * w + u) + c] == px.0[4 * ((y + v) * px.1 + x + u)
            + c],
{
    lemma_index(u, v, w as int, c);
    assert(0 <= 4 * (v * w + u) + c < 4 * (w * h)) by (nonlinear_arith)
        requires
            0 <= u < w,
            0 <= v < h,
            0 <= c < 4,
    ;
}

/// An image without a crop stays whole; one with a crop is cut at its left and top part
/// to its width and height.
pub proof fn crops_cut_at_their_corner(px: (Seq<u8>, u32, u32), c: CropRect)
    ensures
        media::cropped(px, None) == px,
        ({
            let x = media::crop_start(c.x, px.1);
            let y = media::crop_start(c.y, px.2);
            media::cropped(px, Some(c)) == media::cut(
                px,
                x,
                y,
                media::crop_length(c.width, px.1, x),
                media::crop_length(c.height, px.2, y),
            )
        }),
{
}

/// Colours are scaled by the opacity of their pixel, rounded down; the opacity itself
/// stays.
pub proof fn colours_are_scaled_by_their_opacity(s: Seq<u8>, p: int, c: int)
    requires
        s.len() % 4 == 0,
        0 <= p,
        4 * p < s.len(),
        0 <= c < 4,
    ensures
        ({
            let r = media::premultiplied(s);
            let a = s[4 * p + 3] as int;
            &&& r.len() == s.len()
            &&& r[4 * p + 3] == a
            &&& c < 3 ==> 255 * r[4 * p + c] <= s[4 * p + c] * a < 255 * r[4 * p + c] + 255
        }),
{
    let a = s[4 * p + 3] as int;
    let b = s[4 * p + c] as int;
    assert((4 * p + c) / 4 == p && (4 * p + 3) / 4 == p);
    assert(0 <= b * a <= 255 * 255) by (nonlinear_arith)
        requires
            0 <= b <= 255,
            0 <= a <= 255,
    ;
    if a == 255 {
        assert(b * a == 255 * b) by (nonlinear_arith)
            requires
                a == 255,
        ;
    }
}

/// Only images made of pixels are painted; drawings and unknown formats are not.
pub proof fn drawings_are_not_painted(data: Seq<u8>, format: ImageFormat, crop: Option<CropRect>)
    ensures
        format is Svg || format is Emf || format is Wmf || format is Unknown
            ==> media::media_bitmap(data, format, crop) is None,
        !(format is Svg || format is Emf || format is Wmf || format is Unknown)
            ==> media::media_bitmap(data, format, crop) == (match media::decoded_rgba(data) {
            Some(px) => media::painted_bitmap(px, crop),
            None => None,
        }),
{
}

/// An image is told by the usual ending of its format, and a drawing by none.
pub proof fn formats_have_their_usual_ending(format: ImageFormat)
    ensures
        match format {
            ImageFormat::Png => media::extension_of(format) == Some(seq!['p', 'n', 'g']),
            ImageFormat::Jpeg => media::extension_of(format) == Some(seq!['j', 'p', 'g']),
            ImageFormat::Gif => media::extension_of(format) == Some(seq!['g', 'i', 'f']),
            ImageFormat::Bmp => media::extension_of(format) == Some(seq!['b', 'm', 'p']),
            ImageFormat::Tiff => media::extension_of(format) == Some(seq!['t', 'i', 'f', 'f']),
            ImageFormat::WebP => media::extension_of(format) == Some(seq!['w', 'e', 'b', 'p']),
            _ => media::extension_of(format) is None,
        },
{
    reveal_strlit("png");
    reveal_strlit("jpg");
    reveal_strlit("gif");
    reveal_strlit("bmp");
    reveal_strlit("tiff");
    reveal_strlit("webp");
    assert("png"@ =~= seq!['p', 'n', 'g']);
    assert("jpg"@ =~= seq!['j', 'p', 'g']);
    assert("gif"@ =~= seq!['g', 'i', 'f']);
    assert("bmp"@ =~= seq!['b', 'm', 'p']);
    assert("tiff"@ =~= seq!['t', 'i', 'f', 'f']);
    assert("webp"@ =~= seq!['w', 'e', 'b', 'p']);
}

// ── Placed images ──────────────────────────────────────────────────────

/// The images of a page are placed in the order in which they were drawn, numbered
/// from one, each with its page, its part, its bytes and its own box; drawings are not
/// counted.
pub proof fn images_are_numbered_on_their_page(cmds: Seq<DrawCommand>, page: int, n: int)
    requires
        0 < n <= cmds.len(),
    ensures
        ({
            let before = docx_images::page_placements(cmds, page, n - 1);
            let after = docx_images::page_placements(cmds, page, n);
            let c = cmds[n - 1];
            let told = c is Image && media::extension_of(c->Image_image_data.format) is Some;
            &&& docx_images::page_placements(cmds, page, 0).len() == 0
            &&& !told ==> after == before
            &&& told ==> {
                &&& after.len() == before.len() + 1
                &&& after.take(before.len() as int) == before
                &&& after.last().page == page
                &&& after.last().number == after.len()
                &&& after.last().media == c->Image_image_data.media
                &&& after.last().data == c->Image_image_data.data@
                &&& Some(after.last().ext) == media::extension_of(c->Image_image_data.format)
                &&& after.last().rect.x == c->Image_rect.origin.x
                &&& after.last().rect.y == c->Image_rect.origin.y
                &&& after.last().rect.width == c->Image_rect.size.width
                &&& after.last().rect.height == c->Image_rect.size.height
            }
        }),
{
    let before = docx_images::page_placements(cmds, page, n - 1);
    let after = docx_images::page_placements(cmds, page, n);
    if cmds[n - 1] is Image && media::extension_of(cmds[n - 1]->Image_image_data.format) is Some {
        assert(after.take(before.len() as int) =~= before);
    }
}

/// The images of a document are those of its pages, page by page, counted from one.
pub proof fn images_are_gathered_page_by_page(layouted: Seq<LayoutedPage>, n: int)
    requires
        0 < n <= layouted.len(),
    ensures
        docx_images::placements(layouted, 0).len() == 0,
        docx_images::placements(layouted, n) == docx_images::placements(layouted, n - 1)
            + docx_images::page_placements(
            layouted[n - 1].commands@,
            n,
            layouted[n - 1].commands@.len() as int,
        ),
{
}

/// An image is told by its page and its number there, has the box in which it was
/// placed and the bytes of its part, and the size that those declare, or none.
pub proof fn images_tell_where_they_were_placed(
    found: Seq<ExtractedImage>,
    all: Seq<PlacedImage>,
    k: int,
)
    requires
        docx_images::are_entries(found, all, all.len() as int),
        0 <= k < all.len(),
        all[k].page >= 0,
        all[k].number >= 0,
    ensures
        found.len() == all.len(),
        found[k].page == all[k].page,
        found[k].bbox.x == all[k].rect.x,
        found[k].bbox.y == all[k].rect.y,
        found[k].bbox.width == all[k].rect.width,
        found[k].bbox.height == all[k].rect.height,
        found[k].bytes@ == all[k].data,
        found[k].format@ == all[k].ext,
        found[k].rotation.units == 0,
        found[k].path is None,
        match media::declared_dimensions(all[k].data) {
            Some(d) => found[k].width == d.0 && found[k].height == d.1,
            None => found[k].width == 0 && found[k].height == 0,
        },
        found[k].id@ == seq!['p'] + text::decimal(all[k].page as nat) + seq!['_'] + text::decimal(
            all[k].number as nat,
        ),
        found[k].name@ == seq!['i', 'm', 'g', '_'] + found[k].id@ + seq!['.'] + found[k].format@,
{
    assert(docx_images::is_image_entry(
        found[k],
        all[k],
        media::declared_dimensions(all[k].data),
        docx_images::original_of(all, k),
    ));
    reveal_strlit("p");
    reveal_strlit("_");
    reveal_strlit("img_");
    reveal_strlit(".");
    assert("p"@ =~= seq!['p']);
    assert("_"@ =~= seq!['_']);
    assert("img_"@ =~= seq!['i', 'm', 'g', '_']);
    assert("."@ =~= seq!['.']);
}

proof fn lemma_first_with(all: Seq<PlacedImage>, data: Seq<u8>, n: int)
    requires
        0 <= n <= all.len(),
    ensures
        match docx_images::first_with(all, data, n) {
            Some(i) => 0 <= i < n && all[i].data == data && forall|j: int|
                0 <= j < i ==> (#[trigger] all[j]).data != data,
            None => forall|j: int| 0 <= j < n ==> (#[trigger] all[j]).data != data,
        },
    decreases n,
{
    if n > 0 {
        lemma_first_with(all, data, n - 1);
    }
}

/// An image repeats another exactly where the same bytes were placed before it, and
/// then it names the first that has them.
pub proof fn repeated_images_name_the_first(
    found: Seq<ExtractedImage>,
    all: Seq<PlacedImage>,
    k: int,
)
    requires
        docx_images::are_entries(found, all, all.len() as int),
        0 <= k < all.len(),
    ensures
        match found[k].duplicate_of {
            Some(id) => exists|i: int|
                {
                    &&& 0 <= i < k
                    &&& (#[trigger] found[i]).id@ == id@
                    &&& found[i].bytes@ == found[k].bytes@
                    &&& forall|j: int|
                        0 <= j < i ==> (#[trigger] found[j]).bytes@ != found[k].bytes@
                },
            None => forall|j: int| 0 <= j < k ==> (#[trigger] found[j]).bytes@ != found[k].bytes@,
        },
{
    lemma_first_with(all, all[k].data, k);
    assert forall|j: int| 0 <= j < all.len() implies (#[trigger] found[j]).bytes@ == all[j].data
        && found[j].id@ == docx_images::image_id(all[j].page, all[j].number) by {
        assert(docx_images::is_image_entry(
            found[j],
            all[j],
            media::declared_dimensions(all[j].data),
            docx_images::original_of(all, j),
        ));
    }
    assert(docx_images::is_image_entry(
        found[k],
        all[k],
        media::declared_dimensions(all[k].data),
        docx_images::original_of(all, k),
    ));
    if let Some(i) = docx_images::first_with(all, all[k].data, k) {
        assert(found[i].bytes@ == found[k].bytes@);
    }
}

/// The figures of a part are its placements, in order, by their names and endings.
pub proof fn figures_of_a_part_are_its_placements(all: Seq<PlacedImage>, part: usize, n: int)
    requires
        0 < n <= all.len(),
    ensures
        ({
            let before = docx_images::figure_queue(all, part, n - 1);
            let after = docx_images::figure_queue(all, part, n);
            let p = all[n - 1];
            &&& docx_images::figure_queue(all, part, 0).len() == 0
            &&& p.media == part ==> after == before.push(
                (docx_images::image_id(p.page, p.number), p.ext),
            )
            &&& p.media != part ==> after == before
        }),
{
}

/// The boxes of a page's images are those in which they were drawn, in order.
pub proof fn image_boxes_are_those_drawn(cmds: Seq<DrawCommand>, n: int)
    requires
        0 < n <= cmds.len(),
    ensures
        ({
            let before = docx_images::image_rects(cmds, n - 1);
            let after = docx_images::image_rects(cmds, n);
            let c = cmds[n - 1];
            &&& docx_images::image_rects(cmds, 0).len() == 0
            &&& !(c is Image) ==> after == before
            &&& c is Image ==> {
                &&& after.len() == before.len() + 1
                &&& after.take(before.len() as int) == before
                &&& after.last().x == c->Image_rect.origin.x
                &&& after.last().y == c->Image_rect.origin.y
                &&& after.last().width == c->Image_rect.size.width
                &&& after.last().height == c->Image_rect.size.height
            }
        }),
{
    let before = docx_images::image_rects(cmds, n - 1);
    let after = docx_images::image_rects(cmds, n);
    if cmds[n - 1] is Image {
        assert(after.take(before.len() as int) =~= before);
    }
}

// ── References and files ───────────────────────────────────────────────

proof fn lemma_last_with(found: Seq<ExtractedImage>, id: Seq<char>, n: int)
    requires
        0 <= n <= found.len(),
    ensures
        match images::last_with_id(found, id, n) {
            Some(i) => 0 <= i < n && found[i].id@ == id && forall|j: int|
                i < j < n ==> (#[trigger] found[j]).id@ != id,
            None => forall|j: int| 0 <= j < n ==> (#[trigger] found[j]).id@ != id,
        },
    decreases n,
{
    if n > 0 {
        lemma_last_with(found, id, n - 1);
    }
}

/// A repeated image is shown as the one that it repeats: a reference to it by its own
/// name becomes a reference by the other's. An image that repeats none keeps its name.
pub proof fn repeated_images_are_shown_as_the_first(
    found: Seq<ExtractedImage>,
    i: int,
    o: int,
)
    requires
        0 <= i < found.len(),
        0 <= o < found.len(),
        found[i].duplicate_of matches Some(id) && id@ == found[o].id@,
        forall|j: int| o < j < found.len() ==> (#[trigger] found[j]).id@ != found[o].id@,
    ensures
        images::renaming(found, i) == Some(
            (
                seq!['!', '[', ']', '(', 'i', 'm', 'g', '_'] + found[i].id@ + seq!['.']
                    + found[i].format@ + seq![')'],
                seq!['!', '[', ']', '('] + found[o].name@ + seq![')'],
            ),
        ),
{
    reveal_strlit("![](");
    reveal_strlit("![](img_");
    reveal_strlit(")");
    reveal_strlit(".");
    assert("![]("@ =~= seq!['!', '[', ']', '(']);
    assert("![](img_"@ =~= seq!['!', '[', ']', '(', 'i', 'm', 'g', '_']);
    assert(")"@ =~= seq![')']);
    assert("."@ =~= seq!['.']);
    lemma_last_with(found, found[o].id@, found.len() as int);
    let k = images::last_with_id(found, found[o].id@, found.len() as int)->0;
    assert(found[o].id@ == found[o].id@);
    assert(k == o);
}

/// References are renamed image by image, in order: each that has a new name, and no
/// other.
pub proof fn references_are_renamed_in_order(
    found: Seq<ExtractedImage>,
    s: Seq<char>,
    all: Seq<(Seq<char>, Seq<char>)>,
    n: int,
    m: int,
)
    requires
        0 < n <= found.len(),
        0 < m <= all.len(),
    ensures
        images::renamings(found, 0).len() == 0,
        found[n - 1].duplicate_of is None ==> images::renamings(found, n) == images::renamings(
            found,
            n - 1,
        ),
        images::renaming(found, n - 1) matches Some(r) ==> images::renamings(found, n)
            == images::renamings(found, n - 1).push(r),
        images::renamed(s, all, 0) == s,
        images::renamed(s, all, m) == text::replaced(
            images::renamed(s, all, m - 1),
            all[m - 1].0,
            all[m - 1].1,
        ),
{
}

proof fn lemma_file_of(found: Seq<ExtractedImage>, id: Seq<char>, n: int)
    requires
        0 <= n <= found.len(),
    ensures
        match images::file_of(found, id, n) {
            Some(i) => 0 <= i < n && found[i].id@ == id && images::shared_file(found, i) is None
                && forall|j: int|
                i < j < n ==> (#[trigger] found[j]).id@ != id || images::shared_file(
                    found,
                    j,
                ) is Some,
            None => forall|j: int|
                0 <= j < n ==> (#[trigger] found[j]).id@ != id || images::shared_file(
                    found,
                    j,
                ) is Some,
        },
    decreases n,
{
    if n > 0 {
        lemma_file_of(found, id, n - 1);
    }
}

/// An image shares the file of the image before it that it repeats, as long as that has
/// one of its own; an image that repeats none before it has its own file.
pub proof fn repeated_images_share_a_file(found: Seq<ExtractedImage>, i: int)
    requires
        0 <= i < found.len(),
    ensures
        found[i].duplicate_of is None ==> images::shared_file(found, i) is None,
        forall|o: int|
            0 <= o < i && (#[trigger] found[o]).duplicate_of is None
                && found[i].duplicate_of is Some && found[i].duplicate_of->0@ == found[o].id@
                ==> images::shared_file(found, i) is Some,
        images::shared_file(found, i) matches Some(k) ==> 0 <= k < i
            && found[i].duplicate_of is Some && found[k].id@ == found[i].duplicate_of->0@,
{
    if let Some(id) = found[i].duplicate_of {
        lemma_file_of(found, id@, i);
        assert forall|o: int|
            0 <= o < i && (#[trigger] found[o]).duplicate_of is None
                && found[i].duplicate_of->0@ == found[o].id@ implies images::shared_file(
            found,
            i,
        ) is Some by {
            assert(images::shared_file(found, o) is None);
        }
    }
}

// ── Columns ────────────────────────────────────────────────────────────

/// The blocks of sections follow each other: those of a section begin behind those of
/// the sections before it.
pub proof fn blocks_of_sections_follow_each_other(sections: Seq<(usize, usize)>, n: int)
    requires
        0 < n <= sections.len(),
    ensures
        columns::blocks_before(sections, 0) == 0,
        columns::blocks_before(sections, n) == columns::blocks_before(sections, n - 1)
            + sections[n - 1].0,
{
}

/// A section has the columns that it declares, and one where it declares none or less.
pub proof fn sections_have_their_declared_columns(sections: Seq<SectionColumns>, s: int)
    requires
        0 <= s < sections.len(),
    ensures
        columns::declared_columns(sections).len() == sections.len(),
        columns::declared_columns(sections)[s].0 == sections[s].blocks,
        sections[s].count is None ==> columns::declared_columns(sections)[s].1 == 1,
        sections[s].count matches Some(c) ==> c == 0 ==> columns::declared_columns(sections)[s].1
            == 1,
        sections[s].count matches Some(c) ==> c >= 1 ==> columns::declared_columns(sections)[s].1
            == c,
{
}

/// A page has as many columns as the section with the most that a block on it belongs
/// to.
pub proof fn pages_have_the_most_columns_of_their_sections(
    out: Seq<usize>,
    sections: Seq<(usize, usize)>,
    block_pages: Map<usize, usize>,
    n_pages: int,
    p: int,
    flat: usize,
    s: int,
)
    requires
        columns::are_column_counts(out, sections, block_pages, n_pages),
        0 <= p < n_pages,
        block_pages.contains_key(flat),
        block_pages[flat] == p,
        0 <= s < sections.len(),
        columns::blocks_before(sections, s) <= flat < columns::blocks_before(sections, s + 1),
        sections[s].1 >= 1,
    ensures
        sections[s].1 <= out[p],
        exists|g: usize, t: int|
            {
                &&& block_pages.contains_key(g)
                &&& block_pages[g] == p
                &&& 0 <= t < sections.len()
                &&& #[trigger] columns::in_section(sections, g, t)
                &&& sections[t].1 == out[p]
            },
{
    let raw = choose|raw: Seq<usize>|
        columns::filled_from(raw, out, sections, block_pages, n_pages);
    assert(columns::filled_from(raw, out, sections, block_pages, n_pages));
    assert(columns::in_section(sections, flat, s));
    assert(columns::declares(sections, block_pages, p, sections[s].1));
    assert(columns::is_declared(sections, block_pages, p, raw[p]));
    assert(raw[p] >= 1);
    assert(out[p] == raw[p]);
    assert(columns::declares(sections, block_pages, p, raw[p]));
    let (g, t) = choose|g: usize, t: int|
        #![trigger columns::in_section(sections, g, t)]
        block_pages.contains_key(g) && block_pages[g] == p && columns::in_section(sections, g, t)
            && sections[t].1 == raw[p];
    assert(columns::in_section(sections, g, t));
}

// ── Page objects ───────────────────────────────────────────────────────

/// The kinds of objects and of path segments are those that their codes stand for, and
/// unknown for any other code.
pub proof fn codes_stand_for_their_kinds(code: i32)
    ensures
        page_object::kind_numbered(code) == PageObjectKind::Text <==> code == 1,
        page_object::kind_numbered(code) == PageObjectKind::Path <==> code == 2,
        page_object::kind_numbered(code) == PageObjectKind::Image <==> code == 3,
        page_object::kind_numbered(code) == PageObjectKind::Shading <==> code == 4,
        page_object::kind_numbered(code) == PageObjectKind::Form <==> code == 5,
        page_object::segment_numbered(code) == Some(SegmentKind::LineTo) <==> code == 0,
        page_object::segment_numbered(code) == Some(SegmentKind::BezierTo) <==> code == 1,
        page_object::segment_numbered(code) == Some(SegmentKind::MoveTo) <==> code == 2,
        page_object::segment_numbered(code) is None <==> !(0 <= code <= 2),
{
}

/// A part has figures exactly where it was placed, and they are its placements in order.
pub proof fn parts_have_figures_where_they_were_placed(
    m: Map<usize, VecDeque<(String, String)>>,
    all: Seq<PlacedImage>,
    part: usize,
    k: int,
)
    requires
        docx_images::are_figure_ids(m, all, all.len() as int),
        0 <= k < all.len(),
    ensures
        m.contains_key(all[k].media),
        (forall|j: int| 0 <= j < all.len() ==> (#[trigger] all[j]).media != part)
            ==> !m.contains_key(part),
        m.contains_key(part) ==> docx_images::queue_view(m[part]@) == docx_images::figure_queue(
            all,
            part,
            all.len() as int,
        ),
{
    lemma_queue_holds(all, all[k].media, all.len() as int, k);
    if forall|j: int| 0 <= j < all.len() ==> (#[trigger] all[j]).media != part {
        lemma_queue_empty(all, part, all.len() as int);
    }
}

proof fn lemma_queue_holds(all: Seq<PlacedImage>, part: usize, n: int, k: int)
    requires
        0 <= k < n <= all.len(),
        all[k].media == part,
    ensures
        docx_images::figure_queue(all, part, n).len() > 0,
    decreases n,
{
    if k < n - 1 {
        lemma_queue_holds(all, part, n - 1, k);
    }
}

proof fn lemma_queue_empty(all: Seq<PlacedImage>, part: usize, n: int)
    requires
        0 <= n <= all.len(),
        forall|j: int| 0 <= j < all.len() ==> (#[trigger] all[j]).media != part,
    ensures
        docx_images::figure_queue(all, part, n).len() == 0,
    decreases n,
{
    if n > 0 {
        assert(all[n - 1].media != part);
        lemma_queue_empty(all, part, n - 1);
    }
}

}
