//! Images read off laid-out pages.
use crate::docx_layout;
use crate::draw_command::{DrawCommand, LayoutedPage};
use crate::geometry::Rect;
use crate::media;
use crate::text;
use crate::types::ExtractedImage;
use crate::units::Angle;
use std::collections::{HashMap, VecDeque};
use vstd::prelude::*;

verus! {

broadcast use vstd::std_specs::hash::group_hash_axioms;

/// The images of a document.
#[derive(Debug)]
pub struct NativeImages {
    /// One entry per placement, in drawing order.
    pub images: Vec<ExtractedImage>,
    /// For each media part the id and extension of its placements, in drawing
    /// order.
    pub figure_ids: HashMap<usize, VecDeque<(String, String)>>,
}

/// One surfaced placement of an image.
pub struct PlacedImage {
    /// Page number, counted from 1.
    pub page: int,
    /// Number among the surfaced placements of its page, counted from 1.
    pub number: int,
    pub media: usize,
    pub data: Seq<u8>,
    pub ext: Seq<char>,
    pub rect: Rect,
}

/// The surfaced placements among the first `n` commands of a page. Images in
/// vector formats are left out.
pub open spec fn page_placements(cmds: Seq<DrawCommand>, page: int, n: int) -> Seq<PlacedImage>
    decreases n,
{
    if n <= 0 {
        seq![]
    } else {
        let before = page_placements(cmds, page, n - 1);
        match cmds[n - 1] {
            DrawCommand::Image { rect, image_data, .. } => match media::extension_of(
                image_data.format,
            ) {
                Some(ext) => before.push(
                    PlacedImage {
                        page,
                        number: before.len() as int + 1,
                        media: image_data.media,
                        data: image_data.data@,
                        ext,
                        rect: rect.spec_flat(),
                    },
                ),
                None => before,
            },
            _ => before,
        }
    }
}

/// The surfaced placements on the first `n` pages.
pub open spec fn placements(layouted: Seq<LayoutedPage>, n: int) -> Seq<PlacedImage>
    decreases n,
{
    if n <= 0 {
        seq![]
    } else {
        placements(layouted, n - 1) + page_placements(
            layouted[n - 1].commands@,
            n,
            layouted[n - 1].commands@.len() as int,
        )
    }
}

/// The id of a placement: page and number.
pub open spec fn image_id(page: int, number: int) -> Seq<char> {
    "p"@ + text::decimal(page as nat) + "_"@ + text::decimal(number as nat)
}

/// The file name of an image.
pub open spec fn image_name(id: Seq<char>, ext: Seq<char>) -> Seq<char> {
    "img_"@ + id + "."@ + ext
}

/// The first of the first `n` placements that has the bytes `data`.
pub open spec fn first_with(all: Seq<PlacedImage>, data: Seq<u8>, n: int) -> Option<int>
    decreases n,
{
    if n <= 0 {
        None
    } else {
        match first_with(all, data, n - 1) {
            Some(i) => Some(i),
            None => if all[n - 1].data == data {
                Some(n - 1)
            } else {
                None
            },
        }
    }
}

/// The size of an image, and none where its header cannot be read.
pub open spec fn size_or_none(dims: Option<(u32, u32)>) -> (u32, u32) {
    match dims {
        Some(d) => d,
        None => (0, 0),
    }
}

/// Whether `image` is the entry of a placement whose image is `dims` large and
/// whose bytes an earlier placement `original` has too.
pub open spec fn is_image_entry(
    image: ExtractedImage,
    placed: PlacedImage,
    dims: Option<(u32, u32)>,
    original: Option<Seq<char>>,
) -> bool {
    let id = image_id(placed.page, placed.number);
    &&& image.id@ == id
    &&& image.name@ == image_name(id, placed.ext)
    &&& image.path is None
    &&& image.page == placed.page
    &&& image.bbox == placed.rect
    &&& (image.width, image.height) == size_or_none(dims)
    &&& image.rotation.units == 0
    &&& image.format@ == placed.ext
    &&& docx_layout::opt_text(image.duplicate_of) == original
    &&& image.bytes@ == placed.data
}

/// The id of the first placement before `k` with the same bytes.
pub open spec fn original_of(all: Seq<PlacedImage>, k: int) -> Option<Seq<char>> {
    match first_with(all, all[k].data, k) {
        Some(i) => Some(image_id(all[i].page, all[i].number)),
        None => None,
    }
}

/// The ids and extensions of the placements of one media part among the first
/// `n`, in drawing order.
pub open spec fn figure_queue(all: Seq<PlacedImage>, part: usize, n: int) -> Seq<
    (Seq<char>, Seq<char>),
>
    decreases n,
{
    if n <= 0 {
        seq![]
    } else if all[n - 1].media == part {
        figure_queue(all, part, n - 1).push(
            (image_id(all[n - 1].page, all[n - 1].number), all[n - 1].ext),
        )
    } else {
        figure_queue(all, part, n - 1)
    }
}

/// The contents of a queue of ids and extensions.
pub open spec fn queue_view(q: Seq<(String, String)>) -> Seq<(Seq<char>, Seq<char>)> {
    q.map_values(|p: (String, String)| (p.0@, p.1@))
}

/// Whether `m` maps each media part with a placement to the ids and extensions
/// of its placements.
pub open spec fn are_figure_ids(
    m: Map<usize, VecDeque<(String, String)>>,
    all: Seq<PlacedImage>,
    n: int,
) -> bool {
    &&& forall|part: usize| #[trigger]
        m.contains_key(part) <==> figure_queue(all, part, n).len() > 0
    &&& forall|part: usize| #[trigger]
        m.contains_key(part) ==> queue_view(m[part]@) == figure_queue(all, part, n)
}

fn id_text(page: u32, number: u32) -> (r: String)
    ensures
        r@ == image_id(page as int, number as int),
{
    let mut s = String::new();
    text::push_text(&mut s, "p");
    assert(s@ =~= "p"@);
    text::push_decimal(&mut s, page as u64);
    text::push_text(&mut s, "_");
    text::push_decimal(&mut s, number as u64);
    s
}

fn name_text(id: &str, ext: &str) -> (r: String)
    ensures
        r@ == image_name(id@, ext@),
{
    let mut s = String::new();
    text::push_text(&mut s, "img_");
    assert(s@ =~= "img_"@);
    text::push_text(&mut s, id);
    text::push_text(&mut s, ".");
    text::push_text(&mut s, ext);
    s
}

/// A copy of some bytes.
fn copy_bytes(data: &Vec<u8>) -> (r: Vec<u8>)
    ensures
        r@ == data@,
{
    let r = data.clone();
    assert(r@ =~= data@);
    r
}

/// The entry of the `number`th placement on `page`: its image is `dims` large,
/// where that is known, and an earlier placement `original` has its bytes too,
/// where one is given. The bytes are those that were embedded, whatever part
/// of the image is shown.
pub fn image_entry(
    page: u32,
    number: u32,
    ext: &str,
    bbox: Rect,
    data: &Vec<u8>,
    dims: Option<(u32, u32)>,
    original: Option<String>,
) -> (r: ExtractedImage)
    ensures
        is_image_entry(
            r,
            (PlacedImage {
                page: page as int,
                number: number as int,
                media: 0,
                data: data@,
                ext: ext@,
                rect: bbox,
            }),
            dims,
            docx_layout::opt_text(original),
        ),
{
    let id = id_text(page, number);
    let name = name_text(id.as_str(), ext);
    let (width, height) = match dims {
        Some(d) => d,
        None => (0, 0),
    };
    ExtractedImage {
        id,
        name,
        path: None,
        page,
        bbox,
        width,
        height,
        rotation: Angle { units: 0 },
        format: ext.to_string(),
        duplicate_of: original,
        bytes: copy_bytes(data),
    }
}

/// Whether two byte strings are equal.
fn same_bytes(a: &Vec<u8>, b: &Vec<u8>) -> (r: bool)
    ensures
        r == (a@ == b@),
{
    if a.len() != b.len() {
        return false;
    }
    let mut i: usize = 0;
    while i < a.len()
        invariant
            i <= a@.len(),
            a@.len() == b@.len(),
            forall|j: int| 0 <= j < i ==> a@[j] == b@[j],
        decreases a@.len() - i,
    {
        if a[i] != b[i] {
            return false;
        }
        i += 1;
    }
    assert(a@ =~= b@);
    true
}

/// Whether `images` are the entries of the first `n` placements.
pub open spec fn are_entries(images: Seq<ExtractedImage>, all: Seq<PlacedImage>, n: int) -> bool {
    &&& images.len() == n
    &&& forall|k: int|
        0 <= k < n ==> is_image_entry(
            #[trigger] images[k],
            all[k],
            media::declared_dimensions(all[k].data),
            original_of(all, k),
        )
}

proof fn lemma_first_with(all: Seq<PlacedImage>, data: Seq<u8>, n: int)
    requires
        0 <= n <= all.len(),
    ensures
        match first_with(all, data, n) {
            Some(i) => 0 <= i < n && all[i].data == data && forall|j: int|
                0 <= j < i ==> (#[trigger] all[j]).data != data,
            None => forall|j: int| 0 <= j < n ==> (#[trigger] all[j]).data != data,
        },
    decreases n,
{
    if n > 0 {
        lemma_first_with(all, data, n - 1);
    }
}

proof fn lemma_first_with_prefix(a: Seq<PlacedImage>, b: Seq<PlacedImage>, data: Seq<u8>, n: int)
    requires
        0 <= n <= a.len(),
        n <= b.len(),
        forall|j: int| 0 <= j < n ==> a[j] == b[j],
    ensures
        first_with(a, data, n) == first_with(b, data, n),
    decreases n,
{
    if n > 0 {
        lemma_first_with_prefix(a, b, data, n - 1);
    }
}

proof fn lemma_figure_queue_prefix(
    a: Seq<PlacedImage>,
    b: Seq<PlacedImage>,
    part: usize,
    n: int,
)
    requires
        0 <= n <= a.len(),
        n <= b.len(),
        forall|j: int| 0 <= j < n ==> a[j] == b[j],
    ensures
        figure_queue(a, part, n) == figure_queue(b, part, n),
    decreases n,
{
    if n > 0 {
        lemma_figure_queue_prefix(a, b, part, n - 1);
    }
}

/// The first of the entries with the bytes `data`.
fn find_original(images: &Vec<ExtractedImage>, data: &Vec<u8>, Ghost(all): Ghost<Seq<PlacedImage>>)
    -> (r: Option<usize>)
    requires
        are_entries(images@, all, all.len() as int),
    ensures
        match r {
            Some(i) => first_with(all, data@, all.len() as int) == Some(i as int) && i
                < images@.len(),
            None => first_with(all, data@, all.len() as int) is None,
        },
{
    let mut i: usize = 0;
    while i < images.len()
        invariant
            i <= images@.len(),
            are_entries(images@, all, all.len() as int),
            forall|j: int| 0 <= j < i ==> (#[trigger] all[j]).data != data@,
        decreases images@.len() - i,
    {
        assert(images@[i as int].bytes@ == all[i as int].data);
        if same_bytes(&images[i].bytes, data) {
            proof {
                lemma_first_with(all, data@, all.len() as int);
            }
            return Some(i);
        }
        i += 1;
    }
    proof {
        lemma_first_with(all, data@, all.len() as int);
    }
    None
}

/// Adds a placement to the queue of its media part.
fn note_figure(
    figure_ids: &mut HashMap<usize, VecDeque<(String, String)>>,
    part: usize,
    id: String,
    ext: String,
    Ghost(all): Ghost<Seq<PlacedImage>>,
)
    requires
        all.len() > 0,
        all.last().media == part,
        id@ == image_id(all.last().page, all.last().number),
        ext@ == all.last().ext,
        are_figure_ids(old(figure_ids)@, all, all.len() - 1),
    ensures
        are_figure_ids(final(figure_ids)@, all, all.len() as int),
{
    let ghost before = figure_ids@;
    let ghost n = all.len() as int;
    let taken = figure_ids.remove(&part);
    let mut queue: VecDeque<(String, String)> = match taken {
        Some(q) => q,
        None => VecDeque::new(),
    };
    let ghost q0 = queue@;
    assert(queue_view(q0) =~= figure_queue(all, part, n - 1));
    queue.push_back((id, ext));
    assert(queue_view(queue@) =~= figure_queue(all, part, n));
    figure_ids.insert(part, queue);
    proof {
        assert forall|q: usize| #[trigger] figure_ids@.contains_key(q) <==> figure_queue(
            all,
            q,
            n,
        ).len() > 0 by {
            assert(before.contains_key(q) <==> figure_queue(all, q, n - 1).len() > 0);
        }
    }
}

/// Takes the embedded images out of laid-out pages. A placement whose bytes an
/// earlier one has names that one as its original.
pub fn collect_images(layouted: &Vec<LayoutedPage>) -> (r: NativeImages)
    requires
        layouted@.len() < u32::MAX,
        forall|p: int|
            0 <= p < layouted@.len() ==> (#[trigger] layouted@[p]).commands@.len() < u32::MAX,
    ensures
        are_entries(
            r.images@,
            placements(layouted@, layouted@.len() as int),
            placements(layouted@, layouted@.len() as int).len() as int,
        ),
        are_figure_ids(
            r.figure_ids@,
            placements(layouted@, layouted@.len() as int),
            placements(layouted@, layouted@.len() as int).len() as int,
        ),
{
    let mut images: Vec<ExtractedImage> = Vec::new();
    let mut figure_ids: HashMap<usize, VecDeque<(String, String)>> = HashMap::new();
    let ghost mut all: Seq<PlacedImage> = seq![];
    let mut p: usize = 0;
    while p < layouted.len()
        invariant
            p <= layouted@.len(),
            layouted@.len() < u32::MAX,
            forall|q: int|
                0 <= q < layouted@.len() ==> (#[trigger] layouted@[q]).commands@.len() < u32::MAX,
            all == placements(layouted@, p as int),
            are_entries(images@, all, all.len() as int),
            are_figure_ids(figure_ids@, all, all.len() as int),
        decreases layouted@.len() - p,
    {
        let ghost start = all;
        let ghost cmds = layouted@[p as int].commands@;
        let page: u32 = (p + 1) as u32;
        let commands = &layouted[p].commands;
        let mut number: u32 = 0;
        let mut i: usize = 0;
        assert(all =~= start + page_placements(cmds, page as int, 0));
        while i < commands.len()
            invariant
                i <= commands@.len(),
                commands@ == cmds,
                cmds.len() < u32::MAX,
                number <= i,
                number == page_placements(cmds, page as int, i as int).len(),
                all == start + page_placements(cmds, page as int, i as int),
                are_entries(images@, all, all.len() as int),
                are_figure_ids(figure_ids@, all, all.len() as int),
            decreases commands@.len() - i,
        {
            if let DrawCommand::Image { rect, image_data, .. } = &commands[i] {
                if let Some(ext) = media::media_extension(image_data.format) {
                    number += 1;
                    let ghost before = all;
                    let found = find_original(&images, &image_data.data, Ghost(before));
                    let (dims, original) = match found {
                        Some(o) => {
                            let ghost q = before[o as int];
                            assert(is_image_entry(
                                images@[o as int],
                                q,
                                media::declared_dimensions(q.data),
                                original_of(before, o as int),
                            ));
                            proof {
                                lemma_first_with(before, image_data.data@, before.len() as int);
                            }
                            (
                                Some((images[o].width, images[o].height)),
                                Some(images[o].id.clone()),
                            )
                        },
                        None => (media::read_dimensions(&image_data.data), None),
                    };
                    let bbox = rect.flat();
                    let entry = image_entry(
                        page,
                        number,
                        ext,
                        bbox,
                        &image_data.data,
                        dims,
                        original,
                    );
                    let id = entry.id.clone();
                    let ghost placed = PlacedImage {
                        page: page as int,
                        number: number as int,
                        media: image_data.media,
                        data: image_data.data@,
                        ext: ext@,
                        rect: bbox,
                    };
                    proof {
                        all = before.push(placed);
                        assert(all =~= start + page_placements(cmds, page as int, i + 1));
                    }
                    images.push(entry);
                    proof {
                        let n = before.len() as int;
                        assert forall|k: int| 0 <= k < all.len() implies is_image_entry(
                            #[trigger] images@[k],
                            all[k],
                            media::declared_dimensions(all[k].data),
                            original_of(all, k),
                        ) by {
                            lemma_first_with_prefix(before, all, all[k].data, k);
                            lemma_first_with(before, all[k].data, k);
                            if k == n {
                                assert(images@[k] == entry);
                            } else {
                                assert(all[k] == before[k]);
                                assert(original_of(all, k) == original_of(before, k));
                            }
                        }
                        assert forall|part: usize|
                            figure_queue(all, part, n) == figure_queue(before, part, n) by {
                            lemma_figure_queue_prefix(all, before, part, n);
                        }
                        assert(are_figure_ids(figure_ids@, all, n));
                    }
                    note_figure(
                        &mut figure_ids,
                        image_data.media,
                        id,
                        ext.to_string(),
                        Ghost(all),
                    );
                }
            }
            i += 1;
        }
        p += 1;
    }
    NativeImages { images, figure_ids }
}

/// An original is never itself a duplicate, and every duplicate has the bytes
/// and the size of its original.
pub proof fn originals_are_not_duplicates(
    images: Seq<ExtractedImage>,
    all: Seq<PlacedImage>,
    k: int,
)
    requires
        are_entries(images, all, all.len() as int),
        0 <= k < all.len(),
        images[k].duplicate_of is Some,
    ensures
        exists|o: int|
            0 <= o < k && (#[trigger] images[o]).duplicate_of is None && images[o].id@
                == images[k].duplicate_of->0@ && images[o].bytes@ == images[k].bytes@
                && images[o].width == images[k].width && images[o].height == images[k].height,
{
    lemma_first_with(all, all[k].data, k);
    assert(is_image_entry(
        images[k],
        all[k],
        media::declared_dimensions(all[k].data),
        original_of(all, k),
    ));
    let o = first_with(all, all[k].data, k)->0;
    assert(is_image_entry(
        images[o],
        all[o],
        media::declared_dimensions(all[o].data),
        original_of(all, o),
    ));
    lemma_first_with(all, all[o].data, o);
    assert(original_of(all, o) is None);
}

/// Two placements name each other's bytes as equal exactly when they are: an
/// entry without an original has bytes that no earlier entry has.
pub proof fn unmarked_images_are_distinct(
    images: Seq<ExtractedImage>,
    all: Seq<PlacedImage>,
    j: int,
    k: int,
)
    requires
        are_entries(images, all, all.len() as int),
        0 <= j < k < all.len(),
        images[k].duplicate_of is None,
    ensures
        images[j].bytes@ != images[k].bytes@,
{
    lemma_first_with(all, all[k].data, k);
    assert(is_image_entry(
        images[k],
        all[k],
        media::declared_dimensions(all[k].data),
        original_of(all, k),
    ));
    assert(is_image_entry(
        images[j],
        all[j],
        media::declared_dimensions(all[j].data),
        original_of(all, j),
    ));
}

// ── Image boxes ────────────────────────────────────────────────────────

/// The boxes of the images among the first `n` commands, whatever their
/// format.
pub open spec fn image_rects(cmds: Seq<DrawCommand>, n: int) -> Seq<Rect>
    decreases n,
{
    if n <= 0 {
        seq![]
    } else {
        match cmds[n - 1] {
            DrawCommand::Image { rect, .. } => image_rects(cmds, n - 1).push(rect.spec_flat()),
            _ => image_rects(cmds, n - 1),
        }
    }
}

/// The boxes of the images on each page, whatever their format.
pub fn image_rects_per_page(layouted: &Vec<LayoutedPage>) -> (r: Vec<Vec<Rect>>)
    ensures
        r@.len() == layouted@.len(),
        forall|p: int|
            0 <= p < r@.len() ==> (#[trigger] r@[p])@ == image_rects(
                layouted@[p].commands@,
                layouted@[p].commands@.len() as int,
            ),
{
    let mut out: Vec<Vec<Rect>> = Vec::new();
    let mut p: usize = 0;
    while p < layouted.len()
        invariant
            p <= layouted@.len(),
            out@.len() == p,
            forall|q: int|
                0 <= q < p ==> (#[trigger] out@[q])@ == image_rects(
                    layouted@[q].commands@,
                    layouted@[q].commands@.len() as int,
                ),
        decreases layouted@.len() - p,
    {
        let commands = &layouted[p].commands;
        let mut rects: Vec<Rect> = Vec::new();
        let mut i: usize = 0;
        while i < commands.len()
            invariant
                i <= commands@.len(),
                rects@ == image_rects(commands@, i as int),
            decreases commands@.len() - i,
        {
            if let DrawCommand::Image { rect, .. } = &commands[i] {
                rects.push(rect.flat());
            }
            i += 1;
        }
        out.push(rects);
        p += 1;
    }
    out
}

}
