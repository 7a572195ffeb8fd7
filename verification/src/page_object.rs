//! What the content objects of a page are, from the numbers by which they are
//! reported. Nothing is filtered, and what cannot be read is missing.
use crate::text;
use crate::units::Pt;
use vstd::prelude::*;

verus! {

/// What a page object draws.
#[derive(Clone, Copy, PartialEq, Eq, Structural, Debug)]
pub enum PageObjectKind {
    Text,
    Path,
    Image,
    Shading,
    /// A container of other objects.
    Form,
    Unknown,
}

/// The kind that a number stands for, in contracts.
pub open spec fn kind_numbered(code: i32) -> PageObjectKind {
    if code == 1 {
        PageObjectKind::Text
    } else if code == 2 {
        PageObjectKind::Path
    } else if code == 3 {
        PageObjectKind::Image
    } else if code == 4 {
        PageObjectKind::Shading
    } else if code == 5 {
        PageObjectKind::Form
    } else {
        PageObjectKind::Unknown
    }
}

impl PageObjectKind {
    /// The kind that a number stands for.
    pub fn from_code(code: i32) -> (r: PageObjectKind)
        ensures
            r == kind_numbered(code),
    {
        match code {
            1 => PageObjectKind::Text,
            2 => PageObjectKind::Path,
            3 => PageObjectKind::Image,
            4 => PageObjectKind::Shading,
            5 => PageObjectKind::Form,
            _ => PageObjectKind::Unknown,
        }
    }
}

/// Whether a path is painted. One that is neither filled nor stroked clips.
#[derive(Clone, Copy, PartialEq, Eq, Structural, Debug)]
pub struct PathDrawMode {
    pub filled: bool,
    pub stroked: bool,
}

/// How a path is painted; `None` for what is no path. Every fill mode but 0
/// fills.
pub fn path_draw_mode(ok: bool, fill_mode: i32, stroke: i32) -> (r: Option<PathDrawMode>)
    ensures
        r == (if ok {
            Some(PathDrawMode { filled: fill_mode != 0, stroked: stroke != 0 })
        } else {
            None
        }),
{
    if ok {
        Some(PathDrawMode { filled: fill_mode != 0, stroked: stroke != 0 })
    } else {
        None
    }
}

/// What a segment of a path does.
#[derive(Clone, Copy, PartialEq, Eq, Structural, Debug)]
pub enum SegmentKind {
    MoveTo,
    LineTo,
    BezierTo,
}

/// One segment of a path, in the object's own space.
#[derive(Clone, Copy, Debug)]
pub struct RawPathSegment {
    /// `None` where it is not known.
    pub kind: Option<SegmentKind>,
    /// `None` where it cannot be read.
    pub point: Option<(Pt, Pt)>,
    /// Whether it closes the path.
    pub close: bool,
}

/// What a number says that a segment does, in contracts.
pub open spec fn segment_numbered(code: i32) -> Option<SegmentKind> {
    if code == 2 {
        Some(SegmentKind::MoveTo)
    } else if code == 0 {
        Some(SegmentKind::LineTo)
    } else if code == 1 {
        Some(SegmentKind::BezierTo)
    } else {
        None
    }
}

/// A segment from what is reported of it.
pub fn path_segment(code: i32, point: Option<(Pt, Pt)>, close: i32) -> (r: RawPathSegment)
    ensures
        r == (RawPathSegment { kind: segment_numbered(code), point, close: close != 0 }),
{
    let kind = match code {
        2 => Some(SegmentKind::MoveTo),
        0 => Some(SegmentKind::LineTo),
        1 => Some(SegmentKind::BezierTo),
        _ => None,
    };
    RawPathSegment { kind, point, close: close != 0 }
}

/// A number of objects; `None` for a negative one, which reports an error.
pub fn count_of(count: i32) -> (r: Option<usize>)
    ensures
        match r {
            Some(n) => count >= 0 && n == count,
            None => count < 0,
        },
{
    if count < 0 {
        None
    } else {
        Some(count as usize)
    }
}

/// A number of objects; 0 for a negative one, which reports an error.
pub fn object_count(count: i32) -> (r: usize)
    ensures
        r == (if count < 0 {
            0int
        } else {
            count as int
        }),
{
    if count < 0 {
        0
    } else {
        count as usize
    }
}

/// Bytes up to the first 0 among them.
pub open spec fn before_zero(bytes: Seq<u8>) -> Seq<u8>
    decreases bytes.len(),
{
    if bytes.len() == 0 || bytes[0] == 0 {
        seq![]
    } else {
        seq![bytes[0]] + before_zero(bytes.skip(1))
    }
}

fn cut_before_zero(bytes: &Vec<u8>) -> (r: Vec<u8>)
    ensures
        r@ == before_zero(bytes@),
{
    let mut out: Vec<u8> = Vec::new();
    let mut i: usize = 0;
    assert(bytes@.skip(0) =~= bytes@);
    assert(out@ + before_zero(bytes@) =~= before_zero(bytes@));
    while i < bytes.len() && bytes[i] != 0
        invariant
            i <= bytes@.len(),
            out@ + before_zero(bytes@.skip(i as int)) == before_zero(bytes@),
        decreases bytes@.len() - i,
    {
        let ghost rest = bytes@.skip(i as int);
        let ghost before = out@;
        out.push(bytes[i]);
        assert(rest.skip(1) =~= bytes@.skip(i + 1));
        assert(before + (seq![rest[0]] + before_zero(rest.skip(1))) =~= out@ + before_zero(
            bytes@.skip(i + 1),
        ));
        i += 1;
    }
    let ghost rest = bytes@.skip(i as int);
    assert(before_zero(rest) =~= Seq::<u8>::empty());
    assert(out@ + Seq::<u8>::empty() =~= out@);
    out
}

/// The name of a filter of an image, from what was filled in for it: up to the
/// first 0. `size` is how many bytes were announced, `written` how many were
/// written; without either there is no such filter.
pub fn image_filter(size: u64, written: u64, bytes: &Vec<u8>) -> (r: Option<String>)
    ensures
        match r {
            Some(name) => size != 0 && written != 0 && name@ == text::lossy_utf8(
                before_zero(bytes@),
            ),
            None => size == 0 || written == 0,
        },
{
    if size == 0 || written == 0 {
        return None;
    }
    Some(text::decode_lossy(&cut_before_zero(bytes)))
}

/// The bytes of an image, from what was filled in for them: as many as were
/// written. `size` is how many bytes were announced; without any announced or any
/// written there are none.
pub fn image_bytes(size: u64, written: u64, bytes: Vec<u8>) -> (r: Option<Vec<u8>>)
    ensures
        match r {
            Some(b) => {
                &&& size != 0 && written != 0
                &&& b@ == (if written < bytes@.len() {
                    bytes@.take(written as int)
                } else {
                    bytes@
                })
            },
            None => size == 0 || written == 0,
        },
{
    if size == 0 || written == 0 {
        return None;
    }
    let mut out = bytes;
    if written < out.len() as u64 {
        out.truncate(written as usize);
    }
    Some(out)
}

/// The name of a filter ends before its first 0.
pub proof fn filter_name_holds_no_zero(bytes: Seq<u8>)
    ensures
        before_zero(bytes).len() <= bytes.len(),
        forall|i: int|
            0 <= i < before_zero(bytes).len() ==> #[trigger] before_zero(bytes)[i] != 0
                && before_zero(bytes)[i] == bytes[i],
        before_zero(bytes).len() < bytes.len() ==> bytes[before_zero(bytes).len() as int] == 0,
    decreases bytes.len(),
{
    if bytes.len() > 0 && bytes[0] != 0 {
        let rest = bytes.skip(1);
        filter_name_holds_no_zero(rest);
        assert forall|i: int| 0 <= i < before_zero(bytes).len() implies #[trigger] before_zero(
            bytes,
        )[i] != 0 && before_zero(bytes)[i] == bytes[i] by {
            if i > 0 {
                assert(before_zero(bytes)[i] == before_zero(rest)[i - 1]);
            }
        }
    }
}

}
