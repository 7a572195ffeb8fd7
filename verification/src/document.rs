//! What is read off an open document: texts, outline, signatures, form packets,
//! and a copy of a page reduced to its form widgets.
use crate::text;
use crate::types;
use crate::units::Pt;
use vstd::prelude::*;

verus! {

// ── Texts ──────────────────────────────────────────────────────────────

/// What came of asking for a text in UTF-16: how many bytes were announced, the
/// units that were filled in, and how many bytes were written.
#[derive(Debug)]
pub struct TextReading {
    pub needed: usize,
    pub units: Vec<u16>,
    pub written: usize,
}

impl TextReading {
    /// Whether no more was written than there was room for.
    pub open spec fn ok(self) -> bool {
        self.written / 2 <= self.units@.len()
    }

    /// How many units the text takes: a 0 at the end is not part of it.
    pub open spec fn text_len(self) -> int {
        let chars = self.written as int / 2;
        if chars > 0 && self.units@[chars - 1] == 0 {
            chars - 1
        } else {
            chars
        }
    }

    /// The text, in contracts.
    pub open spec fn spec_text(self) -> Seq<char> {
        text::utf16_text(self.units@.take(self.text_len()))
    }

    /// The text.
    fn text(&self) -> (r: String)
        requires
            self.ok(),
            self.written >= 2,
        ensures
            r@ == self.spec_text(),
    {
        let chars: usize = self.written / 2;
        let end: usize = if self.units[chars - 1] == 0 {
            chars - 1
        } else {
            chars
        };
        text::decode_utf16(&self.units, end)
    }
}

/// The value of an entry of the document's information. There is none only where
/// the document has no information at all; an entry that is missing or empty
/// reads as the empty text.
pub fn meta_text(reading: &TextReading) -> (r: Option<String>)
    requires
        reading.ok(),
    ensures
        match r {
            Some(s) => reading.needed >= 2 && reading.written >= 2 && s@ == reading.spec_text(),
            None => reading.needed < 2 || reading.written < 2,
        },
{
    if reading.needed < 2 || reading.written < 2 {
        return None;
    }
    Some(reading.text())
}

/// The label that a reader shows for a page, where the document has one for it.
/// An empty label is none.
pub fn page_label(page_index: i32, reading: &TextReading) -> (r: Option<String>)
    requires
        reading.ok(),
    ensures
        ({
            let there = page_index >= 0 && reading.needed >= 4 && reading.written >= 4
                && reading.spec_text().len() > 0;
            match r {
                Some(s) => there && s@ == reading.spec_text(),
                None => !there,
            }
        }),
{
    if page_index < 0 || reading.needed < 4 || reading.written < 4 {
        return None;
    }
    let label = reading.text();
    if label.as_str().unicode_len() > 0 {
        Some(label)
    } else {
        None
    }
}

/// The title of a bookmark; empty where it has none.
pub fn bookmark_title(reading: &TextReading) -> (r: String)
    requires
        reading.ok(),
    ensures
        r@ == (if reading.needed < 2 || reading.written < 2 {
            Seq::<char>::empty()
        } else {
            reading.spec_text()
        }),
{
    if reading.needed < 2 || reading.written < 2 {
        return String::new();
    }
    reading.text()
}

// ── Outline ────────────────────────────────────────────────────────────

/// Where a bookmark leads to.
#[derive(Clone, Copy, PartialEq, Eq, Structural, Debug)]
pub struct Dest {
    /// Counted from 0; negative for none of the document's pages.
    pub page_index: i32,
    /// Whether the place on the page could be read.
    pub located: bool,
    /// Whether the place has a height.
    pub has_y: bool,
    /// The height above the bottom of the page.
    pub y: Pt,
}

/// One bookmark and those below it.
#[derive(Debug)]
pub struct Bookmark {
    pub title: String,
    /// Where it leads to by itself.
    pub dest: Option<Dest>,
    /// Where its action leads to.
    pub action_dest: Option<Dest>,
    pub children: Vec<Bookmark>,
}

/// One entry of the outline.
#[derive(Debug)]
pub struct OutlineEntry {
    /// Counted from 1.
    pub level: u8,
    pub title: String,
    /// Counted from 0; `None` where it leads to none of the document's pages.
    pub page_index: Option<i32>,
    /// The height above the bottom of the page, where it is given.
    pub y: Option<Pt>,
}

/// Where a bookmark leads to, in contracts: where it says so itself, and only
/// otherwise where its action does.
pub open spec fn dest_of(b: Bookmark) -> (Option<i32>, Option<Pt>) {
    let dest = match b.dest {
        Some(d) => Some(d),
        None => b.action_dest,
    };
    match dest {
        Some(d) => (
            if d.page_index >= 0 {
                Some(d.page_index)
            } else {
                None
            },
            if d.located && d.has_y {
                Some(d.y)
            } else {
                None
            },
        ),
        None => (None, None),
    }
}

/// Where a bookmark leads to.
pub fn resolve_dest(b: &Bookmark) -> (r: (Option<i32>, Option<Pt>))
    ensures
        r == dest_of(*b),
{
    let dest = match b.dest {
        Some(d) => Some(d),
        None => b.action_dest,
    };
    match dest {
        Some(d) => (
            if d.page_index >= 0 {
                Some(d.page_index)
            } else {
                None
            },
            if d.located && d.has_y {
                Some(d.y)
            } else {
                None
            },
        ),
        None => (None, None),
    }
}

/// The level below a level. There is none below the last one.
pub open spec fn below(level: u8) -> u8 {
    if level < 255 {
        (level + 1) as u8
    } else {
        255
    }
}

/// A bookmark and those below it, with their levels, parents first.
pub open spec fn preorder(b: Bookmark, level: u8) -> Seq<(Bookmark, u8)>
    decreases b, 0int,
{
    seq![(b, level)] + preorder_upto(b.children@, below(level), b.children@.len() as int)
}

/// The first `n` bookmarks and those below them.
pub open spec fn preorder_upto(bs: Seq<Bookmark>, level: u8, n: int) -> Seq<(Bookmark, u8)>
    decreases bs, n,
{
    if n <= 0 || n > bs.len() {
        seq![]
    } else {
        preorder_upto(bs, level, n - 1) + preorder(bs[n - 1], level)
    }
}

/// Whether an entry is that of a bookmark on a level.
pub open spec fn is_entry(e: OutlineEntry, b: Bookmark, level: u8) -> bool {
    &&& e.level == level
    &&& e.title@ == b.title@
    &&& (e.page_index, e.y) == dest_of(b)
}

/// Whether some entries are those of some bookmarks.
pub open spec fn are_entries(out: Seq<OutlineEntry>, all: Seq<(Bookmark, u8)>) -> bool {
    &&& out.len() == all.len()
    &&& forall|k: int| 0 <= k < out.len() ==> is_entry(#[trigger] out[k], all[k].0, all[k].1)
}

proof fn lemma_entries_joined(
    a: Seq<OutlineEntry>,
    b: Seq<OutlineEntry>,
    x: Seq<(Bookmark, u8)>,
    y: Seq<(Bookmark, u8)>,
)
    requires
        are_entries(a, x),
        are_entries(b, y),
    ensures
        are_entries(a + b, x + y),
{
    assert forall|k: int| 0 <= k < (a + b).len() implies is_entry(
        #[trigger] (a + b)[k],
        (x + y)[k].0,
        (x + y)[k].1,
    ) by {
        if k < a.len() {
            assert(is_entry(a[k], x[k].0, x[k].1));
        } else {
            assert(is_entry(b[k - a.len()], y[k - a.len()].0, y[k - a.len()].1));
        }
    }
}

fn walk_bookmarks(bs: &Vec<Bookmark>, level: u8) -> (r: Vec<OutlineEntry>)
    ensures
        are_entries(r@, preorder_upto(bs@, level, bs@.len() as int)),
    decreases bs,
{
    let mut out: Vec<OutlineEntry> = Vec::new();
    let mut i: usize = 0;
    while i < bs.len()
        invariant
            i <= bs@.len(),
            are_entries(out@, preorder_upto(bs@, level, i as int)),
        decreases bs@.len() - i,
    {
        let b = &bs[i];
        assert(decreases_to!(bs => bs@));
        assert(decreases_to!(bs@ => bs@[i as int]));
        assert(decreases_to!(bs@[i as int] => bs@[i as int].children));
        let (page_index, y) = resolve_dest(b);
        let mut own: Vec<OutlineEntry> = Vec::new();
        own.push(OutlineEntry { level, title: b.title.clone(), page_index, y });
        assert(are_entries(own@, seq![(*b, level)]));
        let down: u8 = if level < 255 {
            level + 1
        } else {
            255
        };
        let mut deeper = walk_bookmarks(&b.children, down);
        proof {
            lemma_entries_joined(
                own@,
                deeper@,
                seq![(*b, level)],
                preorder_upto(b.children@, below(level), b.children@.len() as int),
            );
            lemma_entries_joined(
                out@,
                own@ + deeper@,
                preorder_upto(bs@, level, i as int),
                preorder(*b, level),
            );
        }
        let ghost start = out@;
        let ghost mine = own@;
        let ghost rest = deeper@;
        own.append(&mut deeper);
        out.append(&mut own);
        assert(out@ =~= start + (mine + rest));
        i += 1;
    }
    out
}

/// The outline: the bookmarks with their levels, parents before those below
/// them.
pub fn outline(roots: &Vec<Bookmark>) -> (r: Vec<OutlineEntry>)
    ensures
        are_entries(r@, preorder_upto(roots@, 1, roots@.len() as int)),
{
    walk_bookmarks(roots, 1)
}

/// In the outline a bookmark comes before all that are below it, and right
/// after it comes the first of them, one level down.
pub proof fn parents_come_first(b: Bookmark, level: u8)
    ensures
        preorder(b, level).len() > 0,
        preorder(b, level)[0] == (b, level),
        b.children@.len() > 0 ==> preorder(b, level).len() > 1 && preorder(b, level)[1] == (
            b.children@[0],
            below(level),
        ),
{
    if b.children@.len() > 0 {
        lemma_first_child(b.children@, below(level), b.children@.len() as int);
    }
}

proof fn lemma_first_child(bs: Seq<Bookmark>, level: u8, n: int)
    requires
        0 < n <= bs.len(),
    ensures
        preorder_upto(bs, level, n).len() > 0,
        preorder_upto(bs, level, n)[0] == (bs[0], level),
    decreases n,
{
    reveal_with_fuel(preorder_upto, 2);
    if n > 1 {
        lemma_first_child(bs, level, n - 1);
    } else {
        assert(preorder_upto(bs, level, 0).len() == 0);
        assert(preorder_upto(bs, level, 1) =~= preorder(bs[0], level));
    }
}

// ── Signatures ─────────────────────────────────────────────────────────

/// How many numbers of a byte range are read at most.
pub const MAX_BYTE_RANGE_VALUES: usize = 8;

/// What is known of a document's signatures.
#[derive(Clone, Copy, PartialEq, Eq, Structural, Debug)]
pub struct SignatureSummary {
    /// `None` where signatures cannot be counted, which is not the same as none.
    pub count: Option<u32>,
    /// Whether the signed ranges that could be read all reach the end of the
    /// file; `None` where none could be read.
    pub byte_range_reaches_eof: Option<bool>,
}

impl Default for SignatureSummary {
    /// Nothing is known.
    fn default() -> (r: SignatureSummary)
        ensures
            r.count is None,
            r.byte_range_reaches_eof is None,
    {
        SignatureSummary { count: None, byte_range_reaches_eof: None }
    }
}

/// The byte range of a signature: the numbers read, and how many there are.
#[derive(Debug)]
pub struct ByteRange {
    pub values: Vec<i32>,
    pub len: usize,
}

impl ByteRange {
    /// Whether there is room for as many numbers as are read.
    pub open spec fn ok(self) -> bool {
        self.values@.len() == MAX_BYTE_RANGE_VALUES
    }
}

/// Whether the range of a signature can be told.
pub open spec fn range_known(s: Option<ByteRange>) -> bool {
    s matches Some(r) && 2 <= r.len <= MAX_BYTE_RANGE_VALUES
}

/// Whether the last part of a signed range ends before the end of the file.
pub open spec fn range_falls_short(r: ByteRange, file_size: u64) -> bool {
    let start = r.values@[r.len - 2];
    let length = r.values@[r.len - 1];
    start < 0 || length < 0 || start + length < file_size
}

/// Whether one of the first `n` ranges is known.
pub open spec fn any_known(all: Seq<Option<ByteRange>>, n: int) -> bool {
    exists|i: int| 0 <= i < n && range_known(#[trigger] all[i])
}

/// Whether all of the first `n` ranges that are known reach the end of the file.
pub open spec fn all_reach(all: Seq<Option<ByteRange>>, file_size: u64, n: int) -> bool {
    forall|i: int|
        0 <= i < n && range_known(#[trigger] all[i]) ==> !range_falls_short(
            all[i]->0,
            file_size,
        )
}

/// What is known of a document's signatures. `count` is `None` where signatures
/// cannot be counted, `signatures` holds the byte range of each, where it can be
/// read. Without the size of the file nothing is said of the ranges.
pub fn signature_summary(
    count: Option<i32>,
    file_size: Option<u64>,
    signatures: &Vec<Option<ByteRange>>,
) -> (r: SignatureSummary)
    requires
        count matches Some(c) ==> c <= signatures@.len(),
        forall|i: int|
            0 <= i < signatures@.len() ==> ((#[trigger] signatures@[i]) matches Some(b) ==> b.ok()),
    ensures
        match count {
            None => r.count is None && r.byte_range_reaches_eof is None,
            Some(c) => {
                let n = if c < 0 {
                    0int
                } else {
                    c as int
                };
                &&& r.count matches Some(k) && k == n
                &&& match file_size {
                    Some(size) => r.byte_range_reaches_eof == (if any_known(signatures@, n) {
                        Some(all_reach(signatures@, size, n))
                    } else {
                        None
                    }),
                    None => r.byte_range_reaches_eof is None,
                }
            },
        },
{
    let c: i32 = match count {
        Some(c) => c,
        None => {
            return SignatureSummary::default();
        },
    };
    let n: u32 = if c < 0 {
        0
    } else {
        c as u32
    };
    let size: u64 = match file_size {
        Some(size) => size,
        None => {
            return SignatureSummary { count: Some(n), byte_range_reaches_eof: None };
        },
    };
    let mut known = false;
    let mut reaches = true;
    let mut i: usize = 0;
    while i < n as usize
        invariant
            i <= n <= signatures@.len(),
            forall|k: int|
                0 <= k < signatures@.len() ==> ((#[trigger] signatures@[k]) matches Some(b)
                    ==> b.ok()),
            known == any_known(signatures@, i as int),
            reaches == all_reach(signatures@, size, i as int),
        decreases n - i,
    {
        if let Some(range) = &signatures[i] {
            assert(signatures@[i as int]->0.ok());
            if 2 <= range.len && range.len <= MAX_BYTE_RANGE_VALUES {
                assert(range_known(signatures@[i as int]));
                known = true;
                let start: i64 = range.values[range.len - 2] as i64;
                let length: i64 = range.values[range.len - 1] as i64;
                if start < 0 || length < 0 || ((start + length) as u64) < size {
                    assert(range_falls_short(signatures@[i as int]->0, size));
                    reaches = false;
                }
            }
        }
        i += 1;
    }
    SignatureSummary {
        count: Some(n),
        byte_range_reaches_eof: if known {
            Some(reaches)
        } else {
            None
        },
    }
}

// ── Form packets ───────────────────────────────────────────────────────

/// One packet of a form document.
#[derive(Debug)]
pub struct XfaPacket {
    /// Counted from 0.
    pub index: i32,
    pub name: Option<String>,
    pub content: Option<Vec<u8>>,
}

/// What came of asking for a packet: for its name and its content each how many
/// bytes were announced, what was filled in, and how many bytes were written.
#[derive(Debug)]
pub struct PacketReading {
    pub name_len: usize,
    pub name: Vec<u8>,
    pub name_written: usize,
    /// Whether the size of the content could be told.
    pub sized: bool,
    pub content_len: usize,
    /// Whether the content could be read.
    pub content_ok: bool,
    pub content: Vec<u8>,
    pub content_written: usize,
}

/// The smaller of a length and the number of bytes there are.
pub open spec fn cut_at(bytes: Seq<u8>, n: usize) -> Seq<u8> {
    if n < bytes.len() {
        bytes.take(n as int)
    } else {
        bytes
    }
}

/// Bytes without the zeros at their end.
pub open spec fn without_zeros(bytes: Seq<u8>) -> Seq<u8>
    decreases bytes.len(),
{
    if bytes.len() > 0 && bytes.last() == 0 {
        without_zeros(bytes.drop_last())
    } else {
        bytes
    }
}

/// Whether a packet is what a reading says. A name or a content that cannot be
/// read is missing; the packet itself is not.
pub open spec fn is_packet(p: XfaPacket, index: i32, r: PacketReading) -> bool {
    &&& p.index == index
    &&& match p.name {
        Some(name) => r.name_len > 0 && r.name_written > 0 && name@ == text::lossy_utf8(
            without_zeros(cut_at(r.name@, r.name_written)),
        ),
        None => r.name_len == 0 || r.name_written == 0,
    }
    &&& match p.content {
        Some(content) => r.sized && r.content_len > 0 && r.content_ok && content@ == cut_at(
            r.content@,
            r.content_written,
        ),
        None => !r.sized || r.content_len == 0 || !r.content_ok,
    }
}

fn truncated(bytes: Vec<u8>, n: usize) -> (r: Vec<u8>)
    ensures
        r@ == cut_at(bytes@, n),
{
    let mut out = bytes;
    if n < out.len() {
        out.truncate(n);
    }
    out
}

fn trim_zeros(bytes: Vec<u8>) -> (r: Vec<u8>)
    ensures
        r@ == without_zeros(bytes@),
{
    let mut out = bytes;
    let ghost all = out@;
    while out.len() > 0 && out[out.len() - 1] == 0
        invariant
            without_zeros(out@) == without_zeros(all),
        decreases out@.len(),
    {
        let ghost before = out@;
        out.pop();
        assert(out@ =~= before.drop_last());
    }
    out
}

/// The packet that a reading gives.
pub fn read_packet(index: i32, r: PacketReading) -> (p: XfaPacket)
    ensures
        is_packet(p, index, r),
{
    let PacketReading {
        name_len,
        name,
        name_written,
        sized,
        content_len,
        content_ok,
        content,
        content_written,
    } = r;
    let name = if name_len > 0 && name_written > 0 {
        Some(text::decode_lossy(&trim_zeros(truncated(name, name_written))))
    } else {
        None
    };
    let content = if sized && content_len > 0 && content_ok {
        Some(truncated(content, content_written))
    } else {
        None
    };
    XfaPacket { index, name, content }
}

/// The packets of a form document; none where the document counts none.
pub fn xfa_packets(count: i32, readings: Vec<PacketReading>) -> (r: Vec<XfaPacket>)
    requires
        count > 0 ==> readings@.len() == count,
    ensures
        r@.len() == (if count > 0 {
            count as int
        } else {
            0
        }),
        forall|i: int|
            0 <= i < r@.len() ==> is_packet(#[trigger] r@[i], i as i32, readings@[i]),
{
    let mut out: Vec<XfaPacket> = Vec::new();
    if count <= 0 {
        return out;
    }
    let ghost all = readings@;
    let mut index: i32 = 0;
    for reading in it: readings
        invariant
            it.seq() == all,
            all.len() == count,
            index == it.index(),
            out@.len() == it.index(),
            forall|i: int| 0 <= i < out@.len() ==> is_packet(#[trigger] out@[i], i as i32, all[i]),
        {
        out.push(read_packet(index, reading));
        index += 1;
    }
    out
}

/// Whether a packet is given out as another one: its content as text, with the
/// length that it has in bytes.
pub open spec fn is_given_out(p: XfaPacket, out: types::XfaPacket) -> bool {
    &&& out.index == (if p.index < 0 {
        0int
    } else {
        p.index as int
    })
    &&& out.name == p.name
    &&& match p.content {
        Some(content) => {
            &&& out.content_length == content@.len() % 0x1_0000_0000
            &&& out.content matches Some(s) && s@ == text::lossy_utf8(content@)
        },
        None => out.content_length == 0 && out.content is None,
    }
}

/// The form in which a packet is given out.
pub fn give_out_packet(p: XfaPacket) -> (r: types::XfaPacket)
    ensures
        is_given_out(p, r),
{
    let XfaPacket { index, name, content } = p;
    let index: u32 = if index < 0 {
        0
    } else {
        index as u32
    };
    match content {
        Some(bytes) => {
            let length: u32 = (bytes.len() as u64 % 0x1_0000_0000) as u32;
            types::XfaPacket {
                index,
                name,
                content_length: length,
                content: Some(text::decode_lossy(&bytes)),
            }
        },
        None => types::XfaPacket { index, name, content_length: 0, content: None },
    }
}

/// The form in which the packets of a document are given out.
pub fn give_out_packets(packets: Vec<XfaPacket>) -> (r: Vec<types::XfaPacket>)
    ensures
        r@.len() == packets@.len(),
        forall|i: int| 0 <= i < r@.len() ==> is_given_out(packets@[i], #[trigger] r@[i]),
{
    let ghost all = packets@;
    let mut out: Vec<types::XfaPacket> = Vec::new();
    for p in it: packets
        invariant
            it.seq() == all,
            out@.len() == it.index(),
            forall|i: int| 0 <= i < out@.len() ==> is_given_out(all[i], #[trigger] out@[i]),
        {
        out.push(give_out_packet(p));
    }
    out
}

/// How many pages a document has, from the number that is reported: one below zero
/// stands for none.
pub fn page_total(count: i32) -> (r: usize)
    ensures
        r == (if count < 0 {
            0
        } else {
            count as int
        }),
{
    if count < 0 {
        0
    } else {
        count as usize
    }
}

// ── Units of a page ────────────────────────────────────────────────────

/// A user unit of one point, in millionths of a point.
pub const ONE_UNIT: u64 = 1_000_000;

/// The size of a page's unit, in contracts: what the page itself says, and only
/// where that cannot be asked what was found in the file. It is never below one
/// point.
pub open spec fn unit_of(asked: Option<Option<u64>>, table: Seq<u64>, index: i32) -> u64 {
    match asked {
        Some(said) => match said {
            Some(u) => if u >= ONE_UNIT {
                u
            } else {
                ONE_UNIT
            },
            None => ONE_UNIT,
        },
        None => if 0 <= index < table.len() {
            table[index as int]
        } else {
            ONE_UNIT
        },
    }
}

/// The size of a page's unit. `asked` is `None` where the page cannot be asked,
/// and `Some(None)` where what it said is no number.
pub fn user_unit(asked: Option<Option<u64>>, table: &Vec<u64>, index: i32) -> (r: u64)
    ensures
        r == unit_of(asked, table@, index),
{
    match asked {
        Some(said) => match said {
            Some(u) => if u >= ONE_UNIT {
                u
            } else {
                ONE_UNIT
            },
            None => ONE_UNIT,
        },
        None => if index >= 0 && (index as usize) < table.len() {
            table[index as usize]
        } else {
            ONE_UNIT
        },
    }
}

/// The units of a copy of one page: that of the page, where the file states one.
pub fn copied_units(table: &Vec<u64>, index: i32) -> (r: Vec<u64>)
    ensures
        r@ == (if 0 <= index < table@.len() {
            seq![table@[index as int]]
        } else {
            seq![]
        }),
{
    let mut out: Vec<u64> = Vec::new();
    if index >= 0 && (index as usize) < table.len() {
        out.push(table[index as usize]);
    }
    out
}

// ── A page reduced to its widgets ──────────────────────────────────────

/// The subtype of a form widget.
pub const ANNOT_WIDGET: i32 = 20;

/// The flags under which an annotation is not seen: invisible, hidden, not to be
/// viewed.
pub const SUPPRESSED_FLAGS: i32 = 35;

/// The flag of a hidden annotation.
pub const HIDDEN_FLAG: i32 = 2;

/// What a flattened page reports.
pub const FLATTEN_SUCCESS: i32 = 1;

/// Whether an annotation is a widget that is seen.
pub open spec fn visible_widget(subtype: i32, flags: i32) -> bool {
    subtype == ANNOT_WIDGET && flags & SUPPRESSED_FLAGS == 0
}

/// Where the making of a copy stands.
#[derive(Clone, Copy, PartialEq, Eq, Structural, Debug)]
pub enum CopyState {
    Start,
    Creating,
    Importing,
    Opening,
    /// This annotation of so many is being read.
    ReadingAnnot(i32, i32),
    /// This annotation of so many is being hidden.
    Hiding(i32, i32),
    CountingObjects,
    /// This object is being removed, and then those before it.
    Removing(i32),
    Generating,
    Flattening,
    Ended,
}

/// What came of the work that was to be done.
#[derive(Clone, Copy, PartialEq, Eq, Structural, Debug)]
pub enum CopyEvent {
    /// Whether pages can be edited at all.
    Begin(bool),
    /// Whether the work was done.
    Done(bool),
    /// The page was opened, and has so many annotations.
    Opened(i32),
    /// The subtype and the flags of an annotation.
    Annot(i32, i32),
    /// How many objects the page has.
    Objects(i32),
    /// What flattening reported.
    Flattened(i32),
}

/// What is to be done next.
#[derive(Clone, Copy, PartialEq, Eq, Structural, Debug)]
pub enum CopyAction {
    /// Create an empty document.
    Create,
    /// Import the page into it.
    Import,
    /// Open the page of the copy.
    Open,
    ReadAnnot(i32),
    /// Give an annotation these flags.
    SetFlags(i32, i32),
    CountObjects,
    RemoveObject(i32),
    /// Write the page's content anew.
    Generate,
    Flatten,
    /// The copy is ready.
    Return,
    /// There is no copy.
    GiveUp,
    Ignore,
}

/// The step that reads the annotation at `i`, or the one after the last.
pub open spec fn to_annot(i: int, total: i32) -> (CopyState, CopyAction) {
    if i < total {
        (CopyState::ReadingAnnot(i as i32, total), CopyAction::ReadAnnot(i as i32))
    } else {
        (CopyState::CountingObjects, CopyAction::CountObjects)
    }
}

/// The step that removes the object at `i`, or the one after the first.
pub open spec fn to_object(i: int) -> (CopyState, CopyAction) {
    if i >= 0 {
        (CopyState::Removing(i as i32), CopyAction::RemoveObject(i as i32))
    } else {
        (CopyState::Generating, CopyAction::Generate)
    }
}

/// The right step of making a copy.
pub open spec fn copy_step_of(from: CopyState, event: CopyEvent) -> (CopyState, CopyAction) {
    match (from, event) {
        (CopyState::Start, CopyEvent::Begin(true)) => (CopyState::Creating, CopyAction::Create),
        (CopyState::Start, CopyEvent::Begin(false)) => (CopyState::Ended, CopyAction::GiveUp),
        (CopyState::Creating, CopyEvent::Done(true)) => (CopyState::Importing, CopyAction::Import),
        (CopyState::Importing, CopyEvent::Done(true)) => (CopyState::Opening, CopyAction::Open),
        (CopyState::Opening, CopyEvent::Opened(total)) => to_annot(0, total),
        (CopyState::ReadingAnnot(i, total), CopyEvent::Annot(subtype, flags)) => if visible_widget(
            subtype,
            flags,
        ) {
            to_annot(i + 1, total)
        } else {
            (CopyState::Hiding(i, total), CopyAction::SetFlags(i, flags | HIDDEN_FLAG))
        },
        (CopyState::Hiding(i, total), CopyEvent::Done(true)) => to_annot(i + 1, total),
        (CopyState::CountingObjects, CopyEvent::Objects(n)) => to_object(n - 1),
        (CopyState::Removing(i), CopyEvent::Done(true)) => to_object(i - 1),
        (CopyState::Generating, CopyEvent::Done(true)) => (
            CopyState::Flattening,
            CopyAction::Flatten,
        ),
        (CopyState::Flattening, CopyEvent::Flattened(code)) => (
            CopyState::Ended,
            if code == FLATTEN_SUCCESS {
                CopyAction::Return
            } else {
                CopyAction::GiveUp
            },
        ),
        (CopyState::Ended, _) => (CopyState::Ended, CopyAction::Ignore),
        (CopyState::Start, _) => (CopyState::Start, CopyAction::Ignore),
        (_, CopyEvent::Done(false)) => (CopyState::Ended, CopyAction::GiveUp),
        _ => (from, CopyAction::Ignore),
    }
}

fn next_annot(i: i32, total: i32) -> (r: (CopyState, CopyAction))
    ensures
        r == to_annot(i as int, total),
{
    if i < total {
        (CopyState::ReadingAnnot(i, total), CopyAction::ReadAnnot(i))
    } else {
        (CopyState::CountingObjects, CopyAction::CountObjects)
    }
}

/// The step to the last of the objects that are left.
fn next_object(left: i32) -> (r: (CopyState, CopyAction))
    ensures
        r == to_object(left - 1),
{
    if left > 0 {
        (CopyState::Removing(left - 1), CopyAction::RemoveObject(left - 1))
    } else {
        (CopyState::Generating, CopyAction::Generate)
    }
}

/// One step of making a copy of a page that shows nothing but its form widgets:
/// what is to be done next, after what came of the work so far. Every annotation
/// that is no widget to be seen is hidden, every object of the page is removed,
/// from the last to the first, and the widgets become part of the page. Whatever
/// fails, there is no copy.
pub fn widget_copy_step(from: CopyState, event: CopyEvent) -> (r: (CopyState, CopyAction))
    requires
        from matches CopyState::ReadingAnnot(i, total) ==> i < total,
        from matches CopyState::Hiding(i, total) ==> i < total,
    ensures
        r == copy_step_of(from, event),
        r.0 matches CopyState::ReadingAnnot(i, total) ==> i < total,
        r.0 matches CopyState::Hiding(i, total) ==> i < total,
{
    match (from, event) {
        (CopyState::Start, CopyEvent::Begin(can)) => if can {
            (CopyState::Creating, CopyAction::Create)
        } else {
            (CopyState::Ended, CopyAction::GiveUp)
        },
        (CopyState::Creating, CopyEvent::Done(true)) => (CopyState::Importing, CopyAction::Import),
        (CopyState::Importing, CopyEvent::Done(true)) => (CopyState::Opening, CopyAction::Open),
        (CopyState::Opening, CopyEvent::Opened(total)) => next_annot(0, total),
        (CopyState::ReadingAnnot(i, total), CopyEvent::Annot(subtype, flags)) => if subtype
            == ANNOT_WIDGET && flags & SUPPRESSED_FLAGS == 0 {
            next_annot(i + 1, total)
        } else {
            (CopyState::Hiding(i, total), CopyAction::SetFlags(i, flags | HIDDEN_FLAG))
        },
        (CopyState::Hiding(i, total), CopyEvent::Done(true)) => next_annot(i + 1, total),
        (CopyState::CountingObjects, CopyEvent::Objects(n)) => next_object(n),
        (CopyState::Removing(i), CopyEvent::Done(true)) => next_object(i),
        (CopyState::Generating, CopyEvent::Done(true)) => (
            CopyState::Flattening,
            CopyAction::Flatten,
        ),
        (CopyState::Flattening, CopyEvent::Flattened(code)) => (
            CopyState::Ended,
            if code == FLATTEN_SUCCESS {
                CopyAction::Return
            } else {
                CopyAction::GiveUp
            },
        ),
        (CopyState::Ended, _) => (CopyState::Ended, CopyAction::Ignore),
        (CopyState::Start, _) => (CopyState::Start, CopyAction::Ignore),
        (_, CopyEvent::Done(false)) => (CopyState::Ended, CopyAction::GiveUp),
        _ => (from, CopyAction::Ignore),
    }
}

/// An annotation that is hidden is no longer a widget to be seen.
pub proof fn hidden_annotations_are_not_seen(subtype: i32, flags: i32)
    ensures
        !visible_widget(subtype, flags | HIDDEN_FLAG),
{
    assert((flags | 2) & 35 != 0) by (bit_vector);
}

/// A copy is only given out where the page was flattened: every other way ends
/// without one.
pub proof fn only_flattened_copies_are_given_out(from: CopyState, event: CopyEvent)
    requires
        copy_step_of(from, event).1 == CopyAction::Return,
    ensures
        from == CopyState::Flattening,
        event == CopyEvent::Flattened(FLATTEN_SUCCESS),
{
}

}
