use liteparse::document::{
    bookmark_title, copied_units, give_out_packets, meta_text, outline, page_label, page_total,
    signature_summary, user_unit, widget_copy_step, xfa_packets, Bookmark, ByteRange, CopyAction,
    CopyEvent, CopyState, Dest, PacketReading, TextReading, XfaPacket,
};
use liteparse::page_object::{
    count_of, image_bytes, image_filter, object_count, path_draw_mode, path_segment, PageObjectKind,
    PathDrawMode, SegmentKind,
};
use liteparse::units::Pt;

fn pt(x: f64) -> Pt {
    Pt::from_emu((x * 12700.0).round() as i64)
}

/// What is read for a text: its units and a 0.
fn reading(s: &str) -> TextReading {
    let mut units: Vec<u16> = s.encode_utf16().collect();
    units.push(0);
    let bytes = units.len() * 2;
    TextReading { needed: bytes, units, written: bytes }
}

#[test]
fn an_entry_is_read_up_to_its_end() {
    assert_eq!(meta_text(&reading("Word é 😀")).as_deref(), Some("Word é 😀"));
    assert_eq!(meta_text(&reading("")).as_deref(), Some(""));
    let none = TextReading { needed: 0, units: vec![], written: 0 };
    assert_eq!(meta_text(&none), None);
    let open = TextReading { needed: 4, units: vec![0x41, 0x42], written: 4 };
    assert_eq!(meta_text(&open).as_deref(), Some("AB"));
    // A unit without its partner is replaced.
    let lone = TextReading { needed: 8, units: vec![0xD83D, 0x41, 0xDE00, 0], written: 8 };
    assert_eq!(meta_text(&lone).as_deref(), Some("\u{FFFD}A\u{FFFD}"));
}

#[test]
fn a_label_is_there_only_where_it_says_something() {
    assert_eq!(page_label(3, &reading("iv")).as_deref(), Some("iv"));
    assert_eq!(page_label(-1, &reading("iv")), None);
    assert_eq!(page_label(0, &reading("")), None);
    let zeros = TextReading { needed: 4, units: vec![0x41, 0], written: 2 };
    assert_eq!(page_label(0, &zeros), None);
    assert_eq!(bookmark_title(&reading("Intro")), "Intro");
    let none = TextReading { needed: 1, units: vec![], written: 0 };
    assert_eq!(bookmark_title(&none), "");
}

fn mark(title: &str, page: i32, children: Vec<Bookmark>) -> Bookmark {
    Bookmark {
        title: title.into(),
        dest: Some(Dest { page_index: page, located: true, has_y: true, y: pt(700.0) }),
        action_dest: None,
        children,
    }
}

#[test]
fn an_outline_lists_parents_before_children() {
    let mut second = mark("B", -1, vec![]);
    second.dest = None;
    second.action_dest = Some(Dest { page_index: 4, located: true, has_y: false, y: pt(1.0) });
    let roots = vec![
        mark("A", 0, vec![mark("A1", 1, vec![mark("A11", 2, vec![])]), mark("A2", -1, vec![])]),
        second,
    ];
    let out = outline(&roots);
    let seen: Vec<(u8, &str, Option<i32>)> =
        out.iter().map(|e| (e.level, e.title.as_str(), e.page_index)).collect();
    assert_eq!(
        seen,
        vec![
            (1, "A", Some(0)),
            (2, "A1", Some(1)),
            (3, "A11", Some(2)),
            (2, "A2", None),
            (1, "B", Some(4)),
        ]
    );
    assert_eq!(out[0].y, Some(pt(700.0)));
    assert_eq!(out[4].y, None);
    assert!(outline(&vec![]).is_empty());
}

fn range(values: &[i32]) -> Option<ByteRange> {
    let mut v = values.to_vec();
    v.resize(8, 0);
    Some(ByteRange { values: v, len: values.len() })
}

#[test]
fn signatures_reach_the_end_or_fall_short() {
    let all = vec![range(&[0, 10, 20, 80]), None];
    let s = signature_summary(Some(2), Some(100), &all);
    assert_eq!((s.count, s.byte_range_reaches_eof), (Some(2), Some(true)));
    let s = signature_summary(Some(2), Some(101), &all);
    assert_eq!(s.byte_range_reaches_eof, Some(false));
    let s = signature_summary(Some(2), None, &all);
    assert_eq!((s.count, s.byte_range_reaches_eof), (Some(2), None));
    let s = signature_summary(None, Some(100), &all);
    assert_eq!((s.count, s.byte_range_reaches_eof), (None, None));
    let s = signature_summary(Some(-1), Some(100), &all);
    assert_eq!((s.count, s.byte_range_reaches_eof), (Some(0), None));
    let unread = vec![range(&[5])];
    let s = signature_summary(Some(1), Some(100), &unread);
    assert_eq!(s.byte_range_reaches_eof, None);
    let negative = vec![range(&[-1, 500])];
    let s = signature_summary(Some(1), Some(100), &negative);
    assert_eq!(s.byte_range_reaches_eof, Some(false));
}

fn packet(name: &[u8], written: usize, content: &[u8]) -> PacketReading {
    PacketReading {
        name_len: name.len(),
        name: name.to_vec(),
        name_written: written,
        sized: true,
        content_len: content.len(),
        content_ok: true,
        content: content.to_vec(),
        content_written: content.len(),
    }
}

#[test]
fn packets_keep_what_can_be_read() {
    let mut silent = packet(b"x", 0, b"");
    silent.content_ok = false;
    let packets = xfa_packets(
        2,
        vec![packet(b"datasets\0\0", 10, b"<a>\xff</a>"), silent],
    );
    assert_eq!(packets.len(), 2);
    assert_eq!(packets[0].name.as_deref(), Some("datasets"));
    assert_eq!(packets[0].content.as_deref(), Some(&b"<a>\xff</a>"[..]));
    assert_eq!((packets[1].index, packets[1].name.is_none()), (1, true));
    assert!(packets[1].content.is_none());
    assert!(xfa_packets(0, vec![]).is_empty());
    let out = give_out_packets(packets);
    assert_eq!(out[0].content.as_deref(), Some("<a>\u{FFFD}</a>"));
    assert_eq!(out[0].content_length, 8);
    assert_eq!((out[1].index, out[1].content_length), (1, 0));
    let below = give_out_packets(vec![XfaPacket { index: -3, name: None, content: None }]);
    assert_eq!(below[0].index, 0);
}

#[test]
fn a_unit_is_never_below_a_point() {
    let table = vec![2_000_000];
    assert_eq!(user_unit(Some(Some(3_000_000)), &table, 0), 3_000_000);
    assert_eq!(user_unit(Some(Some(5)), &table, 0), 1_000_000);
    assert_eq!(user_unit(Some(None), &table, 0), 1_000_000);
    assert_eq!(user_unit(None, &table, 0), 2_000_000);
    assert_eq!(user_unit(None, &table, 1), 1_000_000);
    assert_eq!(user_unit(None, &table, -1), 1_000_000);
    assert_eq!(copied_units(&table, 0), vec![2_000_000]);
    assert!(copied_units(&table, 4).is_empty());
}

#[test]
fn a_copy_hides_what_is_no_widget_and_removes_the_rest() {
    let events = [
        CopyEvent::Begin(true),
        CopyEvent::Done(true),
        CopyEvent::Done(true),
        CopyEvent::Opened(2),
        CopyEvent::Annot(20, 4), // a widget to be seen
        CopyEvent::Annot(20, 32), // one that is not to be viewed
        CopyEvent::Done(true),
        CopyEvent::Objects(2),
        CopyEvent::Done(true),
        CopyEvent::Done(true),
        CopyEvent::Done(true),
        CopyEvent::Flattened(1),
    ];
    let mut state = CopyState::Start;
    let mut actions = vec![];
    for event in events {
        let (next, action) = widget_copy_step(state, event);
        state = next;
        actions.push(action);
    }
    assert_eq!(
        actions,
        vec![
            CopyAction::Create,
            CopyAction::Import,
            CopyAction::Open,
            CopyAction::ReadAnnot(0),
            CopyAction::ReadAnnot(1),
            CopyAction::SetFlags(1, 34),
            CopyAction::CountObjects,
            CopyAction::RemoveObject(1),
            CopyAction::RemoveObject(0),
            CopyAction::Generate,
            CopyAction::Flatten,
            CopyAction::Return,
        ]
    );
    assert_eq!(state, CopyState::Ended);
}

#[test]
fn a_copy_is_given_up_where_anything_fails() {
    assert_eq!(
        widget_copy_step(CopyState::Start, CopyEvent::Begin(false)).1,
        CopyAction::GiveUp
    );
    for state in [
        CopyState::Creating,
        CopyState::Importing,
        CopyState::Opening,
        CopyState::ReadingAnnot(0, 1),
        CopyState::Hiding(0, 1),
        CopyState::Removing(0),
        CopyState::Generating,
    ] {
        let (next, action) = widget_copy_step(state, CopyEvent::Done(false));
        assert_eq!((next, action), (CopyState::Ended, CopyAction::GiveUp));
    }
    let (_, action) = widget_copy_step(CopyState::Flattening, CopyEvent::Flattened(0));
    assert_eq!(action, CopyAction::GiveUp);
}

#[test]
fn objects_are_told_by_their_numbers() {
    assert_eq!(PageObjectKind::from_code(1), PageObjectKind::Text);
    assert_eq!(PageObjectKind::from_code(2), PageObjectKind::Path);
    assert_eq!(PageObjectKind::from_code(3), PageObjectKind::Image);
    assert_eq!(PageObjectKind::from_code(4), PageObjectKind::Shading);
    assert_eq!(PageObjectKind::from_code(5), PageObjectKind::Form);
    assert_eq!(PageObjectKind::from_code(-1), PageObjectKind::Unknown);
    assert_eq!(
        path_draw_mode(true, 2, 0),
        Some(PathDrawMode { filled: true, stroked: false })
    );
    assert_eq!(path_draw_mode(false, 2, 1), None);
    let s = path_segment(2, Some((pt(1.0), pt(2.0))), 1);
    assert_eq!(s.kind, Some(SegmentKind::MoveTo));
    assert!(s.close);
    assert_eq!(path_segment(0, None, 0).kind, Some(SegmentKind::LineTo));
    assert_eq!(path_segment(1, None, 0).kind, Some(SegmentKind::BezierTo));
    assert_eq!(path_segment(-1, None, 0).kind, None);
    assert_eq!((count_of(3), count_of(-1)), (Some(3), None));
    assert_eq!((object_count(3), object_count(-1)), (3, 0));
}

#[test]
fn a_filter_name_ends_at_its_zero() {
    assert_eq!(
        image_filter(10, 10, &b"DCTDecode\0".to_vec()).as_deref(),
        Some("DCTDecode")
    );
    assert_eq!(image_filter(3, 3, &b"abc".to_vec()).as_deref(), Some("abc"));
    assert_eq!(image_filter(0, 3, &b"abc".to_vec()), None);
    assert_eq!(image_filter(3, 0, &b"abc".to_vec()), None);
}

#[test]
fn as_many_bytes_are_kept_as_were_written() {
    assert_eq!(image_bytes(3, 2, vec![1, 2, 3]), Some(vec![1, 2]));
    assert_eq!(image_bytes(3, 9, vec![1, 2, 3]), Some(vec![1, 2, 3]));
    assert_eq!(image_bytes(3, 0, vec![1, 2, 3]), None);
    assert_eq!(image_bytes(0, 3, vec![]), None);
}

#[test]
fn a_document_has_no_fewer_than_no_pages() {
    assert_eq!(page_total(-1), 0);
    assert_eq!(page_total(7), 7);
}
