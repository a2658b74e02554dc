use pdfplumber::objects::{
    object_order, paint_flags, shape_object_kind, CollectedObjectEvent, EventCollector,
    ExtractWarning, PageObjectKind, PaintOp, ShapeKind,
};
use pdfplumber::structure::{filter_struct_elements_for_page, page_structure_tree, StructElement};

type Collector = EventCollector<char, u32, &'static str, String>;

fn warning(description: &str, page: Option<usize>) -> ExtractWarning<String> {
    ExtractWarning { detail: description.to_string(), page }
}

#[test]
fn collector_gives_warnings_the_current_page() {
    let mut collector = Collector::new(0, true);
    collector.on_warning(warning("font not found in page resources: F2", None));
    for w in collector.warnings() {
        assert_eq!(w.page, Some(0), "warning should have page context");
    }
    assert_eq!(collector.warnings().len(), 1);
}

#[test]
fn collector_without_warnings_reports_none() {
    let mut collector = Collector::new(0, true);
    collector.on_char('H');
    assert!(collector.warnings().is_empty());
}

#[test]
fn collector_keeps_reported_warnings() {
    let mut collector = Collector::new(0, true);
    collector.on_warning(warning("font not found in page resources: F2", None));
    assert!(!collector.warnings().is_empty(), "expected warnings for missing font");
    assert!(collector.warnings()[0].detail.contains("font not found"));
    assert_eq!(collector.warnings()[0].page, Some(0));
}

#[test]
fn collector_drops_warnings_when_disabled() {
    let mut collector = Collector::new(0, false);
    collector.on_warning(warning("font not found in page resources: F2", None));
    assert!(collector.warnings().is_empty());
}

#[test]
fn warnings_keep_their_own_page() {
    let mut collector = Collector::new(4, true);
    collector.on_warning(warning("elsewhere", Some(2)));
    collector.on_warning(warning("here", None));
    assert_eq!(collector.warnings()[0].page, Some(2));
    assert_eq!(collector.warnings()[1].page, Some(4));
}

#[test]
fn collector_records_events_in_order() {
    let mut collector = Collector::new(0, true);
    collector.on_char('a');
    collector.on_path_painted(10);
    collector.on_image("Im0");
    collector.on_path_painted(11);
    collector.on_char('b');
    assert_eq!(collector.chars(), &vec!['a', 'b']);
    assert_eq!(collector.paths(), &vec![10, 11]);
    assert_eq!(collector.images(), &vec!["Im0"]);
    assert_eq!(
        collector.object_events(),
        &vec![
            CollectedObjectEvent::Char,
            CollectedObjectEvent::Path(0),
            CollectedObjectEvent::Image,
            CollectedObjectEvent::Path(1),
            CollectedObjectEvent::Char,
        ]
    );
}

#[test]
fn object_order_lists_families_at_first_appearance() {
    let events = vec![
        CollectedObjectEvent::Path(0),
        CollectedObjectEvent::Char,
        CollectedObjectEvent::Image,
        CollectedObjectEvent::Path(1),
        CollectedObjectEvent::Char,
    ];
    let path_kinds = vec![
        vec![PageObjectKind::Rect, PageObjectKind::Line],
        vec![PageObjectKind::Curve, PageObjectKind::Rect],
    ];
    assert_eq!(
        object_order(&events, &path_kinds, true, true),
        vec![
            PageObjectKind::Rect,
            PageObjectKind::Line,
            PageObjectKind::Char,
            PageObjectKind::Image,
            PageObjectKind::Curve,
        ]
    );
}

#[test]
fn object_order_skips_families_the_page_dropped() {
    let events = vec![CollectedObjectEvent::Char, CollectedObjectEvent::Image, CollectedObjectEvent::Path(0)];
    let path_kinds = vec![vec![]];
    assert_eq!(object_order(&events, &path_kinds, false, false), vec![]);
    assert_eq!(object_order(&events, &path_kinds, false, true), vec![PageObjectKind::Image]);
}

#[test]
fn shapes_map_to_object_kinds() {
    assert_eq!(shape_object_kind(ShapeKind::Line), PageObjectKind::Line);
    assert_eq!(shape_object_kind(ShapeKind::Rect), PageObjectKind::Rect);
    assert_eq!(shape_object_kind(ShapeKind::Curve), PageObjectKind::Curve);
}

#[test]
fn paint_operators_set_stroke_and_fill() {
    assert_eq!(paint_flags(PaintOp::Stroke), (true, false));
    assert_eq!(paint_flags(PaintOp::Fill), (false, true));
    assert_eq!(paint_flags(PaintOp::FillAndStroke), (true, true));
}

fn element(kind: &str, page: Option<usize>, mcids: Vec<u32>, children: Vec<StructElement<u8>>) -> StructElement<u8> {
    StructElement {
        element_type: kind.to_string(),
        mcids,
        alt_text: None,
        actual_text: None,
        lang: None,
        bbox: None,
        children,
        page_index: page,
    }
}

#[test]
fn structure_tree_is_restricted_to_the_page() {
    let tree = vec![
        element(
            "Document",
            None,
            vec![],
            vec![
                element("P", Some(0), vec![1, 2], vec![]),
                element("P", Some(1), vec![3], vec![]),
            ],
        ),
        element("Figure", Some(0), vec![9], vec![]),
    ];
    let page1 = filter_struct_elements_for_page(&tree, 1);
    assert_eq!(page1.len(), 1);
    assert_eq!(page1[0].element_type, "Document");
    assert_eq!(page1[0].children.len(), 1);
    assert_eq!(page1[0].children[0].mcids, vec![3]);

    let page0 = filter_struct_elements_for_page(&tree, 0);
    assert_eq!(page0.len(), 2);
    assert_eq!(page0[0].children[0].mcids, vec![1, 2]);
    assert_eq!(page0[1].element_type, "Figure");

    assert!(page_structure_tree(&tree, 5).is_none());
    assert!(page_structure_tree(&Vec::<StructElement<u8>>::new(), 0).is_none());
    assert_eq!(page_structure_tree(&tree, 1).unwrap().len(), 1);
}

#[test]
fn mcids_of_other_pages_are_dropped() {
    let tree = vec![element("Sect", Some(2), vec![7], vec![element("Span", Some(3), vec![8], vec![])])];
    let page3 = filter_struct_elements_for_page(&tree, 3);
    assert_eq!(page3.len(), 1);
    assert!(page3[0].mcids.is_empty());
    assert_eq!(page3[0].children[0].mcids, vec![8]);
}

#[test]
fn warnings_do_not_change_recorded_objects() {
    let mut on = Collector::new(1, true);
    let mut off = Collector::new(1, false);
    for collector in [&mut on, &mut off] {
        collector.on_char('A');
        collector.on_warning(warning("font not found in page resources: F2", None));
        collector.on_path_painted(7);
        collector.on_warning(warning("other page", Some(5)));
        collector.on_image("Im1");
        collector.on_char('B');
    }
    assert_eq!(on.chars(), off.chars());
    assert_eq!(on.paths(), off.paths());
    assert_eq!(on.images(), off.images());
    assert_eq!(on.object_events(), off.object_events());
    assert!(off.warnings().is_empty());
    assert_eq!(on.warnings().len(), 2);
    assert_eq!(on.warnings()[0].page, Some(1));
    assert_eq!(on.warnings()[1].page, Some(5));
}
