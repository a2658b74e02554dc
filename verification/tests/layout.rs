use pdfplumber::boxes::merge_layout_boxes;
use pdfplumber::families::{exported_family_order, FamilyPresence, ObjectFamily};
use pdfplumber::layout::{
    group_layout_lines, plan_layout_objects, LayoutBox, LayoutFamily, LayoutLine,
    LayoutOrientation, PairAlignment,
};
use pdfplumber::objects::PageObjectKind;
use pdfplumber::box_order::{order_by_keys, BoxClusters, SortKey};

const H: PairAlignment = PairAlignment { horizontal: true, vertical: false };
const V: PairAlignment = PairAlignment { horizontal: false, vertical: true };
const BOTH: PairAlignment = PairAlignment { horizontal: true, vertical: true };
const NONE: PairAlignment = PairAlignment { horizontal: false, vertical: false };

fn runs(groups: &[pdfplumber::layout::LayoutLineGroup]) -> Vec<(LayoutOrientation, Vec<usize>)> {
    groups.iter().map(|g| (g.orientation, g.char_indices.clone())).collect()
}

#[test]
fn horizontal_run_then_lone_character() {
    let groups = group_layout_lines(4, &vec![H, H, NONE], false);
    assert_eq!(
        runs(&groups),
        vec![
            (LayoutOrientation::Horizontal, vec![0, 1, 2]),
            (LayoutOrientation::Horizontal, vec![3]),
        ]
    );
}

#[test]
fn lone_character_then_horizontal_run() {
    let groups = group_layout_lines(3, &vec![NONE, H], false);
    assert_eq!(
        runs(&groups),
        vec![
            (LayoutOrientation::Horizontal, vec![0]),
            (LayoutOrientation::Horizontal, vec![1, 2]),
        ]
    );
}

#[test]
fn broken_run_restarts_at_the_next_character() {
    let groups = group_layout_lines(4, &vec![H, NONE, H], false);
    assert_eq!(
        runs(&groups),
        vec![
            (LayoutOrientation::Horizontal, vec![0, 1]),
            (LayoutOrientation::Horizontal, vec![2, 3]),
        ]
    );
}

#[test]
fn vertical_runs_need_detection() {
    let off = group_layout_lines(3, &vec![V, V], false);
    assert_eq!(
        runs(&off),
        vec![
            (LayoutOrientation::Horizontal, vec![0]),
            (LayoutOrientation::Horizontal, vec![1]),
            (LayoutOrientation::Horizontal, vec![2]),
        ]
    );
    let on = group_layout_lines(3, &vec![V, V], true);
    assert_eq!(runs(&on), vec![(LayoutOrientation::Vertical, vec![0, 1, 2])]);
}

#[test]
fn ambiguous_pairs_do_not_open_lines() {
    let groups = group_layout_lines(3, &vec![BOTH, H], true);
    assert_eq!(
        runs(&groups),
        vec![
            (LayoutOrientation::Horizontal, vec![0]),
            (LayoutOrientation::Horizontal, vec![1, 2]),
        ]
    );
}

#[test]
fn single_and_no_characters() {
    assert_eq!(
        runs(&group_layout_lines(1, &vec![], false)),
        vec![(LayoutOrientation::Horizontal, vec![0])]
    );
    assert!(group_layout_lines(0, &vec![], true).is_empty());
}

#[test]
fn neighbours_merge_into_boxes_in_line_order() {
    let boxes = merge_layout_boxes(&vec![false, false, false], &vec![vec![0, 1], vec![1, 0], vec![2]]);
    assert_eq!(boxes, vec![vec![1, 0], vec![2]]);
}

#[test]
fn blank_lines_get_no_box() {
    let boxes = merge_layout_boxes(&vec![false, true, false], &vec![vec![0], vec![], vec![2]]);
    assert_eq!(boxes, vec![vec![0], vec![2]]);
    assert!(merge_layout_boxes(&vec![], &vec![]).is_empty());
}

#[test]
fn chains_of_neighbours_form_one_box() {
    let boxes = merge_layout_boxes(
        &vec![false, false, false],
        &vec![vec![0, 1], vec![1, 2], vec![2]],
    );
    assert_eq!(boxes, vec![vec![2, 1, 0]]);
}

fn line(orientation: LayoutOrientation, chars: Vec<usize>, empty: bool) -> LayoutLine {
    LayoutLine { orientation, char_indices: chars, empty }
}

#[test]
fn layout_plan_follows_box_order_then_blank_lines() {
    let lines = vec![
        line(LayoutOrientation::Horizontal, vec![0, 1], false),
        line(LayoutOrientation::Horizontal, vec![2], true),
        line(LayoutOrientation::Vertical, vec![3, 4], false),
    ];
    let boxes = vec![
        LayoutBox { orientation: LayoutOrientation::Horizontal, line_indices: vec![0] },
        LayoutBox { orientation: LayoutOrientation::Vertical, line_indices: vec![2] },
    ];
    let plan = plan_layout_objects(&lines, &boxes, &vec![1, 0]);
    assert_eq!(plan.vertical_boxes, vec![1]);
    assert_eq!(plan.horizontal_boxes, vec![0]);
    assert_eq!(plan.vertical_lines, vec![2]);
    assert_eq!(plan.horizontal_lines, vec![0, 1]);
    assert_eq!(plan.ordered_char_indices, vec![3, 4, 0, 1, 2]);
    assert_eq!(
        plan.family_order,
        vec![
            LayoutFamily::TextBoxVertical,
            LayoutFamily::TextLineVertical,
            LayoutFamily::Char,
            LayoutFamily::TextBoxHorizontal,
            LayoutFamily::TextLineHorizontal,
        ]
    );
}

#[test]
fn empty_layout_plan() {
    let plan = plan_layout_objects(&vec![], &vec![], &vec![]);
    assert!(plan.family_order.is_empty());
    assert!(plan.ordered_char_indices.is_empty());
}

#[test]
fn layout_family_names() {
    assert_eq!(LayoutFamily::TextBoxHorizontal.as_str(), "textboxhorizontal");
    assert_eq!(LayoutFamily::TextLineVertical.as_str(), "textlinevertical");
    assert_eq!(LayoutFamily::Char.as_str(), "char");
}

fn presence(all: bool) -> FamilyPresence {
    FamilyPresence {
        textbox_horizontal: all,
        textbox_vertical: all,
        textline_horizontal: all,
        textline_vertical: all,
        char: all,
        line: all,
        rect: all,
        curve: all,
        image: all,
    }
}

#[test]
fn exported_families_follow_layout_then_page_order() {
    let order = exported_family_order(
        &vec![LayoutFamily::TextBoxHorizontal, LayoutFamily::TextLineHorizontal, LayoutFamily::Char],
        &vec![PageObjectKind::Rect, PageObjectKind::Char],
        &presence(true),
    );
    assert_eq!(
        order,
        vec![
            ObjectFamily::TextBoxHorizontal,
            ObjectFamily::TextLineHorizontal,
            ObjectFamily::Char,
            ObjectFamily::Rect,
            ObjectFamily::Line,
            ObjectFamily::Curve,
            ObjectFamily::Image,
        ]
    );
}

#[test]
fn families_without_objects_are_left_out() {
    let mut present = presence(false);
    present.line = true;
    present.image = true;
    let order = exported_family_order(&vec![], &vec![PageObjectKind::Image, PageObjectKind::Rect], &present);
    assert_eq!(order, vec![ObjectFamily::Image, ObjectFamily::Line]);
    assert!(exported_family_order(&vec![], &vec![], &presence(false)).is_empty());
    assert_eq!(ObjectFamily::TextBoxVertical.as_str(), "textboxvertical");
    assert_eq!(ObjectFamily::Curve.as_str(), "curve");
}

#[test]
fn reading_order_takes_every_character_once() {
    let alignments = vec![H, H, NONE, H, NONE];
    let groups = group_layout_lines(6, &alignments, false);
    let lines: Vec<LayoutLine> = groups
        .iter()
        .map(|g| line(g.orientation, g.char_indices.clone(), g.char_indices.len() == 1))
        .collect();
    let empty: Vec<bool> = lines.iter().map(|l| l.empty).collect();
    let neighbors: Vec<Vec<usize>> = (0..lines.len())
        .map(|i| if empty[i] { vec![] } else { (0..lines.len()).filter(|j| !empty[*j]).collect() })
        .collect();
    let merged = merge_layout_boxes(&empty, &neighbors);
    let boxes: Vec<LayoutBox> = merged
        .iter()
        .map(|m| LayoutBox { orientation: LayoutOrientation::Horizontal, line_indices: m.iter().rev().cloned().collect() })
        .collect();
    let order: Vec<usize> = (0..boxes.len()).rev().collect();
    let plan = plan_layout_objects(&lines, &boxes, &order);
    let mut chars = plan.ordered_char_indices.clone();
    chars.sort();
    assert_eq!(chars, (0..6).collect::<Vec<usize>>());
}

#[test]
fn sorted_box_order_is_stable_by_key() {
    let keys: Vec<SortKey> = vec![(1, 5, 0), (0, 9, 9), (1, 5, 0), (1, -3, 7), (0, 9, 2)];
    assert_eq!(order_by_keys(&keys), vec![4, 1, 3, 0, 2]);
    assert_eq!(order_by_keys(&vec![]), Vec::<usize>::new());
}

#[test]
fn unmerged_boxes_read_in_index_order() {
    let clusters = BoxClusters::new(3);
    assert_eq!(clusters.node_count(), 3);
    assert_eq!(clusters.reading_order(), vec![0, 1, 2]);
}

#[test]
fn merged_groups_read_members_in_given_order() {
    let mut clusters = BoxClusters::new(4);
    assert_eq!(clusters.merge(2, 0), 4);
    assert!(!clusters.is_active(0) && !clusters.is_active(2) && clusters.is_active(4));
    assert_eq!(clusters.reading_order(), vec![1, 3, 2, 0]);
    assert_eq!(clusters.merge(3, 4), 5);
    assert_eq!(clusters.reading_order(), vec![1, 3, 2, 0]);
    assert_eq!(clusters.merge(5, 1), 6);
    assert_eq!(clusters.node_count(), 7);
    assert_eq!(clusters.reading_order(), vec![3, 2, 0, 1]);
}
