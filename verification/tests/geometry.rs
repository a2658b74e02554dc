use pdfplumber::direction::{exported_word_direction, rotated_upright};
use pdfplumber::javascript::{search_settings, text_layout};
use pdfplumber::page_boxes::{
    initial_doctop_is_integer, invert_box_kinds, list_pages, normalize_box_kinds, optional_box_kinds, page_box_kinds,
    page_dimension_kinds, AxisOrder, BoxNumberKinds, PageListEntry,
};
use pdfplumber::{rotate_direction, TextDirection};

const ALL_DIRECTIONS: [TextDirection; 4] =
    [TextDirection::Ltr, TextDirection::Rtl, TextDirection::Ttb, TextDirection::Btt];

#[test]
fn quarter_turn_rotates_clockwise() {
    assert_eq!(rotate_direction(TextDirection::Ltr, 90), TextDirection::Ttb);
    assert_eq!(rotate_direction(TextDirection::Ttb, 90), TextDirection::Rtl);
    assert_eq!(rotate_direction(TextDirection::Rtl, 90), TextDirection::Btt);
    assert_eq!(rotate_direction(TextDirection::Btt, 90), TextDirection::Ltr);
    assert_eq!(rotate_direction(TextDirection::Ltr, 180), TextDirection::Rtl);
    assert_eq!(rotate_direction(TextDirection::Ltr, 270), TextDirection::Btt);
    assert_eq!(rotate_direction(TextDirection::Ttb, 0), TextDirection::Ttb);
    assert_eq!(rotate_direction(TextDirection::Ttb, 45), TextDirection::Ttb);
}

#[test]
fn rotations_compose_and_undo() {
    let angles = [0, 90, 180, 270];
    for dir in ALL_DIRECTIONS {
        for a in angles {
            for b in angles {
                assert_eq!(
                    rotate_direction(rotate_direction(dir, a), b),
                    rotate_direction(dir, (a + b) % 360)
                );
            }
        }
        assert_eq!(rotate_direction(rotate_direction(dir, 90), 270), dir);
    }
}

#[test]
fn direction_names() {
    assert_eq!(TextDirection::Ltr.name(), "ltr");
    assert_eq!(TextDirection::Rtl.name(), "rtl");
    assert_eq!(TextDirection::Ttb.name(), "ttb");
    assert_eq!(TextDirection::Btt.name(), "btt");
}

#[test]
fn quarter_turns_flip_uprightness() {
    assert!(!rotated_upright(true, 90));
    assert!(rotated_upright(false, 270));
    assert!(rotated_upright(true, 180));
    assert!(!rotated_upright(false, 0));
}

#[test]
fn word_direction_follows_first_character() {
    assert_eq!(exported_word_direction(Some(true), TextDirection::Rtl), TextDirection::Ltr);
    assert_eq!(exported_word_direction(Some(false), TextDirection::Rtl), TextDirection::Ttb);
    assert_eq!(exported_word_direction(None, TextDirection::Rtl), TextDirection::Rtl);
}

fn kinds(x0: bool, top: bool, x1: bool, bottom: bool) -> BoxNumberKinds {
    BoxNumberKinds { x0, top, x1, bottom }
}

const ASCENDING: AxisOrder = AxisOrder { x_ascending: true, y_ascending: true };

#[test]
fn normalizing_reorders_and_swaps_axes() {
    let k = kinds(true, false, false, true);
    let reversed = AxisOrder { x_ascending: false, y_ascending: false };
    assert_eq!(normalize_box_kinds(k, ASCENDING, 0), k);
    assert_eq!(normalize_box_kinds(k, reversed, 0), kinds(false, true, true, false));
    assert_eq!(normalize_box_kinds(k, ASCENDING, 90), kinds(false, true, true, false));
    assert_eq!(normalize_box_kinds(k, ASCENDING, 270), kinds(false, true, true, false));
    assert_eq!(normalize_box_kinds(k, reversed, 90), kinds(true, false, false, true));
    assert_eq!(BoxNumberKinds::from_flags([true, false, true, false]), kinds(true, false, true, false));
    assert_eq!(kinds(true, false, true, false).to_flags(), [true, false, true, false]);
}

#[test]
fn inverting_needs_an_integer_height() {
    let k = kinds(true, true, false, false);
    assert_eq!(invert_box_kinds(k, true), kinds(true, false, false, true));
    assert_eq!(invert_box_kinds(k, false), kinds(true, false, false, false));
    assert_eq!(invert_box_kinds(invert_box_kinds(k, true), true), k);
}

#[test]
fn crop_box_falls_back_to_media_box() {
    let media = kinds(true, true, true, false);
    let (media_out, crop_out) = page_box_kinds(media, ASCENDING, None, ASCENDING, 0);
    assert_eq!(media_out, kinds(true, false, true, false));
    assert_eq!(crop_out, media_out);
    let integer_media = kinds(true, true, true, true);
    let (_, crop) = page_box_kinds(integer_media, ASCENDING, Some(kinds(false, true, true, false)), ASCENDING, 0);
    assert_eq!(crop, kinds(false, false, true, true));
    assert_eq!(page_dimension_kinds(media, ASCENDING, 0), (true, false));
    assert_eq!(page_dimension_kinds(integer_media, ASCENDING, 90), (true, true));
}

#[test]
fn optional_boxes_are_absent_without_a_box() {
    let media = kinds(true, true, true, true);
    assert_eq!(optional_box_kinds(media, ASCENDING, None, 0), None);
    assert_eq!(
        optional_box_kinds(media, ASCENDING, Some((kinds(true, false, true, true), ASCENDING)), 0),
        Some(kinds(true, true, true, false))
    );
}

fn entry(index: usize, initial: Option<bool>) -> PageListEntry {
    PageListEntry { index, initial_doctop_is_integer: initial }
}

#[test]
fn all_pages_listed_without_selection() {
    let heights = vec![true, false, true];
    assert_eq!(
        list_pages(3, None, &heights),
        vec![entry(0, None), entry(1, None), entry(2, None)]
    );
}

#[test]
fn selected_pages_listed_in_document_order() {
    let heights = vec![true, false, true, true];
    let selected = vec![4, 2, 2, 9, 0, -1, 1];
    assert_eq!(
        list_pages(4, Some(&selected), &heights),
        vec![entry(0, Some(true)), entry(1, Some(true)), entry(3, Some(false))]
    );
    assert!(list_pages(4, Some(&vec![]), &heights).is_empty());
    assert!(list_pages(0, None, &vec![]).is_empty());
}

#[test]
fn javascript_defaults() {
    let defaults = search_settings(None, None);
    assert!(defaults.regex);
    assert!(defaults.case_sensitive);
    let literal = search_settings(Some(false), Some(false));
    assert!(!literal.regex);
    assert!(!literal.case_sensitive);
    assert!(!text_layout(None));
    assert!(text_layout(Some(true)));
}

#[test]
fn initial_offsets_are_integers_when_earlier_heights_are() {
    let heights = vec![true, false, true];
    assert!(initial_doctop_is_integer(None, &heights, 0));
    assert!(initial_doctop_is_integer(None, &heights, 1));
    assert!(!initial_doctop_is_integer(None, &heights, 2));
    assert!(!initial_doctop_is_integer(None, &heights, 3));
    assert!(initial_doctop_is_integer(Some(true), &heights, 3));
    assert!(!initial_doctop_is_integer(Some(false), &heights, 0));
}
