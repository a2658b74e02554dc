use pdfplumber::document::{
    check_page_limit, items_on_page, check_input_limit, normalize_rotation, read_limit, PageInfo, Pdf, ResourceLimits,
};
use pdfplumber::errors::{LimitName, ObjectId, PdfErrorKind};
use pdfplumber::pages::Pages;

fn page_info(number: u32, rotation: i32) -> PageInfo {
    PageInfo {
        object_id: ObjectId { number, generation: 0 },
        rotation,
        media_box_integer_flags: [true, true, true, true],
        crop_box_integer_flags: None,
        trim_box_integer_flags: None,
        bleed_box_integer_flags: None,
        art_box_integer_flags: None,
    }
}

fn unlimited() -> ResourceLimits {
    ResourceLimits {
        max_input_bytes: None,
        max_pages: None,
        max_total_objects: None,
        max_total_image_bytes: None,
    }
}

fn one_page_pdf() -> Pdf {
    Pdf::from_pages(vec![page_info(3, 0)], unlimited()).unwrap()
}

fn two_page_pdf() -> Pdf {
    Pdf::from_pages(vec![page_info(3, 0), page_info(5, 0)], unlimited()).unwrap()
}

#[test]
fn page_count_single_page() {
    let pdf = one_page_pdf();
    assert_eq!(pdf.page_count(), 1);
}

#[test]
fn page_count_two_pages() {
    let pdf = two_page_pdf();
    assert_eq!(pdf.page_count(), 2);
}

#[test]
fn page_count_available_without_processing() {
    let pdf = two_page_pdf();
    assert_eq!(pdf.page_count(), 2);
}

#[test]
fn page_rotation_is_inherited_normalized_and_available_without_content_interpretation() {
    let pdf = Pdf::from_pages(vec![page_info(3, -90)], unlimited()).unwrap();
    assert_eq!(pdf.page_rotation(0), Some(270));
    assert_eq!(pdf.page_rotation(1), None);
}

#[test]
fn page_rotation_default_zero() {
    let pdf = one_page_pdf();
    assert_eq!(pdf.page_rotation(0), Some(0));
}

#[test]
fn page_rotation_is_normalized() {
    let pdf = Pdf::from_pages(vec![page_info(3, 450)], unlimited()).unwrap();
    assert_eq!(pdf.page_rotation(0), Some(90));
}

#[test]
fn rotation_normalization_is_euclidean() {
    assert_eq!(normalize_rotation(0), 0);
    assert_eq!(normalize_rotation(360), 0);
    assert_eq!(normalize_rotation(-90), 270);
    assert_eq!(normalize_rotation(-450), 270);
    assert_eq!(normalize_rotation(720 + 180), 180);
    assert_eq!(normalize_rotation(i32::MIN), 232);
}

#[test]
fn page_selection_out_of_range_is_none() {
    let pdf = one_page_pdf();
    assert!(pdf.pages().get(1).is_none());
    assert!(pdf.pages().get(100).is_none());
    assert_eq!(pdf.pages().get(0), Some(0));
}

#[test]
fn pages_iter_yields_all_pages() {
    let pdf = two_page_pdf();
    let mut iter = pdf.pages_iter();
    let mut pages = Vec::new();
    while let Some(index) = iter.next() {
        pages.push(index);
    }
    assert_eq!(pages.len(), 2);
    assert_eq!(pages[0], 0);
    assert_eq!(pages[1], 1);
}

#[test]
fn pages_iter_empty_after_exhaustion() {
    let pdf = one_page_pdf();
    let mut iter = pdf.pages_iter();
    assert!(iter.next().is_some());
    assert!(iter.next().is_none());
    assert!(iter.next().is_none());
}

#[test]
fn pages_iter_size_hint() {
    let pdf = two_page_pdf();
    let mut iter = pdf.pages_iter();
    assert_eq!(iter.size_hint(), (2, Some(2)));
    let _ = iter.next();
    assert_eq!(iter.size_hint(), (1, Some(1)));
    let _ = iter.next();
    assert_eq!(iter.size_hint(), (0, Some(0)));
}

#[test]
fn pages_iter_can_be_partially_consumed() {
    let pdf = two_page_pdf();
    let mut iter = pdf.pages_iter();
    let first = iter.next().unwrap();
    assert_eq!(first, 0);
    drop(iter);
    assert_eq!(pdf.pages().get(1), Some(1));
}

#[test]
fn pages_iter_from_both_ends_meets_in_the_middle() {
    let pages = Pages::new(5);
    let mut iter = pages.iter();
    assert_eq!(iter.next(), Some(0));
    assert_eq!(iter.next_back(), Some(4));
    assert_eq!(iter.next_back(), Some(3));
    assert_eq!(iter.len(), 2);
    assert_eq!(iter.next(), Some(1));
    assert_eq!(iter.next(), Some(2));
    assert_eq!(iter.next_back(), None);
    assert_eq!(iter.next(), None);
    assert!(!pages.is_empty());
    assert!(Pages::new(0).is_empty());
    assert_eq!(pages.len(), 5);
}

#[test]
fn max_pages_rejects_larger_documents() {
    let limits = ResourceLimits { max_pages: Some(1), ..unlimited() };
    let error = Pdf::from_pages(vec![page_info(3, 0), page_info(5, 0)], limits).err().unwrap();
    assert_eq!(error.kind(), PdfErrorKind::ResourceLimit);
    let limit = error.resource_limit().unwrap();
    assert_eq!(limit.name, LimitName::MaxPages);
    assert_eq!(limit.limit, 1);
    assert_eq!(limit.observed, 2);
    assert!(Pdf::from_pages(vec![page_info(3, 0)], limits).is_ok());
}

#[test]
fn input_limit_accepts_up_to_the_limit() {
    assert!(check_input_limit(100, Some(100)).is_ok());
    assert!(check_input_limit(100, None).is_ok());
    let error = check_input_limit(101, Some(100)).err().unwrap();
    let limit = error.resource_limit().unwrap();
    assert_eq!(limit.name, LimitName::MaxInputBytes);
    assert_eq!(limit.limit, 100);
    assert_eq!(limit.observed, 101);
}

#[test]
fn bounded_read_takes_one_byte_more_than_the_limit() {
    assert_eq!(read_limit(Some(100)), Some(101));
    assert_eq!(read_limit(Some(usize::MAX)), Some(usize::MAX as u64));
    assert_eq!(read_limit(None), None);
}

#[test]
fn object_budget_accumulates_across_pages() {
    let limits = ResourceLimits { max_total_objects: Some(10), ..unlimited() };
    let mut pdf = Pdf::from_pages(vec![page_info(3, 0), page_info(5, 0)], limits).unwrap();
    assert!(pdf.charge_page_objects(0, 6).is_ok());
    assert!(pdf.charge_page_objects(1, 4).is_ok());
    let error = pdf.charge_page_objects(1, 1).err().unwrap();
    let limit = error.resource_limit().unwrap();
    assert_eq!(limit.name, LimitName::MaxTotalObjects);
    assert_eq!(limit.limit, 10);
    assert_eq!(limit.observed, 11);
    assert_eq!(error.page, Some(1));
    assert_eq!(error.object, Some(ObjectId { number: 5, generation: 0 }));
    assert_eq!(error.operation, Some("extract page objects"));
}

#[test]
fn image_budget_accumulates_across_pages() {
    let limits = ResourceLimits { max_total_image_bytes: Some(100), ..unlimited() };
    let mut pdf = Pdf::from_pages(vec![page_info(3, 0), page_info(5, 0)], limits).unwrap();
    assert!(pdf.charge_page_image_bytes(0, 60).is_ok());
    let error = pdf.charge_page_image_bytes(0, 41).err().unwrap();
    let limit = error.resource_limit().unwrap();
    assert_eq!(limit.name, LimitName::MaxTotalImageBytes);
    assert_eq!(limit.observed, 101);
    assert_eq!(error.page, Some(0));
    assert_eq!(error.object, Some(ObjectId { number: 3, generation: 0 }));
    assert_eq!(error.operation, Some("extract page images"));
}

#[test]
fn unlimited_budgets_never_fail() {
    let mut pdf = one_page_pdf();
    assert!(pdf.charge_page_objects(0, usize::MAX).is_ok());
    assert!(pdf.charge_page_objects(0, usize::MAX).is_ok());
    assert!(pdf.charge_page_image_bytes(0, usize::MAX).is_ok());
}

#[test]
fn box_number_kinds_are_reported_per_page() {
    let mut second = page_info(5, 0);
    second.crop_box_integer_flags = Some([true, false, true, false]);
    second.art_box_integer_flags = Some([false, false, false, false]);
    let pdf = Pdf::from_pages(vec![page_info(3, 0), second], unlimited()).unwrap();
    assert_eq!(pdf.page_media_box_integer_flags(0), Some([true, true, true, true]));
    assert_eq!(pdf.page_crop_box_integer_flags(0), None);
    assert_eq!(pdf.page_crop_box_integer_flags(1), Some([true, false, true, false]));
    assert_eq!(pdf.page_art_box_integer_flags(1), Some([false, false, false, false]));
    assert_eq!(pdf.page_trim_box_integer_flags(1), None);
    assert_eq!(pdf.page_bleed_box_integer_flags(1), None);
    assert_eq!(pdf.page_media_box_integer_flags(2), None);
}

#[test]
fn page_accounting_checks_objects_before_images() {
    let limits = ResourceLimits {
        max_total_objects: Some(5),
        max_total_image_bytes: Some(5),
        ..unlimited()
    };
    let mut pdf = Pdf::from_pages(vec![page_info(3, 0)], limits).unwrap();
    assert!(pdf.charge_page(0, 5, 5).is_ok());
    let error = pdf.charge_page(0, 1, 1).err().unwrap();
    assert_eq!(error.resource_limit().unwrap().name, LimitName::MaxTotalObjects);
    let mut fresh = Pdf::from_pages(vec![page_info(3, 0)], limits).unwrap();
    let error = fresh.charge_page(0, 0, 6).err().unwrap();
    assert_eq!(error.resource_limit().unwrap().name, LimitName::MaxTotalImageBytes);
    assert_eq!(error.resource_limit().unwrap().observed, 6);
}

#[test]
fn items_are_selected_by_page() {
    let pages = vec![Some(0), None, Some(2), Some(0), Some(1)];
    assert_eq!(items_on_page(&pages, 0), vec![0, 3]);
    assert_eq!(items_on_page(&pages, 1), vec![4]);
    assert_eq!(items_on_page(&pages, 7), Vec::<usize>::new());
}

#[test]
fn pages_iter_matches_page_selection() {
    let pdf = two_page_pdf();
    let mut iter = pdf.pages_iter();
    let mut idx = 0usize;
    while let Some(iter_page) = iter.next() {
        let direct_page = pdf.pages().get(idx).unwrap();
        assert_eq!(iter_page, direct_page);
        idx += 1;
    }
    assert_eq!(idx, pdf.page_count());
}

#[test]
fn iteration_ends_at_last_page() {
    let pdf = two_page_pdf();
    let mut last_page_number = None;
    let mut iter = pdf.pages_iter();
    while let Some(page) = iter.next() {
        last_page_number = Some(page);
    }
    assert_eq!(last_page_number, Some(1));
}

#[test]
fn page_limit_is_checked_on_the_count_alone() {
    let limits = ResourceLimits { max_pages: Some(3), ..unlimited() };
    assert!(check_page_limit(3, &limits).is_ok());
    assert!(check_page_limit(1000, &unlimited()).is_ok());
    let error = check_page_limit(4, &limits).err().unwrap();
    let limit = error.resource_limit().unwrap();
    assert_eq!(limit.name, LimitName::MaxPages);
    assert_eq!(limit.limit, 3);
    assert_eq!(limit.observed, 4);
}

#[test]
fn object_budget_over_many_requests() {
    let limits = ResourceLimits { max_total_objects: Some(10), ..unlimited() };
    let mut pdf = Pdf::from_pages(vec![page_info(3, 0), page_info(5, 0)], limits).unwrap();
    let counts = [3usize, 4, 3, 1, 0, 2];
    let mut total = 0usize;
    let mut refused_once = false;
    for (k, &count) in counts.iter().enumerate() {
        total += count;
        let result = pdf.charge_page_objects(k % 2, count);
        assert_eq!(result.is_err(), total > 10);
        if refused_once {
            assert!(result.is_err());
        }
        refused_once |= result.is_err();
    }
    assert!(refused_once);
}

#[test]
fn no_budget_means_no_shared_state() {
    let mut pdf = two_page_pdf();
    for _ in 0..3 {
        assert!(pdf.charge_page(0, 1000, 1000).is_ok());
        assert!(pdf.charge_page(1, usize::MAX, usize::MAX).is_ok());
    }
}
