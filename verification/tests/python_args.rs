use pdfplumber::caches::{
    document_cached_properties, document_flush_steps, page_cached_properties, page_flush_steps,
    FlushStep,
};
use pdfplumber::arguments::{
    bind_arguments, check_laparams_keys, parse_container_to_csv_args, parse_container_to_json_args,
    parse_pdf_open_args, parse_point2coord_arg, ArgumentError, ArgumentSource, FlagArgument,
    LaparamValue, OptionalArgument, PdfOpenArgs, TextArgument,
};
use pdfplumber::python::{
    metadata_check, stream_is_external, stream_source, strict_metadata_error, MetadataCheck,
    StreamSource, metadata_warning_message, missing_page_attribute, parse_unicode_norm, reclassify_stream_error,
    NativeObjectField, PyExceptionClass, PythonError, UnicodeNorm,
};

fn keys(names: &[&str]) -> Vec<String> {
    names.iter().map(|n| n.to_string()).collect()
}

fn type_error_text(result: Result<Vec<ArgumentSource>, PythonError>) -> String {
    let error = result.err().expect("binding should fail");
    assert_eq!(error.class, PyExceptionClass::TypeError);
    error.message.expect("TypeError carries a message")
}

use ArgumentSource::{Keyword, Missing, Positional};
use LaparamValue::{NoneValue, NumberInRange, NumberOutOfRange, Other};

fn pdf_open_error_text(result: Result<PdfOpenArgs, PythonError>) -> String {
    match result {
        Err(error) => {
            assert_eq!(error.class, PyExceptionClass::TypeError);
            error.message.expect("TypeError carries a message")
        }
        Ok(_) => panic!("expected a TypeError"),
    }
}

#[test]
fn pdf_open_binds_positionals_then_keywords() {
    let args = parse_pdf_open_args(
        &vec![false, false],
        &keys(&["password", "repair"]),
        &vec![false, false],
    )
    .unwrap();
    assert_eq!(args.path_or_fp, Positional(0));
    assert!(matches!(args.pages, OptionalArgument::Given(Positional(1))));
    assert!(matches!(args.laparams, OptionalArgument::Absent));
    assert!(matches!(args.password, OptionalArgument::Given(Keyword(0))));
    assert!(matches!(args.strict_metadata, FlagArgument::Default(false)));
    assert!(matches!(args.unicode_norm, OptionalArgument::Absent));
    assert!(matches!(args.repair, FlagArgument::Given(Keyword(1))));
    assert!(matches!(args.gs_path, OptionalArgument::Absent));
    assert!(matches!(args.repair_setting, TextArgument::Default("default")));
    assert!(matches!(args.raise_unicode_errors, OptionalArgument::Absent));
    let by_keyword = parse_pdf_open_args(&vec![], &keys(&["path_or_fp"]), &vec![false]).unwrap();
    assert_eq!(by_keyword.path_or_fp, Keyword(0));
}

#[test]
fn pdf_open_none_counts_as_absent() {
    let args = parse_pdf_open_args(
        &vec![false, true],
        &keys(&["password", "gs_path", "repair_setting", "raise_unicode_errors"]),
        &vec![true, false, false, true],
    )
    .unwrap();
    assert!(matches!(args.pages, OptionalArgument::Absent));
    assert!(matches!(args.password, OptionalArgument::Absent));
    assert!(matches!(args.gs_path, OptionalArgument::Given(Keyword(1))));
    assert!(matches!(args.repair_setting, TextArgument::Given(Keyword(2))));
    assert!(matches!(args.raise_unicode_errors, OptionalArgument::Given(Keyword(3))));
}

#[test]
fn pdf_open_errors_match_python() {
    assert_eq!(
        pdf_open_error_text(parse_pdf_open_args(&vec![false; 11], &keys(&[]), &vec![])),
        "PDF.open() takes from 1 to 10 positional arguments but 11 were given"
    );
    assert_eq!(
        pdf_open_error_text(parse_pdf_open_args(&vec![false], &keys(&["bogus"]), &vec![false])),
        "PDF.open() got an unexpected keyword argument 'bogus'"
    );
    assert_eq!(
        pdf_open_error_text(parse_pdf_open_args(&vec![false], &keys(&["path_or_fp"]), &vec![false])),
        "PDF.open() got multiple values for argument 'path_or_fp'"
    );
    assert_eq!(
        pdf_open_error_text(parse_pdf_open_args(&vec![], &keys(&["pages"]), &vec![false])),
        "PDF.open() missing 1 required positional argument: 'path_or_fp'"
    );
}

#[test]
fn container_methods_count_self() {
    assert_eq!(
        type_error_text(parse_container_to_json_args(7, &keys(&[]))),
        "Container.to_json() takes from 1 to 7 positional arguments but 8 were given"
    );
    assert_eq!(
        type_error_text(parse_container_to_csv_args(6, &keys(&[]))),
        "Container.to_csv() takes from 1 to 6 positional arguments but 7 were given"
    );
    assert_eq!(
        parse_container_to_json_args(0, &keys(&[])).unwrap(),
        vec![Missing, Missing, Missing, Missing, Missing, Missing]
    );
    assert_eq!(
        parse_container_to_csv_args(1, &keys(&["precision"])).unwrap(),
        vec![Positional(0), Missing, Keyword(0), Missing, Missing]
    );
    assert_eq!(
        type_error_text(parse_container_to_csv_args(0, &keys(&["indent"]))),
        "Container.to_csv() got an unexpected keyword argument 'indent'"
    );
    assert_eq!(
        type_error_text(parse_container_to_json_args(1, &keys(&["stream"]))),
        "Container.to_json() got multiple values for argument 'stream'"
    );
}

#[test]
fn point2coord_takes_one_point() {
    assert_eq!(parse_point2coord_arg(1, &keys(&[])).unwrap(), vec![Positional(0)]);
    assert_eq!(parse_point2coord_arg(0, &keys(&["pt"])).unwrap(), vec![Keyword(0)]);
    assert_eq!(
        type_error_text(parse_point2coord_arg(2, &keys(&[]))),
        "Page.point2coord() takes 2 positional arguments but 3 were given"
    );
    assert_eq!(
        type_error_text(parse_point2coord_arg(0, &keys(&["x"]))),
        "Page.point2coord() got an unexpected keyword argument 'x'"
    );
    assert_eq!(
        type_error_text(parse_point2coord_arg(1, &keys(&["pt"]))),
        "Page.point2coord() got multiple values for argument 'pt'"
    );
    assert_eq!(
        type_error_text(parse_point2coord_arg(0, &keys(&[]))),
        "Page.point2coord() missing 1 required positional argument: 'pt'"
    );
}

#[test]
fn binding_reports_the_first_failing_keyword() {
    let names = vec!["a", "b"];
    match bind_arguments(&names, 1, &keys(&["b", "c", "a"])) {
        Err(ArgumentError::UnexpectedKeyword { key }) => assert_eq!(key, "c"),
        _ => panic!("expected an unexpected keyword"),
    }
    match bind_arguments(&names, 0, &keys(&["b", "b"])) {
        Err(ArgumentError::MultipleValues { key }) => assert_eq!(key, "b"),
        _ => panic!("expected a repeated keyword"),
    }
    match bind_arguments(&names, 3, &keys(&[])) {
        Err(ArgumentError::TooManyPositional { given }) => assert_eq!(given, 3),
        _ => panic!("expected too many positionals"),
    }
}

#[test]
fn laparams_reject_unknown_keys() {
    assert!(check_laparams_keys(
        &keys(&["line_overlap", "detect_vertical", "all_texts"]),
        &vec![Other, Other, Other]
    )
    .is_ok());
    assert!(check_laparams_keys(&keys(&[]), &vec![]).is_ok());
    let error = check_laparams_keys(&keys(&["char_margin", "bogus", "worse"]), &vec![NumberInRange; 3])
        .err()
        .unwrap();
    assert_eq!(error.class, PyExceptionClass::TypeError);
    assert_eq!(
        error.message,
        Some("LAParams.__init__() got an unexpected keyword argument 'bogus'".to_string())
    );
    assert!(check_laparams_keys(&keys(&["boxes_flow"]), &vec![NoneValue]).is_ok());
    assert!(check_laparams_keys(&keys(&["boxes_flow"]), &vec![NumberInRange]).is_ok());
}

#[test]
fn laparams_boxes_flow_checked_in_entry_order() {
    let message = "LAParam boxes_flow should be None, or a number between -1 and +1";
    let out_of_range = check_laparams_keys(&keys(&["boxes_flow", "extra"]), &vec![NumberOutOfRange, NumberInRange])
        .err()
        .unwrap();
    assert_eq!(out_of_range.class, PyExceptionClass::ValueError);
    assert_eq!(out_of_range.message, Some(message.to_string()));
    let not_a_number = check_laparams_keys(&keys(&["line_margin", "boxes_flow"]), &vec![Other, Other])
        .err()
        .unwrap();
    assert_eq!(not_a_number.class, PyExceptionClass::TypeError);
    assert_eq!(not_a_number.message, Some(message.to_string()));
    let unknown_first = check_laparams_keys(&keys(&["extra", "boxes_flow"]), &vec![NumberInRange, NumberOutOfRange])
        .err()
        .unwrap();
    assert_eq!(unknown_first.class, PyExceptionClass::TypeError);
    assert_eq!(
        unknown_first.message,
        Some("LAParams.__init__() got an unexpected keyword argument 'extra'".to_string())
    );
}

#[test]
fn unicode_norm_names() {
    assert_eq!(parse_unicode_norm(None).unwrap(), UnicodeNorm::Disabled);
    assert_eq!(parse_unicode_norm(Some("NFC")).unwrap(), UnicodeNorm::Nfc);
    assert_eq!(parse_unicode_norm(Some("NFD")).unwrap(), UnicodeNorm::Nfd);
    assert_eq!(parse_unicode_norm(Some("NFKC")).unwrap(), UnicodeNorm::Nfkc);
    assert_eq!(parse_unicode_norm(Some("NFKD")).unwrap(), UnicodeNorm::Nfkd);
    let error = parse_unicode_norm(Some("nfc")).err().unwrap();
    assert_eq!(error.class, PyExceptionClass::ValueError);
    assert_eq!(error.message, Some("invalid normalization form".to_string()));
}

#[test]
fn native_fields_use_python_spellings() {
    assert_eq!(NativeObjectField::LineWidth.python_key(), "linewidth");
    assert_eq!(NativeObjectField::StrokeColor.python_key(), "stroking_color");
    assert_eq!(NativeObjectField::FillColor.python_key(), "non_stroking_color");
    assert_eq!(NativeObjectField::SourceDimensions.python_key(), "srcsize");
    assert_eq!(NativeObjectField::BitsPerComponent.python_key(), "bits");
    assert_eq!(NativeObjectField::ColorSpace.python_key(), "colorspace");
}

fn items(names: &[Option<&str>]) -> Vec<Option<String>> {
    names.iter().map(|n| n.map(|s| s.to_string())).collect()
}

#[test]
fn document_flush_clears_named_caches() {
    assert_eq!(document_flush_steps(None), vec![FlushStep::ClearObjects, FlushStep::ClearPages]);
    assert_eq!(
        document_flush_steps(Some(&items(&[Some("_pages"), Some("_edges"), Some("_objects")]))),
        vec![FlushStep::ClearPages, FlushStep::ClearObjects]
    );
    assert_eq!(
        document_flush_steps(Some(&items(&[Some("_objects"), None, Some("_pages")]))),
        vec![FlushStep::ClearObjects, FlushStep::RejectItem(1)]
    );
    assert_eq!(
        document_cached_properties(),
        vec!["_rect_edges", "_curve_edges", "_edges", "_objects", "_pages"]
    );
}

#[test]
fn page_flush_drops_attributes_and_layout() {
    assert_eq!(
        page_flush_steps(&items(&[Some("_objects"), Some("_layout")])),
        vec![FlushStep::DropAttribute(0), FlushStep::DropAttribute(1), FlushStep::ClearLayout]
    );
    assert_eq!(
        page_flush_steps(&items(&[None, Some("_layout")])),
        vec![FlushStep::RejectItem(0)]
    );
    assert_eq!(
        page_cached_properties(),
        vec!["_rect_edges", "_curve_edges", "_edges", "_objects", "_layout"]
    );
}

#[test]
fn closed_stream_errors_become_pdfminer_exceptions() {
    let error = reclassify_stream_error(true, "I/O operation on closed file.").unwrap();
    assert_eq!(error.class, PyExceptionClass::PdfminerException);
    assert_eq!(error.message, Some("I/O operation on closed file.".to_string()));
    assert!(reclassify_stream_error(false, "I/O operation on closed file.").is_none());
    assert!(reclassify_stream_error(true, "negative seek value").is_none());
}

#[test]
fn adapter_messages() {
    assert_eq!(
        metadata_warning_message("Title", "invalid utf-16"),
        "[WARNING] Metadata key \"Title\" could not be parsed due to exception: invalid utf-16"
    );
    let error = missing_page_attribute("foo");
    assert_eq!(error.class, PyExceptionClass::AttributeError);
    assert_eq!(error.message, Some("'Page' object has no attribute 'foo'".to_string()));
}

#[test]
fn opening_decides_stream_ownership_and_metadata_handling() {
    assert_eq!(stream_source(true, true), StreamSource::Repaired);
    assert_eq!(stream_source(false, true), StreamSource::OpenedPath);
    assert_eq!(stream_source(false, false), StreamSource::Caller);
    assert!(stream_is_external(StreamSource::Caller));
    assert!(!stream_is_external(StreamSource::Repaired));
    assert!(!stream_is_external(StreamSource::OpenedPath));
    assert_eq!(metadata_check(false, false), MetadataCheck::LogWarnings);
    assert_eq!(metadata_check(true, true), MetadataCheck::Accept);
    assert_eq!(metadata_check(true, false), MetadataCheck::Reject);
    let error = strict_metadata_error();
    assert_eq!(error.class, PyExceptionClass::RecursionError);
    assert_eq!(error.message, Some("maximum recursion depth exceeded".to_string()));
}
