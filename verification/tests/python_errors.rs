use pdfplumber::errors::{page_error, LimitName, ObjectId, PdfError, PdfErrorKind};
use pdfplumber::python::{
    pdfminer_parse_message, resource_limit_message, strip_source_prefix, to_py_err,
    PyExceptionClass,
};

fn message_of(error: &PdfError, source: &str, display: &str) -> Option<String> {
    to_py_err(error, source, display).message
}

#[test]
fn lib_test_to_py_err_parse_error() {
    let error = PdfError::new(PdfErrorKind::Parse);
    let err = to_py_err(&error, "PDF parse error: bad xref", "PDF parse error: bad xref");
    assert_eq!(err.class, PyExceptionClass::PdfminerException);
    assert_eq!(err.message, Some("bad xref".to_string()));
}

#[test]
fn tests_test_to_py_err_parse_error() {
    let error = PdfError::new(PdfErrorKind::Parse);
    let err = to_py_err(&error, "PDF parse error: bad xref", "PDF parse error: bad xref");
    assert_eq!(err.class, PyExceptionClass::PdfminerException);
}

#[test]
fn lib_test_to_py_err_io_error() {
    let error = PdfError::new(PdfErrorKind::Io);
    let err = to_py_err(&error, "file not found", "I/O error: file not found");
    assert_eq!(err.class, PyExceptionClass::PdfIoError);
    assert_eq!(err.message, Some("file not found".to_string()));
}

#[test]
fn tests_test_to_py_err_io_error() {
    let error = PdfError::new(PdfErrorKind::Io);
    let err = to_py_err(&error, "I/O error: file not found", "I/O error: file not found");
    assert_eq!(err.class, PyExceptionClass::PdfIoError);
}

#[test]
fn lib_test_to_py_err_font_error() {
    let error = PdfError::new(PdfErrorKind::Font);
    let err = to_py_err(&error, "font error: missing glyph", "font error: missing glyph");
    assert_eq!(err.class, PyExceptionClass::PdfFontError);
    assert_eq!(err.message, Some("missing glyph".to_string()));
}

#[test]
fn tests_test_to_py_err_font_error() {
    let error = PdfError::new(PdfErrorKind::Font);
    let err = to_py_err(&error, "font error: missing glyph", "font error: missing glyph");
    assert_eq!(err.class, PyExceptionClass::PdfFontError);
}

#[test]
fn lib_test_to_py_err_interpreter_error() {
    let error = PdfError::new(PdfErrorKind::Interpreter);
    let err = to_py_err(&error, "interpreter error: unknown op", "interpreter error: unknown op");
    assert_eq!(err.class, PyExceptionClass::PdfInterpreterError);
    assert_eq!(err.message, Some("unknown op".to_string()));
}

#[test]
fn tests_test_to_py_err_interpreter_error() {
    let error = PdfError::new(PdfErrorKind::Interpreter);
    let err = to_py_err(&error, "interpreter error: unknown op", "interpreter error: unknown op");
    assert_eq!(err.class, PyExceptionClass::PdfInterpreterError);
}

#[test]
fn lib_test_to_py_err_resource_limit() {
    let error = PdfError::limit_exceeded(LimitName::MaxPages, 10, 20);
    let err = to_py_err(&error, "resource limit exceeded", "resource limit exceeded");
    assert_eq!(err.class, PyExceptionClass::PdfResourceLimitError);
    assert_eq!(err.message, Some("max_pages (limit: 10, actual: 20)".to_string()));
}

#[test]
fn tests_test_to_py_err_resource_limit() {
    let error = PdfError::limit_exceeded(LimitName::MaxPages, 10, 20);
    let err = to_py_err(&error, "resource limit exceeded", "resource limit exceeded");
    assert_eq!(err.class, PyExceptionClass::PdfResourceLimitError);
}

#[test]
fn test_to_py_err_resource_limit_without_details() {
    let error = PdfError::new(PdfErrorKind::ResourceLimit);
    let err = to_py_err(&error, "resource limit exceeded", "resource limit exceeded");
    assert_eq!(err.class, PyExceptionClass::PdfResourceLimitError);
    assert_eq!(err.message, Some("resource limit exceeded".to_string()));
}

#[test]
fn lib_test_to_py_err_password_required() {
    let error = PdfError::new(PdfErrorKind::PasswordRequired);
    let err = to_py_err(&error, "password required", "password required");
    assert_eq!(err.class, PyExceptionClass::PdfminerException);
    assert_eq!(err.message, None);
}

#[test]
fn lib_test_to_py_err_invalid_password() {
    let error = PdfError::new(PdfErrorKind::InvalidPassword);
    let err = to_py_err(&error, "invalid password", "invalid password");
    assert_eq!(err.class, PyExceptionClass::PdfminerException);
    assert_eq!(err.message, None);
}

#[test]
fn other_errors_raise_runtime_error_without_prefix() {
    let error = PdfError::new(PdfErrorKind::Other);
    let err = to_py_err(&error, "I/O error: odd", "something odd");
    assert_eq!(err.class, PyExceptionClass::RuntimeError);
    assert_eq!(err.message, Some("odd".to_string()));
}

#[test]
fn bad_header_reads_as_missing_root() {
    let error = PdfError::new(PdfErrorKind::Parse);
    assert_eq!(
        message_of(&error, "PDF parse error: invalid file header", "x"),
        Some("No /Root object! - Is this really a PDF?".to_string())
    );
    assert_eq!(
        pdfminer_parse_message("lopdf: invalid file header found".to_string()),
        "No /Root object! - Is this really a PDF?"
    );
    assert_eq!(pdfminer_parse_message("bad xref".to_string()), "bad xref");
}

#[test]
fn only_the_first_matching_prefix_is_removed() {
    assert_eq!(strip_source_prefix("I/O error: font error: x"), "font error: x");
    assert_eq!(strip_source_prefix("no prefix here"), "no prefix here");
    assert_eq!(strip_source_prefix("PDF parse error: "), "");
    assert_eq!(strip_source_prefix(" font error: x"), " font error: x");
}

#[test]
fn resource_limit_message_names_limit_and_values() {
    let error = PdfError::limit_exceeded(LimitName::MaxTotalImageBytes, 0, 18446744073709551615);
    let limit = error.resource_limit().unwrap();
    assert_eq!(
        resource_limit_message(limit),
        "max_total_image_bytes (limit: 0, actual: 18446744073709551615)"
    );
    let limit = PdfError::limit_exceeded(LimitName::MaxInputBytes, 100, 101)
        .resource_limit()
        .unwrap();
    assert_eq!(resource_limit_message(limit), "max_input_bytes (limit: 100, actual: 101)");
}

#[test]
fn limit_names_spell_option_names() {
    assert_eq!(LimitName::MaxInputBytes.as_str(), "max_input_bytes");
    assert_eq!(LimitName::MaxPages.as_str(), "max_pages");
    assert_eq!(LimitName::MaxTotalObjects.as_str(), "max_total_objects");
    assert_eq!(LimitName::MaxTotalImageBytes.as_str(), "max_total_image_bytes");
}

#[test]
fn page_error_attaches_operation_page_and_object() {
    let error = PdfError::new(PdfErrorKind::Parse);
    let with_object = page_error(error, "read page media box", 3, Some(ObjectId { number: 7, generation: 1 }));
    assert_eq!(with_object.kind(), PdfErrorKind::Parse);
    assert_eq!(with_object.page, Some(3));
    assert_eq!(with_object.object, Some(ObjectId { number: 7, generation: 1 }));
    assert_eq!(with_object.operation, Some("read page media box"));

    let earlier = PdfError::new(PdfErrorKind::Io).at_object(2, 0);
    let without_object = page_error(earlier, "load page", 0, None);
    assert_eq!(without_object.object, Some(ObjectId { number: 2, generation: 0 }));
    assert_eq!(without_object.page, Some(0));
    assert_eq!(without_object.operation, Some("load page"));
}

#[test]
fn limit_exceeded_records_details() {
    let error = PdfError::limit_exceeded(LimitName::MaxPages, 10, 20);
    assert_eq!(error.kind(), PdfErrorKind::ResourceLimit);
    let limit = error.resource_limit().unwrap();
    assert_eq!(limit.name, LimitName::MaxPages);
    assert_eq!(limit.limit, 10);
    assert_eq!(limit.observed, 20);
    assert_eq!(error.page, None);
    assert_eq!(PdfError::new(PdfErrorKind::Other).resource_limit(), None);
}
