//! Decisions of the Python compatibility adapter: which exception an
//! extraction error becomes and with what message, the option values it
//! accepts, and the spellings used in compatibility dictionaries.

use vstd::prelude::*;

use crate::errors::{limit_name_text, PdfError, PdfErrorKind, ResourceLimit};
use crate::text::{decimal, seq_contains_run, str_contains, str_equals, str_strip_prefix, usize_to_decimal};

verus! {

/// The package version reported as `pdfplumber.__version__`.
pub const VERSION: &'static str = "0.3.0";

/// The Python exception class an error is raised as.
#[derive(Debug, Clone, Copy, PartialEq, Eq, Structural)]
pub enum PyExceptionClass {
    /// `pdfplumber.utils.exceptions.PdfminerException`
    PdfminerException,
    /// `PdfIoError` (an `IOError`)
    PdfIoError,
    /// `PdfFontError`
    PdfFontError,
    /// `PdfInterpreterError`
    PdfInterpreterError,
    /// `PdfResourceLimitError`
    PdfResourceLimitError,
    /// `RuntimeError`
    RuntimeError,
    /// `TypeError`
    TypeError,
    /// `ValueError`
    ValueError,
    /// `AttributeError`
    AttributeError,
    /// `RecursionError`
    RecursionError,
}

/// The exception class for an error kind.
pub open spec fn exception_class_for(kind: PdfErrorKind) -> PyExceptionClass {
    match kind {
        PdfErrorKind::Parse => PyExceptionClass::PdfminerException,
        PdfErrorKind::Io => PyExceptionClass::PdfIoError,
        PdfErrorKind::Font => PyExceptionClass::PdfFontError,
        PdfErrorKind::Interpreter => PyExceptionClass::PdfInterpreterError,
        PdfErrorKind::ResourceLimit => PyExceptionClass::PdfResourceLimitError,
        PdfErrorKind::PasswordRequired => PyExceptionClass::PdfminerException,
        PdfErrorKind::InvalidPassword => PyExceptionClass::PdfminerException,
        PdfErrorKind::Other => PyExceptionClass::RuntimeError,
    }
}

/// An exception to raise: its class and its single message argument, or no
/// argument at all.
#[derive(Debug)]
pub struct PythonError {
    /// The exception class.
    pub class: PyExceptionClass,
    /// The message, when the exception carries one.
    pub message: Option<String>,
}

/// The message prefixes that the error display adds to each underlying cause.
pub open spec fn source_prefixes() -> Seq<Seq<char>> {
    seq!["PDF parse error: "@, "I/O error: "@, "font error: "@, "interpreter error: "@]
}

/// `message` without the first of `prefixes` (in order) that it starts with.
pub open spec fn strip_first_prefix(message: Seq<char>, prefixes: Seq<Seq<char>>) -> Seq<char>
    decreases prefixes.len(),
{
    if prefixes.len() == 0 {
        message
    } else if prefixes[0].is_prefix_of(message) {
        message.skip(prefixes[0].len() as int)
    } else {
        strip_first_prefix(message, prefixes.drop_first())
    }
}

/// The pdfminer wording for a parse failure: a bad file header reads as a
/// missing document root.
pub open spec fn pdfminer_parse_text(message: Seq<char>) -> Seq<char> {
    if seq_contains_run(message, "invalid file header"@) {
        "No /Root object! - Is this really a PDF?"@
    } else {
        message
    }
}

/// `name (limit: L, actual: A)`.
pub open spec fn resource_limit_text(limit: ResourceLimit) -> Seq<char> {
    limit_name_text(limit.name) + " (limit: "@ + decimal(limit.limit as nat) + ", actual: "@ + decimal(
        limit.observed as nat,
    ) + ")"@
}

/// The message an error is raised with, given the text of its underlying cause
/// (`source`, the display text when there is no cause) and its display text.
pub open spec fn python_message(error: PdfError, source: Seq<char>, display: Seq<char>) -> Option<
    Seq<char>,
> {
    match error.kind {
        PdfErrorKind::Parse => Some(pdfminer_parse_text(strip_first_prefix(source, source_prefixes()))),
        PdfErrorKind::ResourceLimit => match error.resource_limit {
            Some(limit) => Some(resource_limit_text(limit)),
            None => Some(display),
        },
        PdfErrorKind::PasswordRequired | PdfErrorKind::InvalidPassword => None,
        _ => Some(strip_first_prefix(source, source_prefixes())),
    }
}

/// The pdfminer wording for a parse failure.
pub fn pdfminer_parse_message(message: String) -> (res: String)
    ensures
        res@ == pdfminer_parse_text(message@),
{
    if str_contains(message.as_str(), "invalid file header") {
        proof {
            reveal_strlit("No /Root object! - Is this really a PDF?");
        }
        String::from_str("No /Root object! - Is this really a PDF?")
    } else {
        message
    }
}

/// Remove the display prefix from a cause's text.
pub fn strip_source_prefix(message: &str) -> (res: String)
    ensures
        res@ == strip_first_prefix(message@, source_prefixes()),
{
    let prefixes: [&str; 4] = ["PDF parse error: ", "I/O error: ", "font error: ", "interpreter error: "];
    let ghost ps = source_prefixes();
    proof {
        reveal_strlit("PDF parse error: ");
        reveal_strlit("I/O error: ");
        reveal_strlit("font error: ");
        reveal_strlit("interpreter error: ");
    }
    let mut i: usize = 0;
    assert(ps.len() == 4);
    assert(ps.skip(0) =~= ps);
    while i < 4
        invariant
            i <= 4,
            ps == source_prefixes(),
            ps.len() == 4,
            forall|j: int| 0 <= j < 4 ==> (#[trigger] prefixes@[j])@ == ps[j],
            strip_first_prefix(message@, ps) == strip_first_prefix(message@, ps.skip(i as int)),
        decreases 4 - i,
    {
        assert(ps.skip(i as int).drop_first() =~= ps.skip(i + 1));
        assert(ps.skip(i as int)[0] == ps[i as int]);
        match str_strip_prefix(message, prefixes[i]) {
            Some(rest) => {
                assert(rest@ =~= message@.skip(ps[i as int].len() as int));
                return String::from_str(rest);
            },
            None => {},
        }
        i = i + 1;
    }
    assert(ps.skip(4).len() == 0);
    String::from_str(message)
}

/// `name (limit: L, actual: A)` for an exceeded resource limit.
pub fn resource_limit_message(limit: ResourceLimit) -> (res: String)
    ensures
        res@ == resource_limit_text(limit),
{
    let mut text = String::from_str(limit.name.as_str());
    text.append(" (limit: ");
    let limit_digits = usize_to_decimal(limit.limit);
    text.append(limit_digits.as_str());
    text.append(", actual: ");
    let observed_digits = usize_to_decimal(limit.observed);
    text.append(observed_digits.as_str());
    text.append(")");
    proof {
        reveal_strlit(" (limit: ");
        reveal_strlit(", actual: ");
        reveal_strlit(")");
    }
    text
}

/// Convert an extraction error into the Python exception raised for it.
///
/// `source` is the text of the error's underlying cause (or its display text
/// when it has none); `display` is its display text.
pub fn to_py_err(error: &PdfError, source: &str, display: &str) -> (res: PythonError)
    ensures
        res.class == exception_class_for(error.kind),
        match python_message(*error, source@, display@) {
            Some(text) => res.message matches Some(m) && m@ == text,
            None => res.message is None,
        },
{
    match error.kind() {
        PdfErrorKind::Parse => PythonError {
            class: PyExceptionClass::PdfminerException,
            message: Some(pdfminer_parse_message(strip_source_prefix(source))),
        },
        PdfErrorKind::Io => PythonError {
            class: PyExceptionClass::PdfIoError,
            message: Some(strip_source_prefix(source)),
        },
        PdfErrorKind::Font => PythonError {
            class: PyExceptionClass::PdfFontError,
            message: Some(strip_source_prefix(source)),
        },
        PdfErrorKind::Interpreter => PythonError {
            class: PyExceptionClass::PdfInterpreterError,
            message: Some(strip_source_prefix(source)),
        },
        PdfErrorKind::ResourceLimit => match error.resource_limit() {
            Some(limit) => PythonError {
                class: PyExceptionClass::PdfResourceLimitError,
                message: Some(resource_limit_message(limit)),
            },
            None => PythonError {
                class: PyExceptionClass::PdfResourceLimitError,
                message: Some(String::from_str(display)),
            },
        },
        PdfErrorKind::PasswordRequired | PdfErrorKind::InvalidPassword => PythonError {
            class: PyExceptionClass::PdfminerException,
            message: None,
        },
        PdfErrorKind::Other => PythonError {
            class: PyExceptionClass::RuntimeError,
            message: Some(strip_source_prefix(source)),
        },
    }
}

/// Reclassify an error raised while reading the input stream: a `ValueError`
/// about a closed file is raised as `PdfminerException` with the same message;
/// `None` means the error is raised unchanged.
pub fn reclassify_stream_error(is_value_error: bool, message: &str) -> (res: Option<PythonError>)
    ensures
        match res {
            Some(e) => {
                &&& is_value_error
                &&& seq_contains_run(message@, "closed file"@)
                &&& e.class == PyExceptionClass::PdfminerException
                &&& e.message matches Some(m)
                &&& m@ == message@
            },
            None => !(is_value_error && seq_contains_run(message@, "closed file"@)),
        },
{
    if is_value_error && str_contains(message, "closed file") {
        Some(
            PythonError {
                class: PyExceptionClass::PdfminerException,
                message: Some(String::from_str(message)),
            },
        )
    } else {
        None
    }
}

/// The warning logged for a metadata entry that could not be parsed.
pub fn metadata_warning_message(key: &str, error: &str) -> (res: String)
    ensures
        res@ == "[WARNING] Metadata key \""@ + key@ + "\" could not be parsed due to exception: "@
            + error@,
{
    let mut text = String::from_str("[WARNING] Metadata key \"");
    text.append(key);
    text.append("\" could not be parsed due to exception: ");
    text.append(error);
    text
}

/// The `AttributeError` raised for an attribute a page does not have.
pub fn missing_page_attribute(attribute: &str) -> (res: PythonError)
    ensures
        res.class == PyExceptionClass::AttributeError,
        res.message matches Some(m) && m@ == "'Page' object has no attribute '"@ + attribute@
            + "'"@,
{
    let mut text = String::from_str("'Page' object has no attribute '");
    text.append(attribute);
    text.append("'");
    PythonError { class: PyExceptionClass::AttributeError, message: Some(text) }
}

/// `res` is an exception of class `class` carrying exactly `text`.
pub open spec fn raises<T>(res: Result<T, PythonError>, class: PyExceptionClass, text: Seq<char>) -> bool {
    &&& res matches Err(e)
    &&& e.class == class
    &&& e.message matches Some(m)
    &&& m@ == text
}

/// `res` is a `TypeError` carrying exactly `text`.
pub open spec fn raises_type_error<T>(res: Result<T, PythonError>, text: Seq<char>) -> bool {
    raises(res, PyExceptionClass::TypeError, text)
}

pub(crate) fn type_error(message: String) -> (res: PythonError)
    ensures
        res.class == PyExceptionClass::TypeError,
        res.message matches Some(m) && m@ == message@,
{
    PythonError { class: PyExceptionClass::TypeError, message: Some(message) }
}

/// Where `PDF.open()` reads the document from.
#[derive(Debug, Clone, Copy, PartialEq, Eq, Structural)]
pub enum StreamSource {
    /// A repaired copy produced by the repair helper; owned by the document.
    Repaired,
    /// A file opened from a path (a string or path-like argument); owned by the document.
    OpenedPath,
    /// The caller's own binary stream; never closed by the document.
    Caller,
}

/// The stream `PDF.open()` uses: a repaired copy when repair was requested,
/// otherwise a file opened from a path-like argument, otherwise the caller's stream.
pub fn stream_source(repair: bool, path_like: bool) -> (res: StreamSource)
    ensures
        res == (if repair {
            StreamSource::Repaired
        } else if path_like {
            StreamSource::OpenedPath
        } else {
            StreamSource::Caller
        }),
{
    if repair {
        StreamSource::Repaired
    } else if path_like {
        StreamSource::OpenedPath
    } else {
        StreamSource::Caller
    }
}

/// Whether the stream stays the caller's: only the caller's own stream does;
/// every other stream is closed when opening fails or the document closes.
pub fn stream_is_external(source: StreamSource) -> (res: bool)
    ensures
        res == (source == StreamSource::Caller),
{
    match source {
        StreamSource::Caller => true,
        _ => false,
    }
}

/// What `PDF.open()` does with the document's metadata.
#[derive(Debug, Clone, Copy, PartialEq, Eq, Structural)]
pub enum MetadataCheck {
    /// Strict metadata failed validation: raise `RecursionError`.
    Reject,
    /// Strict metadata passed validation.
    Accept,
    /// Lenient metadata: log a warning for each entry that could not be parsed.
    LogWarnings,
}

/// The metadata step of `PDF.open()`: with `strict_metadata`, a document
/// whose metadata does not validate is rejected; without it, unparsable
/// entries are only logged.
pub fn metadata_check(strict_metadata: bool, metadata_valid: bool) -> (res: MetadataCheck)
    ensures
        res == (if !strict_metadata {
            MetadataCheck::LogWarnings
        } else if metadata_valid {
            MetadataCheck::Accept
        } else {
            MetadataCheck::Reject
        }),
{
    if !strict_metadata {
        MetadataCheck::LogWarnings
    } else if metadata_valid {
        MetadataCheck::Accept
    } else {
        MetadataCheck::Reject
    }
}

/// The exception raised for strict metadata that does not validate.
pub fn strict_metadata_error() -> (res: PythonError)
    ensures
        res.class == PyExceptionClass::RecursionError,
        res.message matches Some(m) && m@ == "maximum recursion depth exceeded"@,
{
    proof {
        reveal_strlit("maximum recursion depth exceeded");
    }
    PythonError {
        class: PyExceptionClass::RecursionError,
        message: Some(String::from_str("maximum recursion depth exceeded")),
    }
}

/// Unicode normalization applied to extracted text.
#[derive(Debug, Clone, Copy, PartialEq, Eq, Structural)]
pub enum UnicodeNorm {
    /// No normalization.
    Disabled,
    /// Canonical composition.
    Nfc,
    /// Canonical decomposition.
    Nfd,
    /// Compatibility composition.
    Nfkc,
    /// Compatibility decomposition.
    Nfkd,
}

/// The normalization a Python `unicode_norm` argument selects: none when the
/// argument is absent, the named form for `NFC`, `NFD`, `NFKC` or `NFKD`, and
/// no value at all (an invalid form) for any other name.
pub open spec fn unicode_norm_for_argument(form: Option<Seq<char>>) -> Option<UnicodeNorm> {
    match form {
        None => Some(UnicodeNorm::Disabled),
        Some(name) => if name == "NFC"@ {
            Some(UnicodeNorm::Nfc)
        } else if name == "NFD"@ {
            Some(UnicodeNorm::Nfd)
        } else if name == "NFKC"@ {
            Some(UnicodeNorm::Nfkc)
        } else if name == "NFKD"@ {
            Some(UnicodeNorm::Nfkd)
        } else {
            None
        },
    }
}

/// Select the normalization for a Python `unicode_norm` argument (`None`
/// when it was not given). A form name other than `NFC`, `NFD`, `NFKC` or
/// `NFKD` raises `ValueError("invalid normalization form")`.
pub fn parse_unicode_norm(form: Option<&str>) -> (res: Result<UnicodeNorm, PythonError>)
    ensures
        match unicode_norm_for_argument(
            match form {
                Some(name) => Some(name@),
                None => None,
            },
        ) {
            Some(norm) => res == Ok::<UnicodeNorm, PythonError>(norm),
            None => raises(res, PyExceptionClass::ValueError, "invalid normalization form"@),
        },
{
    match form {
        None => Ok(UnicodeNorm::Disabled),
        Some(name) => if str_equals(name, "NFC") {
            Ok(UnicodeNorm::Nfc)
        } else if str_equals(name, "NFD") {
            Ok(UnicodeNorm::Nfd)
        } else if str_equals(name, "NFKC") {
            Ok(UnicodeNorm::Nfkc)
        } else if str_equals(name, "NFKD") {
            Ok(UnicodeNorm::Nfkd)
        } else {
            Err(
                PythonError {
                    class: PyExceptionClass::ValueError,
                    message: Some(String::from_str("invalid normalization form")),
                },
            )
        },
    }
}

/// A native object field whose compatibility-dictionary key is spelled differently.
#[derive(Debug, Clone, Copy, PartialEq, Eq, Structural)]
pub enum NativeObjectField {
    /// Stroke width.
    LineWidth,
    /// Stroking color.
    StrokeColor,
    /// Non-stroking (fill) color.
    FillColor,
    /// Source image dimensions.
    SourceDimensions,
    /// Bits per image component.
    BitsPerComponent,
    /// Image color space.
    ColorSpace,
}

/// The key a native field is stored under in compatibility dictionaries.
pub open spec fn python_key_text(field: NativeObjectField) -> Seq<char> {
    match field {
        NativeObjectField::LineWidth => "linewidth"@,
        NativeObjectField::StrokeColor => "stroking_color"@,
        NativeObjectField::FillColor => "non_stroking_color"@,
        NativeObjectField::SourceDimensions => "srcsize"@,
        NativeObjectField::BitsPerComponent => "bits"@,
        NativeObjectField::ColorSpace => "colorspace"@,
    }
}

impl NativeObjectField {
    /// The key this field is stored under in compatibility dictionaries.
    pub fn python_key(self) -> (res: &'static str)
        ensures
            res@ == python_key_text(self),
    {
        match self {
            NativeObjectField::LineWidth => "linewidth",
            NativeObjectField::StrokeColor => "stroking_color",
            NativeObjectField::FillColor => "non_stroking_color",
            NativeObjectField::SourceDimensions => "srcsize",
            NativeObjectField::BitsPerComponent => "bits",
            NativeObjectField::ColorSpace => "colorspace",
        }
    }
}

} // verus!
