//! Error kinds, resource limits and the context attached to extraction errors.

use vstd::prelude::*;

verus! {

/// Stable classification of an extraction error.
#[derive(Debug, Clone, Copy, PartialEq, Eq, Structural)]
pub enum PdfErrorKind {
    /// The input could not be parsed as a PDF document.
    Parse,
    /// Reading a path or reader failed.
    Io,
    /// A font program or font dictionary could not be used.
    Font,
    /// The content stream interpreter failed.
    Interpreter,
    /// A configured resource budget was exceeded.
    ResourceLimit,
    /// The document is encrypted and a password is required.
    PasswordRequired,
    /// The supplied password does not open the document.
    InvalidPassword,
    /// Any other failure.
    Other,
}

/// The configured budget that an input or extraction exceeded.
#[derive(Debug, Clone, Copy, PartialEq, Eq, Structural)]
pub enum LimitName {
    /// Size of the input in bytes (`max_input_bytes`).
    MaxInputBytes,
    /// Number of pages in the document (`max_pages`).
    MaxPages,
    /// Objects extracted across all pages (`max_total_objects`).
    MaxTotalObjects,
    /// Image bytes extracted across all pages (`max_total_image_bytes`).
    MaxTotalImageBytes,
}

/// The option name under which a limit is configured.
pub open spec fn limit_name_text(name: LimitName) -> Seq<char> {
    match name {
        LimitName::MaxInputBytes => "max_input_bytes"@,
        LimitName::MaxPages => "max_pages"@,
        LimitName::MaxTotalObjects => "max_total_objects"@,
        LimitName::MaxTotalImageBytes => "max_total_image_bytes"@,
    }
}

impl LimitName {
    /// The option name under which this limit is configured.
    pub fn as_str(&self) -> (res: &'static str)
        ensures
            res@ == limit_name_text(*self),
    {
        match self {
            LimitName::MaxInputBytes => "max_input_bytes",
            LimitName::MaxPages => "max_pages",
            LimitName::MaxTotalObjects => "max_total_objects",
            LimitName::MaxTotalImageBytes => "max_total_image_bytes",
        }
    }
}

/// Typed details of an exceeded resource limit.
#[derive(Debug, Clone, Copy, PartialEq, Eq, Structural)]
pub struct ResourceLimit {
    /// Which budget was exceeded.
    pub name: LimitName,
    /// The configured maximum.
    pub limit: usize,
    /// The value that was observed.
    pub observed: usize,
}

/// An indirect object reference: object number and generation.
#[derive(Debug, Clone, Copy, PartialEq, Eq, Structural)]
pub struct ObjectId {
    /// Object number.
    pub number: u32,
    /// Generation number.
    pub generation: u16,
}

/// An extraction error: its kind, typed limit details and the operation,
/// page and object it occurred in.
#[derive(Debug, Clone, Copy)]
pub struct PdfError {
    /// Stable classification.
    pub kind: PdfErrorKind,
    /// Limit details, present for errors built by [`PdfError::limit_exceeded`].
    pub resource_limit: Option<ResourceLimit>,
    /// Zero-based page index the error refers to, when known.
    pub page: Option<usize>,
    /// Object number and generation the error refers to, when known.
    pub object: Option<ObjectId>,
    /// The operation that failed (such as `"load page"`), when known.
    pub operation: Option<&'static str>,
}

impl PdfError {
    /// An error of the given kind without details or context.
    pub fn new(kind: PdfErrorKind) -> (res: PdfError)
        ensures
            res == (PdfError { kind, resource_limit: None, page: None, object: None, operation: None }),
    {
        PdfError { kind, resource_limit: None, page: None, object: None, operation: None }
    }

    /// The resource-limit error for `name` with the configured and observed values.
    pub open spec fn limit_exceeded_spec(name: LimitName, limit: usize, observed: usize) -> PdfError {
        PdfError {
            kind: PdfErrorKind::ResourceLimit,
            resource_limit: Some(ResourceLimit { name, limit, observed }),
            page: None,
            object: None,
            operation: None,
        }
    }

    /// A resource-limit error recording which limit was exceeded and by what value.
    pub fn limit_exceeded(name: LimitName, limit: usize, observed: usize) -> (res: PdfError)
        ensures
            res == PdfError::limit_exceeded_spec(name, limit, observed),
    {
        PdfError {
            kind: PdfErrorKind::ResourceLimit,
            resource_limit: Some(ResourceLimit { name, limit, observed }),
            page: None,
            object: None,
            operation: None,
        }
    }

    /// The same error, attributed to a zero-based page index.
    pub fn at_page(self, page: usize) -> (res: PdfError)
        ensures
            res == (PdfError { page: Some(page), ..self }),
    {
        PdfError { page: Some(page), ..self }
    }

    /// The same error, attributed to an indirect object.
    pub fn at_object(self, number: u32, generation: u16) -> (res: PdfError)
        ensures
            res == (PdfError { object: Some(ObjectId { number, generation }), ..self }),
    {
        PdfError { object: Some(ObjectId { number, generation }), ..self }
    }

    /// The same error, recording the operation that failed.
    pub fn during(self, operation: &'static str) -> (res: PdfError)
        ensures
            res == (PdfError { operation: Some(operation), ..self }),
    {
        PdfError { operation: Some(operation), ..self }
    }

    /// The stable classification of this error.
    pub fn kind(&self) -> (res: PdfErrorKind)
        ensures
            res == self.kind,
    {
        self.kind
    }

    /// Typed limit details, when this error reports an exceeded budget.
    pub fn resource_limit(&self) -> (res: Option<ResourceLimit>)
        ensures
            res == self.resource_limit,
    {
        self.resource_limit
    }
}

/// Record the operation that failed.
pub fn operation_error(error: PdfError, operation: &'static str) -> (res: PdfError)
    ensures
        res == (PdfError { operation: Some(operation), ..error }),
{
    error.during(operation)
}

/// Record the operation that failed and the page it failed on, and the page
/// object when it is known.
pub fn page_error(
    error: PdfError,
    operation: &'static str,
    page_index: usize,
    object_id: Option<ObjectId>,
) -> (res: PdfError)
    ensures
        res == (PdfError {
            operation: Some(operation),
            page: Some(page_index),
            object: match object_id {
                Some(id) => Some(id),
                None => error.object,
            },
            ..error
        }),
{
    let mut error = error.during(operation).at_page(page_index);
    if let Some(id) = object_id {
        error = error.at_object(id.number, id.generation);
    }
    error
}

} // verus!
