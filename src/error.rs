use vstd::prelude::*;

use vstd::string::StringExecFns;

verus! {

/// What kind of text failed to parse.
#[derive(Debug, Clone, Copy, PartialEq, Eq, Structural)]
pub enum FieldErrorKind {
    PriceParsingError,
    TimeParsingError,
    DateParsingError,
    LocationDateParsingError,
    ListingGridNotFound,
}

/// A field was present, but its text did not have the expected shape.
#[derive(Debug, Clone)]
pub struct FieldParsingError {
    pub error_type: FieldErrorKind,
    pub message: String,
}

/// A required element was absent from the markup.
#[derive(Debug, Clone)]
pub struct MissingFieldError(pub String);

/// Everything that can go wrong while fetching or extracting a page.
#[derive(Debug, Clone)]
pub enum ScrapperError {
    /// The site answered with a redirect to the given address.
    Redirected(String),
    /// The transport failed; the message is the transport's own.
    ReqwestError(String),
    FieldParsingError(FieldParsingError),
    MissingFieldError(MissingFieldError),
}

impl FieldErrorKind {
    pub open spec fn name_spec(self) -> Seq<char> {
        match self {
            FieldErrorKind::PriceParsingError => "PriceParsingError"@,
            FieldErrorKind::TimeParsingError => "TimeParsingError"@,
            FieldErrorKind::DateParsingError => "DateParsingError"@,
            FieldErrorKind::LocationDateParsingError => "LocationDateParsingError"@,
            FieldErrorKind::ListingGridNotFound => "ListingGridNotFound"@,
        }
    }

    /// The kind's name, as error reports spell it.
    pub fn name(&self) -> (r: &'static str)
        ensures
            r@ == self.name_spec(),
    {
        match self {
            FieldErrorKind::PriceParsingError => "PriceParsingError",
            FieldErrorKind::TimeParsingError => "TimeParsingError",
            FieldErrorKind::DateParsingError => "DateParsingError",
            FieldErrorKind::LocationDateParsingError => "LocationDateParsingError",
            FieldErrorKind::ListingGridNotFound => "ListingGridNotFound",
        }
    }
}

impl FieldParsingError {
    /// The error as a line of text: `error_type: <kind>, message: <message>`.
    pub fn to_text(&self) -> (r: String)
        ensures
            r@ == "error_type: "@ + self.error_type.name_spec() + ", message: "@ + self.message@,
    {
        let mut out = String::from_str("error_type: ");
        out.append(self.error_type.name());
        out.append(", message: ");
        out.append(self.message.as_str());
        out
    }
}

impl MissingFieldError {
    /// The error as a line of text: `Missing field: <what>`.
    pub fn to_text(&self) -> (r: String)
        ensures
            r@ == "Missing field: "@ + self.0@,
    {
        let mut out = String::from_str("Missing field: ");
        out.append(self.0.as_str());
        out
    }
}

impl ScrapperError {
    pub open spec fn text_spec(self) -> Seq<char> {
        match self {
            ScrapperError::Redirected(to) => "Redirected to: "@ + to@,
            ScrapperError::ReqwestError(m) => "Reqwest error: "@ + m@,
            ScrapperError::FieldParsingError(e) => "Field parse error: "@ + "error_type: "@
                + e.error_type.name_spec() + ", message: "@ + e.message@,
            ScrapperError::MissingFieldError(e) => "Missing field: "@ + "Missing field: "@
                + e.0@,
        }
    }

    /// The error as a line of text, naming what went wrong before the details.
    pub fn to_text(&self) -> (r: String)
        ensures
            r@ == self.text_spec(),
    {
        let mut out = String::new();
        match self {
            ScrapperError::Redirected(to) => {
                out.append("Redirected to: ");
                out.append(to.as_str());
            },
            ScrapperError::ReqwestError(m) => {
                out.append("Reqwest error: ");
                out.append(m.as_str());
            },
            ScrapperError::FieldParsingError(e) => {
                out.append("Field parse error: ");
                let inner = e.to_text();
                out.append(inner.as_str());
            },
            ScrapperError::MissingFieldError(e) => {
                out.append("Missing field: ");
                let inner = e.to_text();
                out.append(inner.as_str());
            },
        }
        proof {
            assert(out@ =~= self.text_spec());
        }
        out
    }
}

} // verus!
