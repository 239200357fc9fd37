//! The error responses of RFC 7644 §3.12: the `Error` message and the `scimType` keywords of its
//! table of detail errors.

use crate::number;
use crate::number::decimal_text;
use crate::text;
use vstd::prelude::*;

verus! {

pub const ERROR_SCHEMA_URI: &'static str = "urn:ietf:params:scim:api:messages:2.0:Error";

/// The detail error keywords.
#[derive(Clone, Copy, Debug, PartialEq, Eq, Structural)]
pub enum ScimType {
    /// The filter syntax was invalid, or an attribute and a comparison do not go together.
    InvalidFilter,
    /// The filter yields more results than the server is willing to process.
    TooMany,
    /// An attribute value is already in use or reserved.
    Uniqueness,
    /// The modification does not go with the target attribute's mutability or current state.
    Mutability,
    /// The request body was malformed or did not conform to the request schema.
    InvalidSyntax,
    /// The path was invalid or malformed.
    InvalidPath,
    /// The path did not yield anything that could be operated on.
    NoTarget,
    /// A required value was missing or not compatible with the operation, type or schema.
    InvalidValue,
    /// The protocol version is not supported.
    InvalidVers,
    /// Sensitive information was passed in a request URI.
    Sensitive,
}

/// The keyword of a detail error.
pub open spec fn keyword(t: ScimType) -> Seq<char> {
    match t {
        ScimType::InvalidFilter => "invalidFilter"@,
        ScimType::TooMany => "tooMany"@,
        ScimType::Uniqueness => "uniqueness"@,
        ScimType::Mutability => "mutability"@,
        ScimType::InvalidSyntax => "invalidSyntax"@,
        ScimType::InvalidPath => "invalidPath"@,
        ScimType::NoTarget => "noTarget"@,
        ScimType::InvalidValue => "invalidValue"@,
        ScimType::InvalidVers => "invalidVers"@,
        ScimType::Sensitive => "sensitive"@,
    }
}

impl ScimType {
    /// The keyword as it stands in an error response.
    pub fn as_str(&self) -> (s: &'static str)
        ensures
            s@ == keyword(*self),
    {
        match self {
            ScimType::InvalidFilter => "invalidFilter",
            ScimType::TooMany => "tooMany",
            ScimType::Uniqueness => "uniqueness",
            ScimType::Mutability => "mutability",
            ScimType::InvalidSyntax => "invalidSyntax",
            ScimType::InvalidPath => "invalidPath",
            ScimType::NoTarget => "noTarget",
            ScimType::InvalidValue => "invalidValue",
            ScimType::InvalidVers => "invalidVers",
            ScimType::Sensitive => "sensitive",
        }
    }
}

/// The `Error` message. The status is a JSON string.
#[derive(Clone, Debug, PartialEq)]
pub struct ScimError {
    pub schemas: Vec<String>,
    pub status: String,
    pub scim_type: Option<ScimType>,
    pub detail: Option<String>,
}

impl ScimError {
    /// An error response for an HTTP status.
    pub fn new(status: u16, scim_type: Option<ScimType>, detail: &str) -> (e: ScimError)
        ensures
            text::texts(e.schemas@) == seq![ERROR_SCHEMA_URI@],
            e.status@ == number::digits(status as nat),
            e.scim_type == scim_type,
            text::optional_text(e.detail) == Some(detail@),
    {
        let e = ScimError {
            schemas: vec![ERROR_SCHEMA_URI.to_owned()],
            status: decimal_text(status as u64),
            scim_type,
            detail: Some(detail.to_owned()),
        };
        assert(text::texts(e.schemas@) =~= seq![ERROR_SCHEMA_URI@]);
        e
    }
}

} // verus!
