//! How the errors of the server are answered: an HTTP status and an `Error` message (RFC 7644
//! §3.12).

use crate::error::{ScimError, ScimType, ERROR_SCHEMA_URI};
use crate::filter;
use crate::filter::FilterError;
use crate::number;
use crate::patch;
use crate::patch::{PatchError, PatchErrorModel};
use crate::server::patch_request::{PatchRequestError, RequestErrorModel};
use crate::text;
use crate::text::{joined, to_quoted};
use vstd::prelude::*;

verus! {

/// Why a request was not served.
#[derive(Debug, PartialEq)]
pub enum ApiError {
    /// There is no resource with this identifier.
    NotFound(String),
    /// The body is no such resource.
    InvalidBody(String),
    Patch(PatchError),
    PatchRequest(PatchRequestError),
    Unauthorized,
}

/// Such an error, as contracts speak of it.
#[verifier::ext_equal]
pub enum ApiErrorModel {
    NotFound(Seq<char>),
    InvalidBody(Seq<char>),
    Patch(PatchErrorModel),
    PatchRequest(RequestErrorModel),
    Unauthorized,
}

impl View for ApiError {
    type V = ApiErrorModel;

    open spec fn view(&self) -> ApiErrorModel {
        match self {
            ApiError::NotFound(id) => ApiErrorModel::NotFound(id@),
            ApiError::InvalidBody(detail) => ApiErrorModel::InvalidBody(detail@),
            ApiError::Patch(e) => ApiErrorModel::Patch(e@),
            ApiError::PatchRequest(e) => ApiErrorModel::PatchRequest(e@),
            ApiError::Unauthorized => ApiErrorModel::Unauthorized,
        }
    }
}

impl From<PatchError> for ApiError {
    fn from(e: PatchError) -> (r: ApiError) {
        ApiError::Patch(e)
    }
}

impl vstd::std_specs::convert::FromSpecImpl<PatchError> for ApiError {
    open spec fn obeys_from_spec() -> bool {
        true
    }

    open spec fn from_spec(e: PatchError) -> ApiError {
        ApiError::Patch(e)
    }
}

impl From<PatchRequestError> for ApiError {
    fn from(e: PatchRequestError) -> (r: ApiError) {
        ApiError::PatchRequest(e)
    }
}

impl vstd::std_specs::convert::FromSpecImpl<PatchRequestError> for ApiError {
    open spec fn obeys_from_spec() -> bool {
        true
    }

    open spec fn from_spec(e: PatchRequestError) -> ApiError {
        ApiError::PatchRequest(e)
    }
}

/// The name of a variant with a text in it.
pub open spec fn variant_with(name: Seq<char>, content: Seq<char>) -> Seq<char> {
    name + "("@ + content + ")"@
}

/// A parse error, as details show it.
pub open spec fn filter_error_shown(e: filter::ErrorModel) -> Seq<char> {
    match e {
        filter::ErrorModel::TooDeep => "TooDeep"@,
        filter::ErrorModel::UnexpectedEnd => "UnexpectedEnd"@,
        filter::ErrorModel::UnexpectedToken(t) => variant_with(
            "UnexpectedToken"@,
            text::quoted(t),
        ),
        filter::ErrorModel::InvalidNumber(t) => variant_with("InvalidNumber"@, text::quoted(t)),
        filter::ErrorModel::UnterminatedString => "UnterminatedString"@,
    }
}

/// A refusal of a PATCH request, as details show it.
pub open spec fn patch_error_shown(e: PatchErrorModel) -> Seq<char> {
    match e {
        PatchErrorModel::NoTarget => "NoTarget"@,
        PatchErrorModel::Protected(a) => variant_with("Protected"@, text::quoted(a)),
        PatchErrorModel::InvalidPath(p) => variant_with("InvalidPath"@, filter_error_shown(p)),
        PatchErrorModel::NoMatchingValue => "NoMatchingValue"@,
        PatchErrorModel::AmbiguousPath(s) => variant_with("AmbiguousPath"@, text::quoted(s)),
        PatchErrorModel::SchemaQualifiedPath(s) => variant_with(
            "SchemaQualifiedPath"@,
            text::quoted(s),
        ),
        PatchErrorModel::ImmutableOrReadOnly(a) => variant_with(
            "ImmutableOrReadOnly"@,
            text::quoted(a),
        ),
        PatchErrorModel::InvalidSchemaMutability { attr_name, mutability } =>
            "InvalidSchemaMutability { attr_name: "@ + text::quoted(attr_name) + ", mutability: "@
            + text::quoted(mutability) + " }"@,
    }
}

/// An unreadable PATCH body, as details show it.
pub open spec fn request_error_shown(e: RequestErrorModel) -> Seq<char> {
    match e {
        RequestErrorModel::MissingOperations => "MissingOperations"@,
        RequestErrorModel::OperationsNotAnArray => "OperationsNotAnArray"@,
        RequestErrorModel::MissingOp => "MissingOp"@,
        RequestErrorModel::UnknownOp(s) => variant_with("UnknownOp"@, text::quoted(s)),
    }
}

/// The HTTP status of an error.
pub open spec fn status_of(e: ApiErrorModel) -> u16 {
    match e {
        ApiErrorModel::NotFound(_) => 404,
        ApiErrorModel::Unauthorized => 401,
        _ => 400,
    }
}

/// The detail error keyword of an error.
pub open spec fn keyword_of(e: ApiErrorModel) -> Option<ScimType> {
    match e {
        ApiErrorModel::NotFound(_) => None,
        ApiErrorModel::InvalidBody(_) => Some(ScimType::InvalidValue),
        ApiErrorModel::Patch(p) => Some(patch::refusal_keyword(p)),
        ApiErrorModel::PatchRequest(_) => Some(ScimType::InvalidSyntax),
        ApiErrorModel::Unauthorized => None,
    }
}

/// What an error says to a reader.
pub open spec fn detail_of(e: ApiErrorModel) -> Seq<char> {
    match e {
        ApiErrorModel::NotFound(id) => "no resource with id '"@ + id + "'"@,
        ApiErrorModel::InvalidBody(detail) => detail,
        ApiErrorModel::Patch(p) => patch_error_shown(p),
        ApiErrorModel::PatchRequest(p) => request_error_shown(p),
        ApiErrorModel::Unauthorized => "missing or invalid bearer token"@,
    }
}

fn show_variant(name: &str, content: &str) -> (r: String)
    ensures
        r@ == variant_with(name@, content@),
{
    joined(&joined(&joined(name, "("), content), ")")
}

fn show_filter_error(e: &FilterError) -> (r: String)
    ensures
        r@ == filter_error_shown(e@),
{
    match e {
        FilterError::TooDeep => "TooDeep".to_owned(),
        FilterError::UnexpectedEnd => "UnexpectedEnd".to_owned(),
        FilterError::UnexpectedToken(t) => show_variant("UnexpectedToken", &to_quoted(t.as_str())),
        FilterError::InvalidNumber(t) => show_variant("InvalidNumber", &to_quoted(t.as_str())),
        FilterError::UnterminatedString => "UnterminatedString".to_owned(),
    }
}

fn show_patch_error(e: &PatchError) -> (r: String)
    ensures
        r@ == patch_error_shown(e@),
{
    match e {
        PatchError::NoTarget => "NoTarget".to_owned(),
        PatchError::Protected(a) => show_variant("Protected", &to_quoted(a.as_str())),
        PatchError::InvalidPath(p) => show_variant("InvalidPath", &show_filter_error(p)),
        PatchError::NoMatchingValue => "NoMatchingValue".to_owned(),
        PatchError::AmbiguousPath(s) => show_variant("AmbiguousPath", &to_quoted(s.as_str())),
        PatchError::SchemaQualifiedPath(s) => show_variant(
            "SchemaQualifiedPath",
            &to_quoted(s.as_str()),
        ),
        PatchError::ImmutableOrReadOnly(a) => show_variant(
            "ImmutableOrReadOnly",
            &to_quoted(a.as_str()),
        ),
        PatchError::InvalidSchemaMutability { attr_name, mutability } => {
            let start = joined(
                "InvalidSchemaMutability { attr_name: ",
                &to_quoted(attr_name.as_str()),
            );
            let middle = joined(
                &joined(&start, ", mutability: "),
                &to_quoted(mutability.as_str()),
            );
            joined(&middle, " }")
        },
    }
}

fn show_request_error(e: &PatchRequestError) -> (r: String)
    ensures
        r@ == request_error_shown(e@),
{
    match e {
        PatchRequestError::MissingOperations => "MissingOperations".to_owned(),
        PatchRequestError::OperationsNotAnArray => "OperationsNotAnArray".to_owned(),
        PatchRequestError::MissingOp => "MissingOp".to_owned(),
        PatchRequestError::UnknownOp(s) => show_variant("UnknownOp", &to_quoted(s.as_str())),
    }
}

impl ApiError {
    /// The HTTP status and the message that the error is answered with.
    pub fn response(&self) -> (r: (u16, ScimError))
        ensures
            r.0 == status_of(self@),
            text::texts(r.1.schemas@) == seq![ERROR_SCHEMA_URI@],
            r.1.status@ == number::digits(status_of(self@) as nat),
            r.1.scim_type == keyword_of(self@),
            text::optional_text(r.1.detail) == Some(detail_of(self@)),
    {
        let (status, scim_type, detail) = match self {
            ApiError::NotFound(id) => (
                404u16,
                None,
                joined(&joined("no resource with id '", id.as_str()), "'"),
            ),
            ApiError::InvalidBody(detail) => (400u16, Some(ScimType::InvalidValue), detail.clone()),
            ApiError::Patch(e) => (e.http_status(), Some(e.scim_type()), show_patch_error(e)),
            ApiError::PatchRequest(e) => (
                400u16,
                Some(ScimType::InvalidSyntax),
                show_request_error(e),
            ),
            ApiError::Unauthorized => (401u16, None, "missing or invalid bearer token".to_owned()),
        };
        (status, ScimError::new(status, scim_type, detail.as_str()))
    }
}

} // verus!
