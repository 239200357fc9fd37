//! The PATCH operations of RFC 7644 §3.5.2, applied to the JSON form of a resource.
//!
//! - `id`, `meta` and `schemas` are never changed, however a request reaches them.
//! - A path that cannot be resolved unambiguously against the resource is an error, never a guess.
//! - A request is atomic: the resource given is left as it is, and either all operations are
//!   applied in the result or there is an error and no result.
//!
//! [`apply_patch_with_schema`] also holds every operation to the mutability that a schema declares,
//! and brings a value that was sent as text, or as an array of one value, to the declared type.

use crate::discovery;
use crate::discovery::{find_attribute, AttributeDefinition, AttributeModel, SchemaModel, SchemaResource};
use crate::error::ScimType;
use crate::filter;
use crate::filter::{parse_patch_path, Filter, FilterError, FilterModel, PatchPath, PatchPathModel};
use crate::json;
use crate::json::{viewed, Json, Members, Number, Value};
use crate::matching;
use crate::matching::evaluate;
use crate::mutability;
use crate::mutability::{
    check_entry_immutable_sub_attrs, check_multivalued_complex_replace_mutability,
    check_mutability, find_entry_by_value,
};
use crate::number;
use crate::number::{canonical_integer, has_decimal_text, parse_double};
use crate::text;
use crate::text::{copy_optional, equal_ignoring_case, joined, same_text};
use vstd::prelude::*;

verus! {

/// The kind of a PATCH operation.
#[derive(Clone, Copy, Debug, PartialEq, Eq, Structural)]
pub enum PatchOp {
    Add,
    Remove,
    Replace,
}

/// One operation of a PATCH request.
#[derive(Debug, PartialEq)]
pub struct PatchOperation {
    pub op: PatchOp,
    pub path: Option<String>,
    pub value: Option<Value>,
}

/// Why a PATCH request was refused.
#[derive(Debug, PartialEq)]
pub enum PatchError {
    /// A `remove` without a path.
    NoTarget,
    /// The request targeted `id`, `meta` or `schemas`.
    Protected(String),
    /// The path is malformed.
    InvalidPath(FilterError),
    /// No entry matches the filter in the path.
    NoMatchingValue,
    /// The path or the value does not go with the shape of the resource.
    AmbiguousPath(String),
    /// The path is qualified by a schema URN. Extension attributes are nested under their URN;
    /// such paths are refused, not routed.
    SchemaQualifiedPath(String),
    /// The schema makes the target `readOnly`, or `immutable` with a value already there.
    ImmutableOrReadOnly(String),
    /// The schema declares a mutability that is none of the four of RFC 7643 §2.2.
    InvalidSchemaMutability {
        attr_name: String,
        mutability: String,
    },
}

/// An operation, as contracts speak of it.
#[verifier::ext_equal]
pub struct OperationModel {
    pub op: PatchOp,
    pub path: Option<Seq<char>>,
    pub value: Option<Json>,
}

/// A refusal, as contracts speak of it.
#[verifier::ext_equal]
pub enum PatchErrorModel {
    NoTarget,
    Protected(Seq<char>),
    InvalidPath(filter::ErrorModel),
    NoMatchingValue,
    AmbiguousPath(Seq<char>),
    SchemaQualifiedPath(Seq<char>),
    ImmutableOrReadOnly(Seq<char>),
    InvalidSchemaMutability {
        attr_name: Seq<char>,
        mutability: Seq<char>,
    },
}

impl View for PatchOperation {
    type V = OperationModel;

    open spec fn view(&self) -> OperationModel {
        OperationModel {
            op: self.op,
            path: text::optional_text(self.path),
            value: (match self.value {
                Some(v) => Some(v@),
                None => None,
            }),
        }
    }
}

impl View for PatchError {
    type V = PatchErrorModel;

    open spec fn view(&self) -> PatchErrorModel {
        match self {
            PatchError::NoTarget => PatchErrorModel::NoTarget,
            PatchError::Protected(a) => PatchErrorModel::Protected(a@),
            PatchError::InvalidPath(e) => PatchErrorModel::InvalidPath(e@),
            PatchError::NoMatchingValue => PatchErrorModel::NoMatchingValue,
            PatchError::AmbiguousPath(s) => PatchErrorModel::AmbiguousPath(s@),
            PatchError::SchemaQualifiedPath(s) => PatchErrorModel::SchemaQualifiedPath(s@),
            PatchError::ImmutableOrReadOnly(a) => PatchErrorModel::ImmutableOrReadOnly(a@),
            PatchError::InvalidSchemaMutability { attr_name, mutability } =>
                PatchErrorModel::InvalidSchemaMutability {
                attr_name: attr_name@,
                mutability: mutability@,
            },
        }
    }
}

impl Clone for PatchOperation {
    fn clone(&self) -> (r: Self)
        ensures
            r@ == self@,
    {
        PatchOperation {
            op: self.op,
            path: copy_optional(&self.path),
            value: (match &self.value {
                Some(v) => Some(v.clone()),
                None => None,
            }),
        }
    }
}

impl Clone for PatchError {
    fn clone(&self) -> (r: Self)
        ensures
            r@ == self@,
    {
        match self {
            PatchError::NoTarget => PatchError::NoTarget,
            PatchError::Protected(a) => PatchError::Protected(a.clone()),
            PatchError::InvalidPath(e) => PatchError::InvalidPath(e.clone()),
            PatchError::NoMatchingValue => PatchError::NoMatchingValue,
            PatchError::AmbiguousPath(s) => PatchError::AmbiguousPath(s.clone()),
            PatchError::SchemaQualifiedPath(s) => PatchError::SchemaQualifiedPath(s.clone()),
            PatchError::ImmutableOrReadOnly(a) => PatchError::ImmutableOrReadOnly(a.clone()),
            PatchError::InvalidSchemaMutability { attr_name, mutability } =>
                PatchError::InvalidSchemaMutability {
                attr_name: attr_name.clone(),
                mutability: mutability.clone(),
            },
        }
    }
}

impl From<FilterError> for PatchError {
    fn from(e: FilterError) -> (r: PatchError) {
        PatchError::InvalidPath(e)
    }
}

impl vstd::std_specs::convert::FromSpecImpl<FilterError> for PatchError {
    open spec fn obeys_from_spec() -> bool {
        true
    }

    open spec fn from_spec(e: FilterError) -> PatchError {
        PatchError::InvalidPath(e)
    }
}

/// The detail error keyword for a refusal.
pub open spec fn refusal_keyword(e: PatchErrorModel) -> ScimType {
    match e {
        PatchErrorModel::NoTarget => ScimType::NoTarget,
        PatchErrorModel::NoMatchingValue => ScimType::NoTarget,
        PatchErrorModel::Protected(_) => ScimType::Mutability,
        PatchErrorModel::ImmutableOrReadOnly(_) => ScimType::Mutability,
        PatchErrorModel::InvalidPath(_) => ScimType::InvalidPath,
        PatchErrorModel::AmbiguousPath(_) => ScimType::InvalidPath,
        PatchErrorModel::SchemaQualifiedPath(_) => ScimType::InvalidPath,
        PatchErrorModel::InvalidSchemaMutability { .. } => ScimType::InvalidValue,
    }
}

impl PatchError {
    /// The detail error keyword for this refusal.
    pub fn scim_type(&self) -> (t: ScimType)
        ensures
            t == refusal_keyword(self@),
    {
        match self {
            PatchError::NoTarget => ScimType::NoTarget,
            PatchError::Protected(_) => ScimType::Mutability,
            PatchError::InvalidPath(_) => ScimType::InvalidPath,
            PatchError::NoMatchingValue => ScimType::NoTarget,
            PatchError::AmbiguousPath(_) => ScimType::InvalidPath,
            PatchError::SchemaQualifiedPath(_) => ScimType::InvalidPath,
            PatchError::ImmutableOrReadOnly(_) => ScimType::Mutability,
            PatchError::InvalidSchemaMutability { .. } => ScimType::InvalidValue,
        }
    }

    /// The HTTP status of every refusal.
    pub fn http_status(&self) -> (status: u16)
        ensures
            status == 400,
    {
        400
    }
}

/// Whether an attribute is never changed by PATCH.
pub open spec fn protected(attr_name: Seq<char>) -> bool {
    ||| text::same_ignoring_case("id"@, attr_name)
    ||| text::same_ignoring_case("meta"@, attr_name)
    ||| text::same_ignoring_case("schemas"@, attr_name)
}

/// The sub-attribute that a path targets, before or behind its brackets.
pub open spec fn target_sub_attr(path: PatchPathModel) -> Option<Seq<char>> {
    match path.attr_path.sub_attr {
        Some(sub) => Some(sub),
        None => path.sub_attr_after_filter,
    }
}

/// The refusal of an operation by its path alone, or by the schema's mutability of its target.
pub open spec fn path_refusal(
    path: PatchPathModel,
    original: Json,
    op: PatchOp,
    schema: Option<SchemaModel>,
) -> Option<PatchErrorModel> {
    let attr = path.attr_path.attr_name;
    match path.attr_path.schema_uri {
        Some(uri) => Some(PatchErrorModel::SchemaQualifiedPath(uri + ":"@ + attr)),
        None => if protected(attr) {
            Some(PatchErrorModel::Protected(attr))
        } else {
            match schema {
                Some(s) => mutability::mutability_refusal(
                    s,
                    original,
                    attr,
                    target_sub_attr(path),
                    path.value_filter,
                    op,
                ),
                None => None,
            }
        },
    }
}

/// The refusal where the resource is no object.
pub open spec fn root_refusal() -> PatchErrorModel {
    PatchErrorModel::AmbiguousPath("resource root is not a JSON object"@)
}

/// The refusal where a filter is applied to what is no array.
pub open spec fn not_multi_valued(attr: Seq<char>) -> PatchErrorModel {
    PatchErrorModel::AmbiguousPath(
        "'"@ + attr + "' is not a multi-valued attribute this resource has"@,
    )
}

/// The refusal where a sub-attribute is asked of what is no object.
pub open spec fn not_complex(attr: Seq<char>) -> PatchErrorModel {
    PatchErrorModel::AmbiguousPath("'"@ + attr + "' is not a complex attribute"@)
}

/// Whether some entry of the attribute matches.
pub open spec fn any_matches(
    entries: Seq<Json>,
    f: FilterModel,
    attr: Seq<char>,
    schema: Option<SchemaModel>,
) -> bool {
    exists|i: int|
        0 <= i < entries.len() && matching::entry_matches(f, #[trigger] entries[i], attr, schema)
}

/// Whether every entry of the attribute that matches is an object.
pub open spec fn matches_are_complex(
    entries: Seq<Json>,
    f: FilterModel,
    attr: Seq<char>,
    schema: Option<SchemaModel>,
) -> bool {
    forall|i: int|
        0 <= i < entries.len() && matching::entry_matches(f, #[trigger] entries[i], attr, schema)
            ==> entries[i] is Object
}

/// An entry without one of its members.
pub open spec fn entry_without(entry: Json, sub: Seq<char>) -> Json {
    match entry {
        Json::Object(members) => Json::Object(json::without(members, sub)),
        _ => entry,
    }
}

/// An entry with one of its members set; what is no object stays as it is.
pub open spec fn entry_with(entry: Json, sub: Seq<char>, value: Json) -> Json {
    match entry {
        Json::Object(members) => Json::Object(json::put(members, sub, value)),
        _ => entry,
    }
}

/// The entries that do not match.
pub open spec fn unmatched(
    entries: Seq<Json>,
    f: FilterModel,
    attr: Seq<char>,
    schema: Option<SchemaModel>,
) -> Seq<Json> {
    entries.filter(|entry: Json| !matching::entry_matches(f, entry, attr, schema))
}

/// The members of a resource after a `remove`.
pub open spec fn removed(
    root: Seq<(Seq<char>, Json)>,
    path: PatchPathModel,
    schema: Option<SchemaModel>,
) -> Result<Seq<(Seq<char>, Json)>, PatchErrorModel> {
    let attr = path.attr_path.attr_name;
    match path.value_filter {
        None => match path.attr_path.sub_attr {
            Some(sub) => match json::lookup(root, attr) {
                None => Ok(root),
                Some(Json::Object(members)) => Ok(
                    json::put(root, attr, Json::Object(json::without(members, sub))),
                ),
                Some(_) => Err(not_complex(attr)),
            },
            None => Ok(json::without(root, attr)),
        },
        Some(f) => match json::lookup(root, attr) {
            Some(Json::Array(entries)) => if !any_matches(entries, f, attr, schema) {
                Err(PatchErrorModel::NoMatchingValue)
            } else if path.sub_attr_after_filter is Some && !matches_are_complex(
                entries,
                f,
                attr,
                schema,
            ) {
                Err(not_complex(attr))
            } else {
                let left = match path.sub_attr_after_filter {
                    Some(sub) => Seq::new(
                        entries.len(),
                        |i: int|
                            if matching::entry_matches(f, entries[i], attr, schema) {
                                entry_without(entries[i], sub)
                            } else {
                                entries[i]
                            },
                    ),
                    None => unmatched(entries, f, attr, schema),
                };
                Ok(json::put(root, attr, Json::Array(left)))
            },
            _ => Err(not_multi_valued(attr)),
        },
    }
}

/// The JSON number of an integer.
pub open spec fn integer_number(n: i64) -> Number {
    if n < 0 {
        Number::NegInt(n)
    } else {
        Number::PosInt(n as u64)
    }
}

/// A value that an attribute's type may have been sent as: an array of one value for an attribute
/// that is not multi-valued stands for that value.
pub open spec fn unwrapped(value: Json, multi_valued: bool) -> Json {
    match value {
        Json::Array(items) => if !multi_valued && items.len() == 1 {
            items[0]
        } else {
            value
        },
        _ => value,
    }
}

/// A value brought to a declared type: a text that is exactly the canonical form of a boolean or
/// an integer, or a finite number in JSON's form, becomes that value; anything else stays as it is.
/// `decimal` is the finite double nearest to the text, where there is one.
pub open spec fn typed_text(s: Seq<char>, type_: Seq<char>, decimal: Option<u64>) -> Json {
    if type_ == "boolean"@ && s == "true"@ {
        Json::Bool(true)
    } else if type_ == "boolean"@ && s == "false"@ {
        Json::Bool(false)
    } else if type_ == "integer"@ && number::integer_with_text(s) is Some {
        Json::Number(integer_number(number::integer_with_text(s)->0))
    } else if type_ == "decimal"@ && number::is_decimal_text(s) && decimal is Some {
        Json::Number(Number::Float(decimal->0))
    } else {
        Json::String(s)
    }
}

/// A value brought to the type that an attribute definition declares.
pub open spec fn coerced(value: Json, def: AttributeModel) -> Json {
    match unwrapped(value, def.multi_valued) {
        Json::String(s) => typed_text(s, def.type_, number::nearest_double(s)),
        v => v,
    }
}

/// A value brought to the type that the schema, where there is one, declares for an attribute.
pub open spec fn coerced_for(
    schema: Option<SchemaModel>,
    attr: Seq<char>,
    sub: Option<Seq<char>>,
    value: Json,
) -> Json {
    match schema {
        Some(s) => match discovery::attribute_of(s, attr, sub) {
            Some(def) => coerced(value, def),
            None => value,
        },
        None => value,
    }
}

/// The definition of an attribute in the schema, where there is one.
pub open spec fn definition(schema: Option<SchemaModel>, attr: Seq<char>) -> Option<
    AttributeModel,
> {
    match schema {
        Some(s) => discovery::attribute_of(s, attr, None),
        None => None,
    }
}

/// The refusal of a new value for a whole attribute by the schema, where there is one.
pub open spec fn value_refusal(
    schema: Option<SchemaModel>,
    attr: Seq<char>,
    original: Json,
    value: Json,
) -> Option<PatchErrorModel> {
    match definition(schema, attr) {
        Some(def) => mutability::whole_value_refusal(attr, def, original.get(attr), value),
        None => None,
    }
}

/// The entry, as it was before the request, that an entry at hand corresponds to: the one with the
/// same `value`, or the entry itself where there is none.
pub open spec fn baseline(
    original: Json,
    attr: Seq<char>,
    def: AttributeModel,
    entry: Json,
) -> Json {
    match (entry.get("value"@), original.get(attr)) {
        (Some(key), Some(Json::Array(entries))) => match mutability::entry_with_key(
            entries,
            mutability::value_case_exact(def),
            key,
        ) {
            Some(found) => found,
            None => entry,
        },
        _ => entry,
    }
}

/// The entries with `value` in place of each that matches.
pub open spec fn matches_replaced(
    entries: Seq<Json>,
    f: FilterModel,
    attr: Seq<char>,
    value: Json,
    schema: Option<SchemaModel>,
) -> Seq<Json> {
    Seq::new(
        entries.len(),
        |i: int|
            if matching::entry_matches(f, entries[i], attr, schema) {
                value
            } else {
                entries[i]
            },
    )
}

/// The refusal for the first matching entry that may not be replaced by `value`.
pub open spec fn replacement_refusal(
    entries: Seq<Json>,
    f: FilterModel,
    attr: Seq<char>,
    original: Json,
    value: Json,
    schema: Option<SchemaModel>,
) -> Option<PatchErrorModel>
    decreases entries.len(),
{
    if entries.len() == 0 {
        None
    } else {
        let first = match definition(schema, attr) {
            Some(def) => if matching::entry_matches(f, entries[0], attr, schema) {
                mutability::entry_refusal(
                    attr,
                    def,
                    baseline(original, attr, def, entries[0]),
                    value,
                )
            } else {
                None
            },
            None => None,
        };
        match first {
            Some(e) => Some(e),
            None => replacement_refusal(entries.skip(1), f, attr, original, value, schema),
        }
    }
}

/// The members of a resource after a value was written to a path.
pub open spec fn written(
    root: Seq<(Seq<char>, Json)>,
    path: PatchPathModel,
    original: Json,
    value: Json,
    is_replace: bool,
    schema: Option<SchemaModel>,
) -> Result<Seq<(Seq<char>, Json)>, PatchErrorModel> {
    let attr = path.attr_path.attr_name;
    match path.value_filter {
        None => match path.attr_path.sub_attr {
            Some(sub) => {
                let new = coerced_for(schema, attr, Some(sub), value);
                match json::lookup(root, attr) {
                    None => Ok(
                        json::put(root, attr, Json::Object(json::put(Seq::empty(), sub, new))),
                    ),
                    Some(Json::Object(members)) => Ok(
                        json::put(root, attr, Json::Object(json::put(members, sub, new))),
                    ),
                    Some(_) => Err(not_complex(attr)),
                }
            },
            None => {
                let new = coerced_for(schema, attr, None, value);
                match value_refusal(schema, attr, original, new) {
                    Some(e) => Err(e),
                    None => match json::lookup(root, attr) {
                        Some(Json::Array(entries)) => if is_replace {
                            Ok(json::put(root, attr, new))
                        } else {
                            Ok(
                                json::put(
                                    root,
                                    attr,
                                    Json::Array(entries + mutability::entries_of(new)),
                                ),
                            )
                        },
                        _ => Ok(json::put(root, attr, new)),
                    },
                }
            },
        },
        Some(f) => match json::lookup(root, attr) {
            Some(Json::Array(entries)) => match path.sub_attr_after_filter {
                Some(sub) => if !any_matches(entries, f, attr, schema) {
                    Err(PatchErrorModel::NoMatchingValue)
                } else if !matches_are_complex(entries, f, attr, schema) {
                    Err(not_complex(attr))
                } else {
                    let new = coerced_for(schema, attr, Some(sub), value);
                    let after = Seq::new(
                        entries.len(),
                        |i: int|
                            if matching::entry_matches(f, entries[i], attr, schema) {
                                entry_with(entries[i], sub, new)
                            } else {
                                entries[i]
                            },
                    );
                    Ok(json::put(root, attr, Json::Array(after)))
                },
                None => match replacement_refusal(entries, f, attr, original, value, schema) {
                    Some(e) => Err(e),
                    None => if !any_matches(entries, f, attr, schema) {
                        Err(PatchErrorModel::NoMatchingValue)
                    } else {
                        let after = matches_replaced(entries, f, attr, value, schema);
                        Ok(json::put(root, attr, Json::Array(after)))
                    },
                },
            },
            _ => Err(not_multi_valued(attr)),
        },
    }
}

/// The refusal for the first member of a value without a path that may not be written.
pub open spec fn members_refusal(
    incoming: Seq<(Seq<char>, Json)>,
    original: Json,
    op: PatchOp,
    schema: Option<SchemaModel>,
) -> Option<PatchErrorModel>
    decreases incoming.len(),
{
    if incoming.len() == 0 {
        None
    } else {
        let (name, value) = incoming[0];
        let first = if protected(name) {
            Some(PatchErrorModel::Protected(name))
        } else {
            match schema {
                Some(s) => match mutability::mutability_refusal(
                    s,
                    original,
                    name,
                    None,
                    None,
                    op,
                ) {
                    Some(e) => Some(e),
                    None => value_refusal(schema, name, original, value),
                },
                None => None,
            }
        };
        match first {
            Some(e) => Some(e),
            None => members_refusal(incoming.skip(1), original, op, schema),
        }
    }
}

/// The members of a resource with other members set, one after the other.
pub open spec fn merged(
    root: Seq<(Seq<char>, Json)>,
    incoming: Seq<(Seq<char>, Json)>,
) -> Seq<(Seq<char>, Json)>
    decreases incoming.len(),
{
    if incoming.len() == 0 {
        root
    } else {
        json::put(merged(root, incoming.drop_last()), incoming.last().0, incoming.last().1)
    }
}

/// A result for the members of a resource, as one for the resource.
pub open spec fn as_resource(r: Result<Seq<(Seq<char>, Json)>, PatchErrorModel>) -> Result<
    Json,
    PatchErrorModel,
> {
    match r {
        Ok(root) => Ok(Json::Object(root)),
        Err(e) => Err(e),
    }
}

/// A resource after one operation; `original` is the resource before the request.
pub open spec fn after_operation(
    resource: Json,
    original: Json,
    operation: OperationModel,
    schema: Option<SchemaModel>,
) -> Result<Json, PatchErrorModel> {
    let value = match operation.value {
        Some(v) => v,
        None => Json::Null,
    };
    match operation.path {
        Some(s) => match filter::parsed_patch_path(s) {
            Err(e) => Err(PatchErrorModel::InvalidPath(e)),
            Ok(path) => match path_refusal(path, original, operation.op, schema) {
                Some(e) => Err(e),
                None => match resource {
                    Json::Object(root) => if operation.op == PatchOp::Remove {
                        as_resource(removed(root, path, schema))
                    } else {
                        as_resource(
                            written(
                                root,
                                path,
                                original,
                                value,
                                operation.op == PatchOp::Replace,
                                schema,
                            ),
                        )
                    },
                    _ => Err(root_refusal()),
                },
            },
        },
        None => if operation.op == PatchOp::Remove {
            Err(PatchErrorModel::NoTarget)
        } else {
            match value {
                Json::Object(incoming) => match members_refusal(
                    incoming,
                    original,
                    operation.op,
                    schema,
                ) {
                    Some(e) => Err(e),
                    None => match resource {
                        Json::Object(root) => Ok(Json::Object(merged(root, incoming))),
                        _ => Err(root_refusal()),
                    },
                },
                _ => Err(
                    PatchErrorModel::AmbiguousPath(
                        "no-path add/replace requires an object value"@,
                    ),
                ),
            }
        },
    }
}

/// The resource after a sequence of operations, or the first error.
pub open spec fn after_operations(
    resource: Json,
    original: Json,
    operations: Seq<OperationModel>,
    schema: Option<SchemaModel>,
) -> Result<Json, PatchErrorModel>
    decreases operations.len(),
{
    if operations.len() == 0 {
        Ok(resource)
    } else {
        match after_operation(resource, original, operations[0], schema) {
            Err(e) => Err(e),
            Ok(next) => after_operations(next, original, operations.skip(1), schema),
        }
    }
}

/// The resource after a PATCH request, or why the request was refused.
pub open spec fn patched(
    resource: Json,
    operations: Seq<OperationModel>,
    schema: Option<SchemaModel>,
) -> Result<Json, PatchErrorModel> {
    after_operations(resource, resource, operations, schema)
}

/// The operations that a sequence of exec operations stands for.
pub open spec fn operation_views(operations: Seq<PatchOperation>) -> Seq<OperationModel> {
    Seq::new(operations.len(), |i: int| operations[i]@)
}

/// The view of the outcome of a request.
pub open spec fn outcome(r: Result<Value, PatchError>) -> Result<Json, PatchErrorModel> {
    match r {
        Ok(v) => Ok(v@),
        Err(e) => Err(e@),
    }
}

/// The view of an outcome for the members of a resource.
spec fn members_outcome(r: Result<Members, PatchError>) -> Result<
    Seq<(Seq<char>, Json)>,
    PatchErrorModel,
> {
    match r {
        Ok(root) => Ok(root@),
        Err(e) => Err(e@),
    }
}

/// Whether an attribute is never changed by PATCH.
pub fn is_protected(attr_name: &str) -> (r: bool)
    ensures
        r == protected(attr_name@),
{
    equal_ignoring_case("id", attr_name) || equal_ignoring_case("meta", attr_name)
        || equal_ignoring_case("schemas", attr_name)
}

fn effective_sub_attr(path: &PatchPath) -> (r: Option<&str>)
    ensures
        discovery::optional_str(r) == target_sub_attr(path@),
{
    match &path.attr_path.sub_attr {
        Some(sub) => Some(sub.as_str()),
        None => match &path.sub_attr_after_filter {
            Some(sub) => Some(sub.as_str()),
            None => None,
        },
    }
}

fn reject_schema_qualified_path(path: &PatchPath) -> (r: Result<(), PatchError>)
    ensures
        mutability::refusal(r) == (match path@.attr_path.schema_uri {
            Some(uri) => Some(
                PatchErrorModel::SchemaQualifiedPath(uri + ":"@ + path@.attr_path.attr_name),
            ),
            None => None,
        }),
{
    match &path.attr_path.schema_uri {
        Some(uri) => Err(
            PatchError::SchemaQualifiedPath(
                joined(&joined(uri.as_str(), ":"), path.attr_path.attr_name.as_str()),
            ),
        ),
        None => Ok(()),
    }
}

fn check_path(
    path: &PatchPath,
    original: &Value,
    op: PatchOp,
    schema: Option<&SchemaResource>,
) -> (r: Result<(), PatchError>)
    ensures
        mutability::refusal(r) == path_refusal(path@, original@, op, viewed(schema)),
{
    match reject_schema_qualified_path(path) {
        Ok(_) => {},
        Err(e) => {
            return Err(e);
        },
    }
    let attr = path.attr_path.attr_name.as_str();
    if is_protected(attr) {
        return Err(PatchError::Protected(path.attr_path.attr_name.clone()));
    }
    match schema {
        Some(schema) => {
            let value_filter = match &path.value_filter {
                Some(f) => Some(f),
                None => None,
            };
            check_mutability(schema, original, attr, effective_sub_attr(path), value_filter, op)
        },
        None => Ok(()),
    }
}

fn not_multi_valued_error(attr: &str) -> (e: PatchError)
    ensures
        e@ == not_multi_valued(attr@),
{
    PatchError::AmbiguousPath(
        joined(&joined("'", attr), "' is not a multi-valued attribute this resource has"),
    )
}

fn not_complex_error(attr: &str) -> (e: PatchError)
    ensures
        e@ == not_complex(attr@),
{
    PatchError::AmbiguousPath(joined(&joined("'", attr), "' is not a complex attribute"))
}

fn root_error() -> (e: PatchError)
    ensures
        e@ == root_refusal(),
{
    PatchError::AmbiguousPath("resource root is not a JSON object".to_owned())
}

/// The entries of an attribute with `sub` removed from those that match, whether any matched, and
/// whether those that did are objects.
fn drop_sub_attr(
    entries: &Vec<Value>,
    filter: &Filter,
    attr: &str,
    sub: &str,
    schema: Option<&SchemaResource>,
) -> (r: (Vec<Value>, bool, bool))
    ensures
        json::views(r.0@) == Seq::new(
            json::views(entries@).len(),
            |i: int|
                if matching::entry_matches(
                    filter@,
                    json::views(entries@)[i],
                    attr@,
                    viewed(schema),
                ) {
                    entry_without(json::views(entries@)[i], sub@)
                } else {
                    json::views(entries@)[i]
                },
        ),
        r.1 == any_matches(json::views(entries@), filter@, attr@, viewed(schema)),
        r.2 == matches_are_complex(json::views(entries@), filter@, attr@, viewed(schema)),
{
    let ghost shown = json::views(entries@);
    let mut out: Vec<Value> = Vec::new();
    let mut any = false;
    let mut complex = true;
    let mut i: usize = 0;
    while i < entries.len()
        invariant
            i <= entries.len(),
            shown == json::views(entries@),
            shown.len() == entries.len(),
            json::views(out@).len() == i,
            forall|j: int|
                0 <= j < i ==> #[trigger] json::views(out@)[j] == (if matching::entry_matches(
                    filter@,
                    shown[j],
                    attr@,
                    viewed(schema),
                ) {
                    entry_without(shown[j], sub@)
                } else {
                    shown[j]
                }),
            any <==> exists|j: int|
                0 <= j < i && matching::entry_matches(
                    filter@,
                    #[trigger] shown[j],
                    attr@,
                    viewed(schema),
                ),
            complex <==> forall|j: int|
                0 <= j < i && matching::entry_matches(
                    filter@,
                    #[trigger] shown[j],
                    attr@,
                    viewed(schema),
                ) ==> shown[j] is Object,
        decreases entries.len() - i,
    {
        proof {
            json::lemma_views_index(entries@, i as int);
        }
        let entry = &entries[i];
        let next = if evaluate(filter, entry, attr, schema) {
            any = true;
            assert(matching::entry_matches(filter@, shown[i as int], attr@, viewed(schema)));
            match entry {
                Value::Object(members) => {
                    let mut left = members.clone();
                    left.remove(sub);
                    Value::Object(left)
                },
                _ => {
                    complex = false;
                    entry.clone()
                },
            }
        } else {
            entry.clone()
        };
        proof {
            json::lemma_views_push(out@, next);
        }
        out.push(next);
        i += 1;
    }
    (out, any, complex)
}

/// The entries of an attribute that do not match, and whether any matched.
fn drop_entries(
    entries: &Vec<Value>,
    filter: &Filter,
    attr: &str,
    schema: Option<&SchemaResource>,
) -> (r: (Vec<Value>, bool))
    ensures
        json::views(r.0@) == unmatched(json::views(entries@), filter@, attr@, viewed(schema)),
        r.1 == any_matches(json::views(entries@), filter@, attr@, viewed(schema)),
{
    let ghost shown = json::views(entries@);
    let ghost keep = |entry: Json| !matching::entry_matches(filter@, entry, attr@, viewed(schema));
    let mut out: Vec<Value> = Vec::new();
    let mut any = false;
    let mut i: usize = 0;
    proof {
        reveal(Seq::filter);
        assert(json::views(out@) =~= shown.take(0).filter(keep));
    }
    while i < entries.len()
        invariant
            i <= entries.len(),
            shown == json::views(entries@),
            shown.len() == entries.len(),
            keep == (|entry: Json|
                !matching::entry_matches(filter@, entry, attr@, viewed(schema))),
            json::views(out@) == shown.take(i as int).filter(keep),
            any <==> exists|j: int|
                0 <= j < i && matching::entry_matches(
                    filter@,
                    #[trigger] shown[j],
                    attr@,
                    viewed(schema),
                ),
        decreases entries.len() - i,
    {
        proof {
            reveal(Seq::filter);
            json::lemma_views_index(entries@, i as int);
            assert(shown.take(i + 1).drop_last() =~= shown.take(i as int));
            assert(shown.take(i + 1).last() == shown[i as int]);
        }
        let entry = &entries[i];
        if evaluate(filter, entry, attr, schema) {
            any = true;
            assert(matching::entry_matches(filter@, shown[i as int], attr@, viewed(schema)));
        } else {
            let kept = entry.clone();
            proof {
                json::lemma_views_push(out@, kept);
            }
            out.push(kept);
        }
        i += 1;
    }
    assert(shown.take(i as int) =~= shown);
    (out, any)
}

fn remove_from_root(
    root: Members,
    path: &PatchPath,
    schema: Option<&SchemaResource>,
) -> (r: Result<Members, PatchError>)
    ensures
        members_outcome(r) == removed(root@, path@, viewed(schema)),
{
    let mut root = root;
    let attr = path.attr_path.attr_name.as_str();
    match &path.value_filter {
        None => match &path.attr_path.sub_attr {
            Some(sub) => {
                let mut left = match root.get(attr) {
                    None => {
                        return Ok(root);
                    },
                    Some(Value::Object(members)) => members.clone(),
                    Some(_) => {
                        return Err(not_complex_error(attr));
                    },
                };
                left.remove(sub.as_str());
                root.insert(attr.to_owned(), Value::Object(left));
                Ok(root)
            },
            None => {
                root.remove(attr);
                Ok(root)
            },
        },
        Some(filter) => {
            let (left, any) = match root.get(attr) {
                Some(Value::Array(entries)) => match &path.sub_attr_after_filter {
                    Some(sub) => {
                        let (left, any, complex) = drop_sub_attr(
                            entries,
                            filter,
                            attr,
                            sub.as_str(),
                            schema,
                        );
                        if !complex {
                            return Err(not_complex_error(attr));
                        }
                        (left, any)
                    },
                    None => drop_entries(entries, filter, attr, schema),
                },
                _ => {
                    return Err(not_multi_valued_error(attr));
                },
            };
            if !any {
                return Err(PatchError::NoMatchingValue);
            }
            root.insert(attr.to_owned(), Value::Array(left));
            Ok(root)
        },
    }
}

fn apply_remove(
    resource: Value,
    original: &Value,
    operation: &PatchOperation,
    schema: Option<&SchemaResource>,
) -> (r: Result<Value, PatchError>)
    requires
        operation.op == PatchOp::Remove,
    ensures
        outcome(r) == after_operation(resource@, original@, operation@, viewed(schema)),
{
    let path = match &operation.path {
        Some(s) => match parse_patch_path(s.as_str()) {
            Ok(path) => path,
            Err(e) => {
                return Err(PatchError::from(e));
            },
        },
        None => {
            return Err(PatchError::NoTarget);
        },
    };
    match check_path(&path, original, operation.op, schema) {
        Ok(_) => {},
        Err(e) => {
            return Err(e);
        },
    }
    match resource {
        Value::Object(root) => match remove_from_root(root, &path, schema) {
            Ok(root) => Ok(Value::Object(root)),
            Err(e) => Err(e),
        },
        _ => Err(root_error()),
    }
}

/// Brings a text to a declared type, given the finite double nearest to it where there is one.
pub fn type_text(s: String, type_: &str, decimal: Option<u64>) -> (r: Value)
    ensures
        r@ == typed_text(s@, type_@, decimal),
{
    if same_text(type_, "boolean") && same_text(s.as_str(), "true") {
        return Value::Bool(true);
    }
    if same_text(type_, "boolean") && same_text(s.as_str(), "false") {
        return Value::Bool(false);
    }
    if same_text(type_, "integer") {
        if let Some(n) = canonical_integer(s.as_str()) {
            let number = if n < 0 {
                Number::NegInt(n)
            } else {
                Number::PosInt(n as u64)
            };
            return Value::Number(number);
        }
    }
    if same_text(type_, "decimal") && has_decimal_text(s.as_str()) {
        if let Some(bits) = decimal {
            return Value::Number(Number::Float(bits));
        }
    }
    Value::String(s)
}

/// Brings a value to the type that an attribute definition declares.
pub fn coerce_to_attribute_type(value: Value, attr_def: &AttributeDefinition) -> (r: Value)
    ensures
        r@ == coerced(value@, attr_def@),
{
    let mut value = value;
    if !attr_def.multi_valued {
        let single = match &value {
            Value::Array(items) => {
                proof {
                    json::lemma_views_len(items@);
                }
                if items.len() == 1 {
                    proof {
                        json::lemma_views_index(items@, 0);
                    }
                    Some(items[0].clone())
                } else {
                    None
                }
            },
            _ => None,
        };
        if let Some(v) = single {
            value = v;
        }
    } else {
        proof {
            if let Value::Array(items) = &value {
                json::lemma_views_len(items@);
            }
        }
    }
    match value {
        Value::String(s) => {
            let decimal = parse_double(s.as_str());
            type_text(s, attr_def.type_.as_str(), decimal)
        },
        other => other,
    }
}

fn coerce_for(schema: Option<&SchemaResource>, attr: &str, sub: Option<&str>, value: Value) -> (r:
    Value)
    ensures
        r@ == coerced_for(viewed(schema), attr@, discovery::optional_str(sub), value@),
{
    match schema {
        Some(schema) => match find_attribute(schema, attr, sub) {
            Some(def) => coerce_to_attribute_type(value, def),
            None => value,
        },
        None => value,
    }
}

fn find_definition<'a>(schema: Option<&'a SchemaResource>, attr: &str) -> (r: Option<
    &'a AttributeDefinition,
>)
    ensures
        viewed(r) == definition(viewed(schema), attr@),
{
    match schema {
        Some(schema) => find_attribute(schema, attr, None),
        None => None,
    }
}

fn check_value(
    schema: Option<&SchemaResource>,
    attr: &str,
    original: &Value,
    value: &Value,
) -> (r: Result<(), PatchError>)
    ensures
        mutability::refusal(r) == value_refusal(viewed(schema), attr@, original@, value@),
{
    match find_definition(schema, attr) {
        Some(def) => check_multivalued_complex_replace_mutability(
            attr,
            def,
            original.get(attr),
            value,
        ),
        None => Ok(()),
    }
}

fn write_sub_attr(
    root: Members,
    attr: &str,
    sub: &str,
    value: Value,
    schema: Option<&SchemaResource>,
) -> (r: Result<Members, PatchError>)
    ensures
        members_outcome(r) == ({
            let new = coerced_for(viewed(schema), attr@, Some(sub@), value@);
            match json::lookup(root@, attr@) {
                None => Ok(
                    json::put(root@, attr@, Json::Object(json::put(Seq::empty(), sub@, new))),
                ),
                Some(Json::Object(members)) => Ok(
                    json::put(root@, attr@, Json::Object(json::put(members, sub@, new))),
                ),
                Some(_) => Err(not_complex(attr@)),
            }
        }),
{
    let mut root = root;
    let mut members = match root.get(attr) {
        None => Members::new(),
        Some(Value::Object(members)) => members.clone(),
        Some(_) => {
            return Err(not_complex_error(attr));
        },
    };
    members.insert(sub.to_owned(), coerce_for(schema, attr, Some(sub), value));
    root.insert(attr.to_owned(), Value::Object(members));
    Ok(root)
}

fn appended(entries: &Vec<Value>, value: Value) -> (out: Vec<Value>)
    ensures
        json::views(out@) == json::views(entries@) + mutability::entries_of(value@),
{
    let mut out: Vec<Value> = Vec::new();
    let mut i: usize = 0;
    while i < entries.len()
        invariant
            i <= entries.len(),
            json::views(out@) == json::views(entries@).take(i as int),
        decreases entries.len() - i,
    {
        let entry = entries[i].clone();
        proof {
            json::lemma_views_push(out@, entry);
            json::lemma_views_index(entries@, i as int);
        }
        out.push(entry);
        i += 1;
    }
    assert(json::views(out@) =~= json::views(entries@));
    match value {
        Value::Array(items) => {
            let ghost before = json::views(out@);
            let ghost shown = json::views(items@);
            let mut k: usize = 0;
            assert(before =~= before + shown.take(0));
            while k < items.len()
                invariant
                    k <= items.len(),
                    shown == json::views(items@),
                    shown.len() == items.len(),
                    json::views(out@) == before + shown.take(k as int),
                decreases items.len() - k,
            {
                let item = items[k].clone();
                proof {
                    json::lemma_views_push(out@, item);
                    json::lemma_views_index(items@, k as int);
                    assert((before + shown.take(k as int)).push(item@) =~= before + shown.take(
                        k + 1,
                    ));
                }
                out.push(item);
                k += 1;
            }
            assert(shown.take(k as int) =~= shown);
        },
        single => {
            proof {
                json::lemma_views_push(out@, single);
                assert(json::views(out@).push(single@) =~= json::views(out@) + seq![single@]);
            }
            out.push(single);
        },
    }
    out
}

fn write_attr(
    root: Members,
    attr: &str,
    original: &Value,
    value: Value,
    is_replace: bool,
    schema: Option<&SchemaResource>,
) -> (r: Result<Members, PatchError>)
    ensures
        members_outcome(r) == ({
            let new = coerced_for(viewed(schema), attr@, None, value@);
            match value_refusal(viewed(schema), attr@, original@, new) {
                Some(e) => Err(e),
                None => match json::lookup(root@, attr@) {
                    Some(Json::Array(entries)) => if is_replace {
                        Ok(json::put(root@, attr@, new))
                    } else {
                        Ok(
                            json::put(
                                root@,
                                attr@,
                                Json::Array(entries + mutability::entries_of(new)),
                            ),
                        )
                    },
                    _ => Ok(json::put(root@, attr@, new)),
                },
            }
        }),
{
    let mut root = root;
    let new = coerce_for(schema, attr, None, value);
    match check_value(schema, attr, original, &new) {
        Ok(_) => {},
        Err(e) => {
            return Err(e);
        },
    }
    let result = if is_replace {
        new
    } else {
        match root.get(attr) {
            Some(Value::Array(entries)) => Value::Array(appended(entries, new)),
            _ => new,
        }
    };
    root.insert(attr.to_owned(), result);
    Ok(root)
}

/// The entries of an attribute with `sub` set in those that match, whether any matched, and whether
/// those that did are objects.
fn set_sub_attr(
    entries: &Vec<Value>,
    filter: &Filter,
    attr: &str,
    sub: &str,
    value: &Value,
    schema: Option<&SchemaResource>,
) -> (r: (Vec<Value>, bool, bool))
    ensures
        json::views(r.0@) == Seq::new(
            json::views(entries@).len(),
            |i: int|
                if matching::entry_matches(
                    filter@,
                    json::views(entries@)[i],
                    attr@,
                    viewed(schema),
                ) {
                    entry_with(json::views(entries@)[i], sub@, value@)
                } else {
                    json::views(entries@)[i]
                },
        ),
        r.1 == any_matches(json::views(entries@), filter@, attr@, viewed(schema)),
        r.2 == matches_are_complex(json::views(entries@), filter@, attr@, viewed(schema)),
{
    let ghost shown = json::views(entries@);
    let mut out: Vec<Value> = Vec::new();
    let mut any = false;
    let mut complex = true;
    let mut i: usize = 0;
    while i < entries.len()
        invariant
            i <= entries.len(),
            shown == json::views(entries@),
            shown.len() == entries.len(),
            json::views(out@).len() == i,
            forall|j: int|
                0 <= j < i ==> #[trigger] json::views(out@)[j] == (if matching::entry_matches(
                    filter@,
                    shown[j],
                    attr@,
                    viewed(schema),
                ) {
                    entry_with(shown[j], sub@, value@)
                } else {
                    shown[j]
                }),
            any <==> exists|j: int|
                0 <= j < i && matching::entry_matches(
                    filter@,
                    #[trigger] shown[j],
                    attr@,
                    viewed(schema),
                ),
            complex <==> forall|j: int|
                0 <= j < i && matching::entry_matches(
                    filter@,
                    #[trigger] shown[j],
                    attr@,
                    viewed(schema),
                ) ==> shown[j] is Object,
        decreases entries.len() - i,
    {
        proof {
            json::lemma_views_index(entries@, i as int);
        }
        let entry = &entries[i];
        let next = if evaluate(filter, entry, attr, schema) {
            any = true;
            assert(matching::entry_matches(filter@, shown[i as int], attr@, viewed(schema)));
            match entry {
                Value::Object(members) => {
                    let mut changed = members.clone();
                    changed.insert(sub.to_owned(), value.clone());
                    Value::Object(changed)
                },
                _ => {
                    complex = false;
                    entry.clone()
                },
            }
        } else {
            entry.clone()
        };
        proof {
            json::lemma_views_push(out@, next);
        }
        out.push(next);
        i += 1;
    }
    (out, any, complex)
}

fn check_replacement(
    entry: &Value,
    attr: &str,
    original: &Value,
    value: &Value,
    def: &AttributeDefinition,
) -> (r: Result<(), PatchError>)
    ensures
        mutability::refusal(r) == mutability::entry_refusal(
            attr@,
            def@,
            baseline(original@, attr@, def@, entry@),
            value@,
        ),
{
    let found = match entry.get("value") {
        Some(key) => match original.get(attr) {
            Some(Value::Array(entries)) => find_entry_by_value(entries, def, key),
            _ => None,
        },
        None => None,
    };
    let old = match found {
        Some(e) => e,
        None => entry,
    };
    check_entry_immutable_sub_attrs(attr, def, old, value)
}

/// The entries of an attribute with those that match replaced, and whether any matched; or the
/// refusal for the first that may not be replaced.
fn replace_entries(
    entries: &Vec<Value>,
    filter: &Filter,
    attr: &str,
    original: &Value,
    value: &Value,
    schema: Option<&SchemaResource>,
) -> (r: Result<(Vec<Value>, bool), PatchError>)
    ensures
        (match r {
            Ok(_) => None,
            Err(e) => Some(e@),
        }) == replacement_refusal(
            json::views(entries@),
            filter@,
            attr@,
            original@,
            value@,
            viewed(schema),
        ),
        r matches Ok((out, any)) ==> json::views(out@) == Seq::new(
            json::views(entries@).len(),
            |i: int|
                if matching::entry_matches(
                    filter@,
                    json::views(entries@)[i],
                    attr@,
                    viewed(schema),
                ) {
                    value@
                } else {
                    json::views(entries@)[i]
                },
        ) && any == any_matches(json::views(entries@), filter@, attr@, viewed(schema)),
{
    let ghost shown = json::views(entries@);
    let def = find_definition(schema, attr);
    let mut out: Vec<Value> = Vec::new();
    let mut any = false;
    let mut i: usize = 0;
    assert(shown.skip(0) =~= shown);
    while i < entries.len()
        invariant
            i <= entries.len(),
            shown == json::views(entries@),
            shown.len() == entries.len(),
            viewed(def) == definition(viewed(schema), attr@),
            json::views(out@).len() == i,
            forall|j: int|
                0 <= j < i ==> #[trigger] json::views(out@)[j] == (if matching::entry_matches(
                    filter@,
                    shown[j],
                    attr@,
                    viewed(schema),
                ) {
                    value@
                } else {
                    shown[j]
                }),
            any <==> exists|j: int|
                0 <= j < i && matching::entry_matches(
                    filter@,
                    #[trigger] shown[j],
                    attr@,
                    viewed(schema),
                ),
            replacement_refusal(shown, filter@, attr@, original@, value@, viewed(schema))
                == replacement_refusal(
                shown.skip(i as int),
                filter@,
                attr@,
                original@,
                value@,
                viewed(schema),
            ),
        decreases entries.len() - i,
    {
        proof {
            json::lemma_views_index(entries@, i as int);
            assert(shown.skip(i as int).skip(1) =~= shown.skip(i + 1));
            assert(shown.skip(i as int)[0] == shown[i as int]);
        }
        let entry = &entries[i];
        let next = if evaluate(filter, entry, attr, schema) {
            any = true;
            assert(matching::entry_matches(filter@, shown[i as int], attr@, viewed(schema)));
            if let Some(def) = def {
                match check_replacement(entry, attr, original, value, def) {
                    Ok(_) => {},
                    Err(e) => {
                        return Err(e);
                    },
                }
            }
            value.clone()
        } else {
            entry.clone()
        };
        proof {
            json::lemma_views_push(out@, next);
        }
        out.push(next);
        i += 1;
    }
    Ok((out, any))
}

fn write_to_root(
    root: Members,
    path: &PatchPath,
    original: &Value,
    value: Value,
    is_replace: bool,
    schema: Option<&SchemaResource>,
) -> (r: Result<Members, PatchError>)
    ensures
        members_outcome(r) == written(
            root@,
            path@,
            original@,
            value@,
            is_replace,
            viewed(schema),
        ),
{
    let attr = path.attr_path.attr_name.as_str();
    match &path.value_filter {
        None => match &path.attr_path.sub_attr {
            Some(sub) => write_sub_attr(root, attr, sub.as_str(), value, schema),
            None => write_attr(root, attr, original, value, is_replace, schema),
        },
        Some(filter) => {
            let mut root = root;
            let (after, any) = match root.get(attr) {
                Some(Value::Array(entries)) => match &path.sub_attr_after_filter {
                    Some(sub) => {
                        let new = coerce_for(schema, attr, Some(sub.as_str()), value);
                        let (after, any, complex) = set_sub_attr(
                            entries,
                            filter,
                            attr,
                            sub.as_str(),
                            &new,
                            schema,
                        );
                        if !complex {
                            return Err(not_complex_error(attr));
                        }
                        (after, any)
                    },
                    None => match replace_entries(
                        entries,
                        filter,
                        attr,
                        original,
                        &value,
                        schema,
                    ) {
                        Ok(pair) => pair,
                        Err(e) => {
                            return Err(e);
                        },
                    },
                },
                _ => {
                    return Err(not_multi_valued_error(attr));
                },
            };
            if !any {
                return Err(PatchError::NoMatchingValue);
            }
            root.insert(attr.to_owned(), Value::Array(after));
            Ok(root)
        },
    }
}

fn check_members(
    incoming: &Members,
    original: &Value,
    op: PatchOp,
    schema: Option<&SchemaResource>,
) -> (r: Result<(), PatchError>)
    ensures
        mutability::refusal(r) == members_refusal(incoming@, original@, op, viewed(schema)),
{
    let mut i: usize = 0;
    assert(incoming@.skip(0) =~= incoming@);
    while i < incoming.len()
        invariant
            i <= incoming@.len(),
            members_refusal(incoming@, original@, op, viewed(schema)) == members_refusal(
                incoming@.skip(i as int),
                original@,
                op,
                viewed(schema),
            ),
        decreases incoming@.len() - i,
    {
        assert(incoming@.skip(i as int).skip(1) =~= incoming@.skip(i + 1));
        assert(incoming@.skip(i as int)[0] == incoming@[i as int]);
        let name = incoming.name_at(i);
        if is_protected(name) {
            return Err(PatchError::Protected(name.to_owned()));
        }
        if let Some(s) = schema {
            match check_mutability(s, original, name, None, None, op) {
                Ok(_) => {},
                Err(e) => {
                    return Err(e);
                },
            }
            match check_value(schema, name, original, incoming.value_at(i)) {
                Ok(_) => {},
                Err(e) => {
                    return Err(e);
                },
            }
        }
        i += 1;
    }
    Ok(())
}

fn merge_members(root: Members, incoming: &Members) -> (r: Members)
    ensures
        r@ == merged(root@, incoming@),
{
    let ghost before = root@;
    let mut root = root;
    let mut i: usize = 0;
    while i < incoming.len()
        invariant
            i <= incoming@.len(),
            root@ == merged(before, incoming@.take(i as int)),
        decreases incoming@.len() - i,
    {
        assert(incoming@.take(i + 1).drop_last() =~= incoming@.take(i as int));
        root.insert(incoming.name_at(i).to_owned(), incoming.value_at(i).clone());
        i += 1;
    }
    assert(incoming@.take(i as int) =~= incoming@);
    root
}

fn apply_add_or_replace(
    resource: Value,
    original: &Value,
    operation: &PatchOperation,
    is_replace: bool,
    schema: Option<&SchemaResource>,
) -> (r: Result<Value, PatchError>)
    requires
        operation.op != PatchOp::Remove,
        is_replace == (operation.op == PatchOp::Replace),
    ensures
        outcome(r) == after_operation(resource@, original@, operation@, viewed(schema)),
{
    let value = match &operation.value {
        Some(v) => v.clone(),
        None => Value::Null,
    };
    let path = match &operation.path {
        Some(s) => match parse_patch_path(s.as_str()) {
            Ok(path) => path,
            Err(e) => {
                return Err(PatchError::from(e));
            },
        },
        None => {
            return match value {
                Value::Object(incoming) => match check_members(
                    &incoming,
                    original,
                    operation.op,
                    schema,
                ) {
                    Ok(_) => match resource {
                        Value::Object(root) => Ok(Value::Object(merge_members(root, &incoming))),
                        _ => Err(root_error()),
                    },
                    Err(e) => Err(e),
                },
                _ => Err(
                    PatchError::AmbiguousPath(
                        "no-path add/replace requires an object value".to_owned(),
                    ),
                ),
            };
        },
    };
    match check_path(&path, original, operation.op, schema) {
        Ok(_) => {},
        Err(e) => {
            return Err(e);
        },
    }
    match resource {
        Value::Object(root) => match write_to_root(
            root,
            &path,
            original,
            value,
            is_replace,
            schema,
        ) {
            Ok(root) => Ok(Value::Object(root)),
            Err(e) => Err(e),
        },
        _ => Err(root_error()),
    }
}

fn apply_one(
    resource: Value,
    original: &Value,
    operation: &PatchOperation,
    schema: Option<&SchemaResource>,
) -> (r: Result<Value, PatchError>)
    ensures
        outcome(r) == after_operation(resource@, original@, operation@, viewed(schema)),
{
    match operation.op {
        PatchOp::Remove => apply_remove(resource, original, operation, schema),
        PatchOp::Add => apply_add_or_replace(resource, original, operation, false, schema),
        PatchOp::Replace => apply_add_or_replace(resource, original, operation, true, schema),
    }
}

fn apply_patch_internal(
    resource: &Value,
    operations: &[PatchOperation],
    schema: Option<&SchemaResource>,
) -> (r: Result<Value, PatchError>)
    ensures
        outcome(r) == patched(resource@, operation_views(operations@), viewed(schema)),
{
    let ghost ops = operation_views(operations@);
    let mut working = resource.clone();
    let mut i: usize = 0;
    assert(ops.skip(0) =~= ops);
    while i < operations.len()
        invariant
            i <= operations.len(),
            ops == operation_views(operations@),
            patched(resource@, ops, viewed(schema)) == after_operations(
                working@,
                resource@,
                ops.skip(i as int),
                viewed(schema),
            ),
        decreases operations.len() - i,
    {
        assert(ops.skip(i as int).skip(1) =~= ops.skip(i + 1));
        assert(ops.skip(i as int)[0] == operations@[i as int]@);
        match apply_one(working, resource, &operations[i], schema) {
            Ok(next) => {
                working = next;
            },
            Err(e) => {
                return Err(e);
            },
        }
        i += 1;
    }
    Ok(working)
}

/// Applies a PATCH request to a resource: the resource after all operations, or the first error.
/// The resource given is left as it is. `id`, `meta` and `schemas` are protected; for the
/// mutability of other attributes use [`apply_patch_with_schema`].
pub fn apply_patch(resource: &Value, operations: &[PatchOperation]) -> (r: Result<Value, PatchError>)
    ensures
        outcome(r) == patched(resource@, operation_views(operations@), None),
{
    apply_patch_internal(resource, operations, None)
}

/// As [`apply_patch`], and holds every operation to the mutability that `schema` declares. For a
/// resource with an extension, pass a schema that holds the extension's attributes too.
pub fn apply_patch_with_schema(
    resource: &Value,
    operations: &[PatchOperation],
    schema: &SchemaResource,
) -> (r: Result<Value, PatchError>)
    ensures
        outcome(r) == patched(resource@, operation_views(operations@), Some(schema@)),
{
    apply_patch_internal(resource, operations, Some(schema))
}

} // verus!
