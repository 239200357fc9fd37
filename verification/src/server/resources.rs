//! What the server does with users and groups between reading a request and writing a response.

use crate::common::{Meta, MetaModel, ResourceId, Timestamp};
use crate::discovery::{optional_str, SchemaModel, SchemaResource};
use crate::group;
use crate::group::{group_schema, Group, GROUP_SCHEMA_URI};
use crate::json;
use crate::json::{viewed, Json, Members, Number, Value};
use crate::list_response::LIST_RESPONSE_SCHEMA_URI;
use crate::patch;
use crate::patch::apply_patch_with_schema;
use crate::patch_laws;
use crate::server::clock;
use crate::server::clock::{fresh_id, now, parse_instant, write_instant};
use crate::server::error::{ApiError, ApiErrorModel};
use crate::server::patch_request;
use crate::server::patch_request::parse_patch_operations;
use crate::server::store;
use crate::server::store::{CapturedModel, CapturedRequest, Store};
use crate::text;
use crate::text::{equal_ignoring_case, joined, same_text};
use crate::user;
use crate::user::{user_schema, User, USER_SCHEMA_URI};
use vstd::prelude::*;

verus! {

/// The media type of SCIM responses (RFC 7644 §8.1).
pub const SCIM_MEDIA_TYPE: &'static str = "application/scim+json";

/// The kinds of resources that the server keeps.
#[derive(Clone, Copy, Debug, PartialEq, Eq, Structural)]
pub enum Kind {
    User,
    Group,
}

/// The name of a kind of resource.
pub open spec fn kind_name(kind: Kind) -> Seq<char> {
    match kind {
        Kind::User => "User"@,
        Kind::Group => "Group"@,
    }
}

/// Where the resources of a kind are served.
pub open spec fn kind_path(kind: Kind) -> Seq<char> {
    match kind {
        Kind::User => "/Users/"@,
        Kind::Group => "/Groups/"@,
    }
}

/// The schema of a kind of resource.
pub open spec fn kind_schema(kind: Kind) -> SchemaModel {
    match kind {
        Kind::User => user::user_schema_model(),
        Kind::Group => group::group_schema_model(),
    }
}

impl Kind {
    /// The name of the kind.
    pub fn name(self) -> (s: &'static str)
        ensures
            s@ == kind_name(self),
    {
        match self {
            Kind::User => "User",
            Kind::Group => "Group",
        }
    }

    /// Where a resource of the kind is served.
    pub fn location(self, id: &str) -> (s: String)
        ensures
            s@ == kind_path(self) + id@,
    {
        match self {
            Kind::User => joined("/Users/", id),
            Kind::Group => joined("/Groups/", id),
        }
    }

    fn schema(self) -> (r: SchemaResource)
        ensures
            r@ == kind_schema(self),
    {
        match self {
            Kind::User => user_schema(),
            Kind::Group => group_schema(),
        }
    }
}

// ---- Authentication ----

/// Whether an `Authorization` header carries the server's bearer token.
pub fn is_authorized(header: Option<&str>, bearer_token: &str) -> (r: bool)
    ensures
        r == (optional_str(header) == Some("Bearer "@ + bearer_token@)),
{
    match header {
        Some(h) => same_text(h, &joined("Bearer ", bearer_token)),
        None => false,
    }
}

// ---- The collections ----

/// The resources of a kind, by their identifiers.
pub open spec fn collection(s: Store, kind: Kind) -> Seq<(Seq<char>, Json)> {
    match kind {
        Kind::User => s.users@,
        Kind::Group => s.groups@,
    }
}

/// Whether two stores differ at most in the resources of a kind.
pub open spec fn differs_only_in(a: Store, b: Store, kind: Kind) -> bool {
    &&& store::captured_views(a.captured@) == store::captured_views(b.captured@)
    &&& match kind {
        Kind::User => a.groups@ == b.groups@,
        Kind::Group => a.users@ == b.users@,
    }
}

/// A JSON number for a count.
pub open spec fn count(n: nat) -> Json {
    Json::Number(Number::PosInt(n as u64))
}

/// The `ListResponse` that holds every resource of a collection.
pub open spec fn list_document(resources: Seq<(Seq<char>, Json)>) -> Json {
    let n = count(resources.len());
    let values = Seq::new(resources.len(), |i: int| resources[i].1);
    let schemas = Json::Array(seq![Json::String(LIST_RESPONSE_SCHEMA_URI@)]);
    let a = json::put(Seq::empty(), "schemas"@, schemas);
    let b = json::put(a, "totalResults"@, n);
    let c = json::put(b, "startIndex"@, count(1));
    let d = json::put(c, "itemsPerPage"@, n);
    Json::Object(json::put(d, "Resources"@, Json::Array(values)))
}

/// A text as JSON, null where there is none.
pub open spec fn text_or_null(s: Option<Seq<char>>) -> Json {
    match s {
        Some(t) => Json::String(t),
        None => Json::Null,
    }
}

/// A logged request as a document.
pub open spec fn captured_document(c: CapturedModel) -> Json {
    let a = json::put(Seq::empty(), "resourceType"@, Json::String(c.resource_type));
    let b = json::put(a, "method"@, Json::String(c.method));
    let d = json::put(b, "id"@, text_or_null(c.id));
    let e = json::put(d, "contentType"@, text_or_null(c.content_type));
    Json::Object(json::put(e, "body"@, c.body))
}

/// The logged requests, or those on one kind of resource, in the order in which they came.
pub open spec fn captured_documents(
    captured: Seq<CapturedModel>,
    resource: Option<Seq<char>>,
) -> Seq<Json>
    decreases captured.len(),
{
    if captured.len() == 0 {
        Seq::empty()
    } else {
        let front = captured_documents(captured.drop_last(), resource);
        let wanted = match resource {
            Some(name) => text::same_ignoring_case(captured.last().resource_type, name),
            None => true,
        };
        if wanted {
            front.push(captured_document(captured.last()))
        } else {
            front
        }
    }
}

fn text_value(s: &Option<String>) -> (r: Value)
    ensures
        r@ == text_or_null(text::optional_text(*s)),
{
    match s {
        Some(t) => Value::String(t.clone()),
        None => Value::Null,
    }
}

fn show_captured(c: &CapturedRequest) -> (r: Value)
    ensures
        r@ == captured_document(c@),
{
    let mut members = Members::new();
    members.insert("resourceType".to_owned(), Value::text(c.resource_type));
    members.insert("method".to_owned(), Value::text(c.method));
    members.insert("id".to_owned(), text_value(&c.id));
    members.insert("contentType".to_owned(), text_value(&c.content_type));
    members.insert("body".to_owned(), c.body.clone());
    Value::Object(members)
}

fn show_list(resources: &Members) -> (r: Value)
    ensures
        r@ == list_document(resources@),
{
    let mut values: Vec<Value> = Vec::new();
    let mut i: usize = 0;
    assert(json::views(values@) =~= Seq::empty());
    while i < resources.len()
        invariant
            i <= resources@.len(),
            json::views(values@) == Seq::new(i as nat, |j: int| resources@[j].1),
        decreases resources@.len() - i,
    {
        let value = resources.value_at(i).clone();
        proof {
            json::lemma_views_push(values@, value);
        }
        values.push(value);
        assert(json::views(values@) =~= Seq::new((i + 1) as nat, |j: int| resources@[j].1));
        i += 1;
    }
    let n: u64 = resources.len() as u64;
    let schemas = vec![Value::text(LIST_RESPONSE_SCHEMA_URI)];
    assert(json::views(schemas@) =~= seq![Json::String(LIST_RESPONSE_SCHEMA_URI@)]);
    let mut members = Members::new();
    members.insert("schemas".to_owned(), Value::Array(schemas));
    members.insert("totalResults".to_owned(), Value::Number(Number::PosInt(n)));
    members.insert("startIndex".to_owned(), Value::Number(Number::PosInt(1)));
    members.insert("itemsPerPage".to_owned(), Value::Number(Number::PosInt(n)));
    members.insert("Resources".to_owned(), Value::Array(values));
    Value::Object(members)
}

impl Store {
    fn resources(&self, kind: Kind) -> (r: &Members)
        ensures
            r@ == collection(*self, kind),
    {
        match kind {
            Kind::User => &self.users,
            Kind::Group => &self.groups,
        }
    }

    /// The resource with an identifier.
    pub fn find(&self, kind: Kind, id: &str) -> (r: Result<&Value, ApiError>)
        ensures
            match r {
                Ok(v) => json::lookup(collection(*self, kind), id@) == Some(v@),
                Err(e) => json::lookup(collection(*self, kind), id@) is None && e@
                    == ApiErrorModel::NotFound(id@),
            },
    {
        match self.resources(kind).get(id) {
            Some(v) => Ok(v),
            None => Err(ApiError::NotFound(id.to_owned())),
        }
    }

    /// Keeps a resource under an identifier.
    pub fn insert(&mut self, kind: Kind, id: &str, value: Value)
        ensures
            collection(*final(self), kind) == json::put(collection(*old(self), kind), id@, value@),
            differs_only_in(*final(self), *old(self), kind),
    {
        match kind {
            Kind::User => self.users.insert(id.to_owned(), value),
            Kind::Group => self.groups.insert(id.to_owned(), value),
        }
    }

    /// Keeps a resource under an identifier that there already is. One that was deleted in the
    /// meantime is not brought back.
    pub fn update_existing(&mut self, kind: Kind, id: &str, value: Value) -> (r: Result<
        (),
        ApiError,
    >)
        ensures
            differs_only_in(*final(self), *old(self), kind),
            match r {
                Ok(_) => json::lookup(collection(*old(self), kind), id@) is Some && collection(
                    *final(self),
                    kind,
                ) == json::put(collection(*old(self), kind), id@, value@),
                Err(e) => json::lookup(collection(*old(self), kind), id@) is None && collection(
                    *final(self),
                    kind,
                ) == collection(*old(self), kind) && e@ == ApiErrorModel::NotFound(id@),
            },
    {
        if !self.resources(kind).contains_key(id) {
            return Err(ApiError::NotFound(id.to_owned()));
        }
        self.insert(kind, id, value);
        Ok(())
    }

    /// Deletes the resource with an identifier.
    pub fn delete(&mut self, kind: Kind, id: &str) -> (r: Result<(), ApiError>)
        ensures
            differs_only_in(*final(self), *old(self), kind),
            collection(*final(self), kind) == json::without(collection(*old(self), kind), id@),
            json::lookup(collection(*final(self), kind), id@) is None,
            match r {
                Ok(_) => json::lookup(collection(*old(self), kind), id@) is Some,
                Err(e) => json::lookup(collection(*old(self), kind), id@) is None && e@
                    == ApiErrorModel::NotFound(id@),
            },
    {
        let removed = match kind {
            Kind::User => self.users.remove(id),
            Kind::Group => self.groups.remove(id),
        };
        match removed {
            Some(_) => Ok(()),
            None => Err(ApiError::NotFound(id.to_owned())),
        }
    }

    /// The `ListResponse` that holds every resource of a kind. Filters over a collection are not
    /// evaluated.
    pub fn list(&self, kind: Kind) -> (r: Value)
        ensures
            r@ == list_document(collection(*self, kind)),
    {
        show_list(self.resources(kind))
    }

    /// The logged requests as documents; with a resource name, in any case of its letters, only
    /// those on that kind of resource.
    pub fn captured_documents(&self, resource: Option<&str>) -> (r: Vec<Value>)
        ensures
            json::views(r@) == captured_documents(
                store::captured_views(self.captured@),
                optional_str(resource),
            ),
    {
        let ghost shown = store::captured_views(self.captured@);
        let mut out: Vec<Value> = Vec::new();
        let mut i: usize = 0;
        assert(json::views(out@) =~= Seq::empty());
        while i < self.captured.len()
            invariant
                i <= self.captured.len(),
                shown == store::captured_views(self.captured@),
                json::views(out@) == captured_documents(
                    shown.take(i as int),
                    optional_str(resource),
                ),
            decreases self.captured.len() - i,
        {
            let c = &self.captured[i];
            proof {
                assert(shown.take(i + 1).drop_last() =~= shown.take(i as int));
                assert(shown.take(i + 1).last() == c@);
            }
            let wanted = match resource {
                Some(name) => equal_ignoring_case(c.resource_type, name),
                None => true,
            };
            if wanted {
                let doc = show_captured(c);
                proof {
                    json::lemma_views_push(out@, doc);
                }
                out.push(doc);
            }
            i += 1;
        }
        assert(shown.take(i as int) =~= shown);
        out
    }
}

/// What was inserted is found again, and nothing else has changed.
pub proof fn law_find_after_insert(
    resources: Seq<(Seq<char>, Json)>,
    id: Seq<char>,
    value: Json,
    other: Seq<char>,
)
    ensures
        json::lookup(json::put(resources, id, value), other) == (if other == id {
            Some(value)
        } else {
            json::lookup(resources, other)
        }),
{
    json::lemma_lookup_put(resources, id, value, other);
}

/// What was deleted is not found any more, and nothing else has changed.
pub proof fn law_find_after_delete(
    resources: Seq<(Seq<char>, Json)>,
    id: Seq<char>,
    other: Seq<char>,
)
    requires
        json::sorted(resources),
    ensures
        json::lookup(json::without(resources, id), id) is None,
        other != id ==> json::lookup(json::without(resources, id), other) == json::lookup(
            resources,
            other,
        ),
{
    json::lemma_without_is_gone(resources, id);
    if other != id {
        json::lemma_lookup_without(resources, id, other);
    }
}

// ---- Identifiers and metadata ----

/// The metadata that the server gives a resource.
pub open spec fn meta_of(
    kind: Kind,
    id: Seq<char>,
    created: Timestamp,
    last_modified: Timestamp,
) -> MetaModel {
    MetaModel {
        resource_type: kind_name(kind),
        created,
        last_modified,
        location: kind_path(kind) + id,
        version: None,
    }
}

fn make_meta(kind: Kind, id: &str, created: Timestamp, last_modified: Timestamp) -> (r: Meta)
    ensures
        r@ == meta_of(kind, id@, created, last_modified),
{
    Meta {
        resource_type: kind.name().to_owned(),
        created,
        last_modified,
        location: kind.location(id),
        version: None,
    }
}

/// The schemas of a resource: those that were sent, or the one of its kind.
pub open spec fn schemas_or(sent: Seq<Seq<char>>, default_uri: Seq<char>) -> Seq<Seq<char>> {
    if sent.len() == 0 {
        seq![default_uri]
    } else {
        sent
    }
}

/// The view of an optional identifier.
pub open spec fn id_view(id: Option<ResourceId>) -> Option<Seq<char>> {
    match id {
        Some(x) => Some(x@),
        None => None,
    }
}

/// The view of optional metadata.
pub open spec fn meta_view(meta: Option<Meta>) -> Option<MetaModel> {
    match meta {
        Some(m) => Some(m@),
        None => None,
    }
}

/// Whether `after` is `before` with the identifier and the metadata that the server gave it,
/// whatever the client sent for them, and with its schema where none was sent.
pub open spec fn is_assigned_user(
    before: User,
    after: User,
    id: Seq<char>,
    created: Timestamp,
    last_modified: Timestamp,
) -> bool {
    &&& id_view(after.id) == Some(id)
    &&& meta_view(after.meta) == Some(meta_of(Kind::User, id, created, last_modified))
    &&& text::texts(after.schemas@) == schemas_or(text::texts(before.schemas@), USER_SCHEMA_URI@)
    &&& after.external_id == before.external_id
    &&& after.user_name == before.user_name
    &&& after.name == before.name
    &&& after.display_name == before.display_name
    &&& after.nick_name == before.nick_name
    &&& after.profile_url == before.profile_url
    &&& after.title == before.title
    &&& after.user_type == before.user_type
    &&& after.preferred_language == before.preferred_language
    &&& after.locale == before.locale
    &&& after.timezone == before.timezone
    &&& after.active == before.active
    &&& after.password == before.password
    &&& after.emails == before.emails
    &&& after.phone_numbers == before.phone_numbers
    &&& after.ims == before.ims
    &&& after.photos == before.photos
    &&& after.addresses == before.addresses
    &&& after.groups == before.groups
    &&& after.entitlements == before.entitlements
    &&& after.roles == before.roles
    &&& after.x509_certificates == before.x509_certificates
    &&& after.enterprise == before.enterprise
}

/// Whether `after` is `before` with the identifier and the metadata that the server gave it, and
/// with its schema where none was sent.
pub open spec fn is_assigned_group(
    before: Group,
    after: Group,
    id: Seq<char>,
    created: Timestamp,
    last_modified: Timestamp,
) -> bool {
    &&& id_view(after.id) == Some(id)
    &&& meta_view(after.meta) == Some(meta_of(Kind::Group, id, created, last_modified))
    &&& text::texts(after.schemas@) == schemas_or(text::texts(before.schemas@), GROUP_SCHEMA_URI@)
    &&& after.external_id == before.external_id
    &&& after.display_name == before.display_name
    &&& after.members == before.members
}

fn default_schemas(sent: Vec<String>, default_uri: &str) -> (r: Vec<String>)
    ensures
        text::texts(r@) == schemas_or(text::texts(sent@), default_uri@),
{
    if sent.len() == 0 {
        let r = vec![default_uri.to_owned()];
        assert(text::texts(r@) =~= seq![default_uri@]);
        r
    } else {
        sent
    }
}

/// Gives a user its identifier and metadata. What the client sent for them never counts.
pub fn assign_user(user: User, id: &str, created: Timestamp, last_modified: Timestamp) -> (r: User)
    ensures
        is_assigned_user(user, r, id@, created, last_modified),
{
    let mut r = user;
    let mut sent: Vec<String> = Vec::new();
    std::mem::swap(&mut sent, &mut r.schemas);
    r.schemas = default_schemas(sent, USER_SCHEMA_URI);
    r.id = Some(ResourceId::new(id));
    r.meta = Some(make_meta(Kind::User, id, created, last_modified));
    r
}

/// Gives a group its identifier and metadata. What the client sent for them never counts.
pub fn assign_group(group: Group, id: &str, created: Timestamp, last_modified: Timestamp) -> (r:
    Group)
    ensures
        is_assigned_group(group, r, id@, created, last_modified),
{
    let mut r = group;
    let mut sent: Vec<String> = Vec::new();
    std::mem::swap(&mut sent, &mut r.schemas);
    r.schemas = default_schemas(sent, GROUP_SCHEMA_URI);
    r.id = Some(ResourceId::new(id));
    r.meta = Some(make_meta(Kind::Group, id, created, last_modified));
    r
}

/// A new user under a fresh identifier, created now.
pub fn admit_user(user: User) -> (r: (User, String))
    ensures
        clock::is_uuid_text(r.1@),
        exists|created: Timestamp, last_modified: Timestamp| #[trigger]
            is_assigned_user(user, r.0, r.1@, created, last_modified) && clock::is_clock_time(created)
                && clock::is_clock_time(last_modified),
{
    let id = fresh_id();
    let created = now();
    let last_modified = now();
    let ghost sent = user;
    let assigned = assign_user(user, id.as_str(), created, last_modified);
    let r = (assigned, id);
    assert(is_assigned_user(sent, r.0, r.1@, created, last_modified));
    r
}

/// A new group under a fresh identifier, created now.
pub fn admit_group(group: Group) -> (r: (Group, String))
    ensures
        clock::is_uuid_text(r.1@),
        exists|created: Timestamp, last_modified: Timestamp| #[trigger]
            is_assigned_group(group, r.0, r.1@, created, last_modified) && clock::is_clock_time(created)
                && clock::is_clock_time(last_modified),
{
    let id = fresh_id();
    let created = now();
    let last_modified = now();
    let ghost sent = group;
    let assigned = assign_group(group, id.as_str(), created, last_modified);
    let r = (assigned, id);
    assert(is_assigned_group(sent, r.0, r.1@, created, last_modified));
    r
}

/// When a resource was created, by the `created` of its metadata.
pub open spec fn created_of(resource: Json) -> Option<Timestamp> {
    match resource.get("meta"@) {
        Some(meta) => match meta.get("created"@) {
            Some(Json::String(s)) => match clock::instant_of(s) {
                Some((seconds, nanos)) => Some(Timestamp { seconds, nanos }),
                None => None,
            },
            _ => None,
        },
        None => None,
    }
}

fn existing_created(resource: &Value) -> (r: Option<Timestamp>)
    ensures
        r == created_of(resource@),
{
    match resource.get("meta") {
        Some(meta) => match meta.get("created") {
            Some(Value::String(s)) => match parse_instant(s.as_str()) {
                Some((seconds, nanos)) => Some(Timestamp { seconds, nanos }),
                None => None,
            },
            _ => None,
        },
        None => None,
    }
}

/// The user that takes the place of an existing one. It keeps the identifier and, where it can be
/// read, the time of creation.
pub fn replace_user(existing: &Value, user: User, id: &str) -> (r: User)
    ensures
        exists|created: Timestamp, last_modified: Timestamp| #[trigger]
            is_assigned_user(user, r, id@, created, last_modified) && clock::is_clock_time(
                last_modified,
            ) && (match created_of(existing@) {
                Some(t) => created == t,
                None => clock::is_clock_time(created),
            }),
{
    let created = match existing_created(existing) {
        Some(t) => t,
        None => now(),
    };
    let last_modified = now();
    assign_user(user, id, created, last_modified)
}

// ---- PATCH ----

/// Whether the metadata of a resource, where there is any, is an object or null.
pub open spec fn has_open_meta(resource: Json) -> bool {
    match resource.get("meta"@) {
        None => true,
        Some(Json::Null) => true,
        Some(Json::Object(_)) => true,
        _ => false,
    }
}

/// A resource with its time of modification set, where it has metadata.
pub open spec fn stamped(resource: Json, stamp: Seq<char>) -> Json {
    match resource {
        Json::Object(root) => match json::lookup(root, "meta"@) {
            None => resource,
            Some(meta) => {
                let members = match meta {
                    Json::Object(members) => members,
                    _ => Seq::empty(),
                };
                Json::Object(
                    json::put(
                        root,
                        "meta"@,
                        Json::Object(json::put(members, "lastModified"@, Json::String(stamp))),
                    ),
                )
            },
        },
        _ => resource,
    }
}

/// A resource after a PATCH request with the given body, or why the request was refused.
pub open spec fn patched_document(
    existing: Json,
    body: Json,
    schema: SchemaModel,
    stamp: Seq<char>,
) -> Result<Json, ApiErrorModel> {
    match patch_request::operations_of(body) {
        Err(e) => Err(ApiErrorModel::PatchRequest(e)),
        Ok(operations) => match patch::patched(existing, operations, Some(schema)) {
            Err(e) => Err(ApiErrorModel::Patch(e)),
            Ok(after) => Ok(stamped(after, stamp)),
        },
    }
}

/// Whether the metadata of a resource, where there is any, is an object or null.
pub fn meta_is_open(resource: &Value) -> (r: bool)
    ensures
        r == has_open_meta(resource@),
{
    match resource.get("meta") {
        None => true,
        Some(Value::Null) => true,
        Some(Value::Object(_)) => true,
        _ => false,
    }
}

fn set_stamp(resource: Value, stamp: &str) -> (r: Value)
    requires
        has_open_meta(resource@),
    ensures
        r@ == stamped(resource@, stamp@),
{
    match resource {
        Value::Object(root) => {
            let mut root = root;
            let mut members = match root.get("meta") {
                None => {
                    return Value::Object(root);
                },
                Some(Value::Object(members)) => members.clone(),
                Some(_) => Members::new(),
            };
            members.insert("lastModified".to_owned(), Value::text(stamp));
            root.insert("meta".to_owned(), Value::Object(members));
            Value::Object(root)
        },
        other => other,
    }
}

/// Applies the body of a PATCH request to a resource of a kind, modified at the time that `stamp`
/// tells.
pub fn patch_document(existing: &Value, body: &Value, kind: Kind, stamp: &str) -> (r: Result<
    Value,
    ApiError,
>)
    requires
        has_open_meta(existing@),
    ensures
        (match r {
            Ok(v) => Ok(v@),
            Err(e) => Err(e@),
        }) == patched_document(existing@, body@, kind_schema(kind), stamp@),
{
    let operations = match parse_patch_operations(body) {
        Ok(operations) => operations,
        Err(e) => {
            return Err(ApiError::from(e));
        },
    };
    match apply_patch_with_schema(existing, operations.as_slice(), &kind.schema()) {
        Ok(after) => {
            proof {
                patch_laws::law_protected_attributes_never_change(
                    existing@,
                    patch::operation_views(operations@),
                    Some(kind_schema(kind)),
                    "meta"@,
                );
            }
            Ok(set_stamp(after, stamp))
        },
        Err(e) => Err(ApiError::from(e)),
    }
}

/// Whether a text is how an instant is written.
pub open spec fn tells(stamp: Seq<char>, t: Timestamp) -> bool {
    clock::instant_text(t.seconds, t.nanos) == Some(stamp)
}

/// Applies the body of a PATCH request to a resource of a kind now.
pub fn patch_resource(existing: &Value, body: &Value, kind: Kind) -> (r: Result<Value, ApiError>)
    requires
        has_open_meta(existing@),
    ensures
        exists|t: Timestamp, stamp: Seq<char>| #[trigger]
            tells(stamp, t) && clock::is_clock_time(t) && (match r {
                Ok(v) => Ok(v@),
                Err(e) => Err(e@),
            }) == patched_document(existing@, body@, kind_schema(kind), stamp),
{
    let t = now();
    let stamp = write_instant(t.seconds, t.nanos).unwrap();
    assert(tells(stamp@, t));
    patch_document(existing, body, kind, stamp.as_str())
}

/// The answer where a patched resource is no longer one of its kind.
pub fn no_longer_typed(kind: Kind, reason: &str) -> (e: ApiError)
    ensures
        e@ == ApiErrorModel::InvalidBody(
            "patched resource no longer deserializes as a typed "@ + kind_name(kind) + ": "@
                + reason@,
        ),
{
    let start = joined("patched resource no longer deserializes as a typed ", kind.name());
    ApiError::InvalidBody(joined(&joined(&start, ": "), reason))
}

/// Through PATCH a resource keeps its identifier and its schemas, and of its metadata all but the
/// time of modification.
pub proof fn law_patched_document_keeps_identity(
    existing: Json,
    body: Json,
    schema: SchemaModel,
    stamp: Seq<char>,
)
    ensures
        patched_document(existing, body, schema, stamp) matches Ok(after) ==> {
            &&& after.get("id"@) == existing.get("id"@)
            &&& after.get("schemas"@) == existing.get("schemas"@)
            &&& existing.get("meta"@) matches Some(Json::Object(members)) ==> {
                &&& after.get("meta"@) matches Some(meta)
                &&& meta.get("lastModified"@) == Some(Json::String(stamp))
                &&& forall|name: Seq<char>|
                    name != "lastModified"@ ==> #[trigger] meta.get(name) == json::lookup(
                        members,
                        name,
                    )
            }
        },
{
    if let Ok(operations) = patch_request::operations_of(body) {
        patch_laws::law_protected_attributes_never_change(
            existing,
            operations,
            Some(schema),
            "id"@,
        );
        patch_laws::law_protected_attributes_never_change(
            existing,
            operations,
            Some(schema),
            "schemas"@,
        );
        patch_laws::law_protected_attributes_never_change(
            existing,
            operations,
            Some(schema),
            "meta"@,
        );
        reveal_strlit("id");
        reveal_strlit("schemas");
        reveal_strlit("meta");
        assert("id"@.len() != "meta"@.len());
        assert("schemas"@.len() != "meta"@.len());
        broadcast use json::lemma_lookup_put;

    }
}

} // verus!
