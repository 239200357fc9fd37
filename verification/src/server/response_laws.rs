//! What requests to the server are read as and what they are answered with.

use crate::common::{MetaModel, Timestamp};
use crate::discovery::SchemaModel;
use crate::error;
use crate::error::ScimType;
use crate::filter;
use crate::group::Group;
use crate::json;
use crate::json::{Json, Number};
use crate::patch;
use crate::patch::{OperationModel, PatchErrorModel, PatchOp};
use crate::server::clock;
use crate::server::error as answers;
use crate::server::error::ApiErrorModel;
use crate::server::patch_request;
use crate::server::patch_request::RequestErrorModel;
use crate::server::resources;
use crate::server::store::CapturedModel;
use crate::text;
use crate::user::User;
use vstd::prelude::*;

verus! {

proof fn lemma_op_names()
    ensures
        "add"@ =~= seq!['a', 'd', 'd'],
        "remove"@ =~= seq!['r', 'e', 'm', 'o', 'v', 'e'],
        "replace"@ =~= seq!['r', 'e', 'p', 'l', 'a', 'c', 'e'],
{
    reveal_strlit("add");
    reveal_strlit("remove");
    reveal_strlit("replace");
}

/// An entry of a PATCH body is read by its members: `op` in any case of its letters, `path` where it
/// is a text, and `value` as it is.
pub proof fn law_operations_are_read_from_their_members(raw: Json, name: Seq<char>)
    requires
        raw.get("op"@) == Some(Json::String(name)),
    ensures
        ({
            let lower = text::ascii_lower(name);
            let read = patch_request::operation_of(raw);
            &&& lower == seq!['a', 'd', 'd'] ==> read is Ok && read->Ok_0.op == PatchOp::Add
            &&& lower == seq!['r', 'e', 'm', 'o', 'v', 'e'] ==> read is Ok && read->Ok_0.op
                == PatchOp::Remove
            &&& lower == seq!['r', 'e', 'p', 'l', 'a', 'c', 'e'] ==> read is Ok && read->Ok_0.op
                == PatchOp::Replace
            &&& lower != seq!['a', 'd', 'd'] && lower != seq!['r', 'e', 'm', 'o', 'v', 'e'] && lower
                != seq!['r', 'e', 'p', 'l', 'a', 'c', 'e'] ==> read == Err::<OperationModel, _>(
                RequestErrorModel::UnknownOp(lower),
            )
            &&& read matches Ok(op) ==> op.value == raw.get("value"@)
            &&& read matches Ok(op) ==> forall|s: Seq<char>|
                (#[trigger] raw.get("path"@) == Some(Json::String(s))) <==> op.path == Some(s)
        }),
{
    lemma_op_names();
    assert(seq!['a', 'd', 'd'].len() == 3);
    assert(seq!['r', 'e', 'm', 'o', 'v', 'e'].len() == 6);
    assert(seq!['r', 'e', 'p', 'l', 'a', 'c', 'e'].len() == 7);
}

/// An entry whose `op` is missing or no text, and a body without `Operations` or with something else
/// than a list there, are refused as such; of several bad entries the first decides.
pub proof fn law_bad_bodies_are_refused(body: Json, raw: Json, entries: Seq<Json>, k: int)
    ensures
        raw.get("op"@) is None || !(raw.get("op"@)->0 is String) ==> patch_request::operation_of(raw)
            == Err::<OperationModel, _>(RequestErrorModel::MissingOp),
        body.get("Operations"@) is None ==> patch_request::operations_of(body) == Err::<
            Seq<OperationModel>,
            _,
        >(RequestErrorModel::MissingOperations),
        body.get("Operations"@) is Some && !(body.get("Operations"@)->0 is Array)
            ==> patch_request::operations_of(body) == Err::<Seq<OperationModel>, _>(
            RequestErrorModel::OperationsNotAnArray,
        ),
        body.get("Operations"@) == Some(Json::Array(entries)) && 0 <= k < entries.len()
            && patch_request::operation_of(entries[k]) is Err && (forall|i: int|
            0 <= i < k ==> patch_request::operation_of(#[trigger] entries[i]) is Ok)
            ==> patch_request::operations_of(body) == Err::<Seq<OperationModel>, _>(
            patch_request::operation_of(entries[k])->Err_0,
        ),
        body.get("Operations"@) == Some(Json::Array(entries)) && (forall|i: int|
            0 <= i < entries.len() ==> patch_request::operation_of(#[trigger] entries[i]) is Ok)
            ==> patch_request::operations_of(body) is Ok,
{
    if 0 <= k < entries.len() && patch_request::operation_of(entries[k]) is Err && (forall|i: int|
        0 <= i < k ==> patch_request::operation_of(#[trigger] entries[i]) is Ok) {
        lemma_first_bad(entries, k);
    }
    if forall|i: int|
        0 <= i < entries.len() ==> patch_request::operation_of(#[trigger] entries[i]) is Ok {
        lemma_all_good(entries);
    }
}

proof fn lemma_all_good(entries: Seq<Json>)
    requires
        forall|i: int|
            0 <= i < entries.len() ==> patch_request::operation_of(#[trigger] entries[i]) is Ok,
    ensures
        patch_request::operations_in(entries) is Ok,
    decreases entries.len(),
{
    if entries.len() > 0 {
        let front = entries.drop_last();
        assert forall|i: int| 0 <= i < front.len() implies patch_request::operation_of(
            #[trigger] front[i],
        ) is Ok by {
            assert(front[i] == entries[i]);
        }
        lemma_all_good(front);
        assert(entries.last() == entries[entries.len() - 1]);
    }
}

proof fn lemma_first_bad(entries: Seq<Json>, k: int)
    requires
        0 <= k < entries.len(),
        patch_request::operation_of(entries[k]) is Err,
        forall|i: int| 0 <= i < k ==> patch_request::operation_of(#[trigger] entries[i]) is Ok,
    ensures
        patch_request::operations_in(entries) == Err::<Seq<OperationModel>, _>(
            patch_request::operation_of(entries[k])->Err_0,
        ),
    decreases entries.len(),
{
    let front = entries.drop_last();
    assert forall|i: int| 0 <= i < front.len() implies #[trigger] front[i] == entries[i] by {}
    if k < entries.len() - 1 {
        lemma_first_bad(front, k);
    } else {
        lemma_all_good(front);
    }
}

/// What is not found is answered with 404, a request without the token with 401, anything else that
/// fails with 400; what a client did wrong has a keyword.
pub proof fn law_failures_have_their_status(
    e: ApiErrorModel,
    id: Seq<char>,
    p: PatchErrorModel,
    r: RequestErrorModel,
    detail: Seq<char>,
)
    ensures
        answers::status_of(ApiErrorModel::NotFound(id)) == 404,
        answers::status_of(ApiErrorModel::Unauthorized) == 401,
        answers::status_of(e) == 404 <==> e is NotFound,
        answers::status_of(e) == 401 <==> e is Unauthorized,
        answers::status_of(e) == 400 <==> answers::keyword_of(e) is Some,
        answers::status_of(e) == 400 || answers::status_of(e) == 401 || answers::status_of(e) == 404,
        answers::keyword_of(ApiErrorModel::InvalidBody(detail)) == Some(ScimType::InvalidValue),
        answers::detail_of(ApiErrorModel::InvalidBody(detail)) == detail,
        answers::keyword_of(ApiErrorModel::PatchRequest(r)) == Some(ScimType::InvalidSyntax),
        answers::keyword_of(ApiErrorModel::Patch(p)) == Some(patch::refusal_keyword(p)),
{
}

/// The keyword of a refused PATCH tells what was wrong: the path, its target, what the target lets
/// be done, or the schema.
pub proof fn law_refusals_have_their_keyword(
    attr: Seq<char>,
    mutability: Seq<char>,
    e: filter::ErrorModel,
)
    ensures
        error::keyword(patch::refusal_keyword(PatchErrorModel::NoTarget)) == "noTarget"@,
        error::keyword(patch::refusal_keyword(PatchErrorModel::NoMatchingValue)) == "noTarget"@,
        error::keyword(patch::refusal_keyword(PatchErrorModel::Protected(attr))) == "mutability"@,
        error::keyword(patch::refusal_keyword(PatchErrorModel::ImmutableOrReadOnly(attr)))
            == "mutability"@,
        error::keyword(patch::refusal_keyword(PatchErrorModel::InvalidPath(e))) == "invalidPath"@,
        error::keyword(patch::refusal_keyword(PatchErrorModel::AmbiguousPath(attr)))
            == "invalidPath"@,
        error::keyword(patch::refusal_keyword(PatchErrorModel::SchemaQualifiedPath(attr)))
            == "invalidPath"@,
        error::keyword(
            patch::refusal_keyword(
                PatchErrorModel::InvalidSchemaMutability { attr_name: attr, mutability },
            ),
        ) == "invalidValue"@,
{
}

/// A list holds every resource of a collection, in its order, and counts them.
pub proof fn law_lists_hold_every_resource(all: Seq<(Seq<char>, Json)>)
    requires
        all.len() <= u64::MAX,
    ensures
        ({
            let doc = resources::list_document(all);
            let n = Json::Number(Number::PosInt(all.len() as u64));
            &&& doc.get("totalResults"@) == Some(n)
            &&& doc.get("itemsPerPage"@) == Some(n)
            &&& doc.get("startIndex"@) == Some(Json::Number(Number::PosInt(1)))
            &&& doc.get("Resources"@) is Some
            &&& doc.get("Resources"@)->0 is Array
            &&& doc.get("Resources"@)->0->Array_0.len() == all.len()
            &&& forall|i: int|
                0 <= i < all.len() ==> #[trigger] doc.get("Resources"@)->0->Array_0[i] == all[i].1
            &&& doc.get("schemas"@) == Some(
                Json::Array(
                    seq![Json::String("urn:ietf:params:scim:api:messages:2.0:ListResponse"@)],
                ),
            )
        }),
{
    broadcast use json::lemma_lookup_put;

    reveal_strlit("schemas");
    reveal_strlit("totalResults");
    reveal_strlit("startIndex");
    reveal_strlit("itemsPerPage");
    reveal_strlit("Resources");
    assert("totalResults"@[0] == 't' && "itemsPerPage"@[0] == 'i');
    assert("schemas"@.len() == 7 && "Resources"@.len() == 9 && "startIndex"@.len() == 10);
}

/// The log is shown request by request: all of it, or the requests on one kind of resource, named in
/// any case of its letters; each as it was noted.
pub proof fn law_the_log_is_shown_in_order(
    a: Seq<CapturedModel>,
    b: Seq<CapturedModel>,
    c: CapturedModel,
    resource: Option<Seq<char>>,
)
    ensures
        resources::captured_documents(a + b, resource) == resources::captured_documents(a, resource)
            + resources::captured_documents(b, resource),
        ({
            let shown = resources::captured_documents(seq![c], resource);
            if resource is None || text::ascii_lower(resource->0) == text::ascii_lower(
                c.resource_type,
            ) {
                &&& shown.len() == 1
                &&& shown[0].get("resourceType"@) == Some(Json::String(c.resource_type))
                &&& shown[0].get("method"@) == Some(Json::String(c.method))
                &&& shown[0].get("id"@) == Some(resources::text_or_null(c.id))
                &&& shown[0].get("contentType"@) == Some(resources::text_or_null(c.content_type))
                &&& shown[0].get("body"@) == Some(c.body)
            } else {
                shown.len() == 0
            }
        }),
{
    lemma_log_splits(a, b, resource);
    broadcast use json::lemma_lookup_put;

    reveal_strlit("resourceType");
    reveal_strlit("method");
    reveal_strlit("id");
    reveal_strlit("contentType");
    reveal_strlit("body");
    assert("resourceType"@.len() == 12 && "method"@.len() == 6 && "id"@.len() == 2);
    assert("contentType"@.len() == 11 && "body"@.len() == 4);
    reveal_with_fuel(resources::captured_documents, 2);
    assert(seq![c].drop_last() =~= Seq::empty());
    assert(seq![c].last() == c);
}

proof fn lemma_log_splits(
    a: Seq<CapturedModel>,
    b: Seq<CapturedModel>,
    resource: Option<Seq<char>>,
)
    ensures
        resources::captured_documents(a + b, resource) == resources::captured_documents(a, resource)
            + resources::captured_documents(b, resource),
    decreases b.len(),
{
    let first = resources::captured_documents(a, resource);
    if b.len() == 0 {
        assert(a + b =~= a);
        assert(first + resources::captured_documents(b, resource) =~= first);
    } else {
        lemma_log_splits(a, b.drop_last(), resource);
        assert((a + b).drop_last() =~= a + b.drop_last());
        assert((a + b).last() == b.last());
        let front = resources::captured_documents(b.drop_last(), resource);
        let doc = resources::captured_document(b.last());
        assert((first + front).push(doc) =~= first + front.push(doc));
    }
}

/// A PATCH answers what is wrong with the body before what is wrong with an operation; an accepted
/// one changes, beside what its operations do, only the time of modification, which is set where
/// there is metadata.
pub proof fn law_patches_are_answered_by_their_operations(
    existing: Json,
    body: Json,
    schema: SchemaModel,
    stamp: Seq<char>,
    name: Seq<char>,
)
    ensures
        ({
            let answer = resources::patched_document(existing, body, schema, stamp);
            match patch_request::operations_of(body) {
                Err(e) => answer == Err::<Json, _>(ApiErrorModel::PatchRequest(e)),
                Ok(operations) => match patch::patched(existing, operations, Some(schema)) {
                    Err(e) => answer == Err::<Json, _>(ApiErrorModel::Patch(e)),
                    Ok(after) => {
                        &&& answer is Ok
                        &&& name != "meta"@ ==> answer->Ok_0.get(name) == after.get(name)
                        &&& after.get("meta"@) is None ==> answer->Ok_0 == after
                        &&& after.get("meta"@) is Some ==> answer->Ok_0.get("meta"@) is Some
                            && answer->Ok_0.get("meta"@)->0.get("lastModified"@) == Some(
                            Json::String(stamp),
                        )
                        &&& after.get("meta"@) == Some(Json::Null) ==> answer->Ok_0.get("meta"@)->0
                            == Json::Object(seq![("lastModified"@, Json::String(stamp))])
                    },
                },
            }
        }),
{
    broadcast use json::lemma_lookup_put;

    reveal_with_fuel(json::put, 2);
    assert(json::put(Seq::empty(), "lastModified"@, Json::String(stamp)) =~= seq![
        ("lastModified"@, Json::String(stamp)),
    ]);
}

/// Identity and metadata of an admitted user are the server's: the identifier and the times that it
/// gave, where the user is served, no version; the schemas are those that were sent, or that of
/// users where none were.
pub proof fn law_assigned_users_have_the_servers_identity(
    before: User,
    after: User,
    id: Seq<char>,
    created: Timestamp,
    last_modified: Timestamp,
)
    requires
        resources::is_assigned_user(before, after, id, created, last_modified),
    ensures
        after.id is Some && after.id->0@ == id,
        after.meta is Some && after.meta->0@ == (MetaModel {
            resource_type: "User"@,
            created,
            last_modified,
            location: "/Users/"@ + id,
            version: None,
        }),
        before.schemas@.len() > 0 ==> text::texts(after.schemas@) == text::texts(before.schemas@),
        before.schemas@.len() == 0 ==> text::texts(after.schemas@) == seq![
            "urn:ietf:params:scim:schemas:core:2.0:User"@,
        ],
        after.user_name == before.user_name,
        after.password == before.password,
        after.active == before.active,
        after.emails == before.emails,
        after.groups == before.groups,
        after.enterprise == before.enterprise,
{
}

/// Identity and metadata of an admitted group are the server's, as those of a user are.
pub proof fn law_assigned_groups_have_the_servers_identity(
    before: Group,
    after: Group,
    id: Seq<char>,
    created: Timestamp,
    last_modified: Timestamp,
)
    requires
        resources::is_assigned_group(before, after, id, created, last_modified),
    ensures
        after.id is Some && after.id->0@ == id,
        after.meta is Some && after.meta->0@ == (MetaModel {
            resource_type: "Group"@,
            created,
            last_modified,
            location: "/Groups/"@ + id,
            version: None,
        }),
        before.schemas@.len() > 0 ==> text::texts(after.schemas@) == text::texts(before.schemas@),
        before.schemas@.len() == 0 ==> text::texts(after.schemas@) == seq![
            "urn:ietf:params:scim:schemas:core:2.0:Group"@,
        ],
        after.display_name == before.display_name,
        after.members == before.members,
        after.external_id == before.external_id,
{
}

/// When a resource was created is what the text in its metadata tells, and unknown without one.
pub proof fn law_creation_is_read_from_metadata(resource: Json, meta: Json, s: Seq<char>)
    ensures
        resource.get("meta"@) == Some(meta) && meta.get("created"@) == Some(Json::String(s)) ==> (
        match clock::instant_of(s) {
            Some((seconds, nanos)) => resources::created_of(resource) == Some(
                Timestamp { seconds, nanos },
            ),
            None => resources::created_of(resource) is None,
        }),
        resource.get("meta"@) is None ==> resources::created_of(resource) is None,
        resource.get("meta"@) == Some(meta) && !(meta.get("created"@) is Some && meta.get(
            "created"@,
        )->0 is String) ==> resources::created_of(resource) is None,
{
}

} // verus!
