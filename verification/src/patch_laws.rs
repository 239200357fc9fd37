//! What holds of every PATCH request.

use crate::common;
use crate::common::Mutability;
use crate::discovery;
use crate::discovery::{AttributeModel, SchemaModel};
use crate::filter;
use crate::filter::{FilterModel, PatchPathModel};
use crate::json;
use crate::json::Json;
use crate::matching;
use crate::mutability;
use crate::patch;
use crate::patch::{OperationModel, PatchErrorModel, PatchOp};
use crate::text;
use vstd::prelude::*;

verus! {

proof fn lemma_removed_frame(
    root: Seq<(Seq<char>, Json)>,
    path: PatchPathModel,
    schema: Option<SchemaModel>,
    name: Seq<char>,
)
    requires
        name != path.attr_path.attr_name,
    ensures
        patch::removed(root, path, schema) matches Ok(after) ==> json::lookup(after, name)
            == json::lookup(root, name),
{
    broadcast use {json::lemma_lookup_put, json::lemma_lookup_without};

}

proof fn lemma_written_frame(
    root: Seq<(Seq<char>, Json)>,
    path: PatchPathModel,
    original: Json,
    value: Json,
    is_replace: bool,
    schema: Option<SchemaModel>,
    name: Seq<char>,
)
    requires
        name != path.attr_path.attr_name,
    ensures
        patch::written(root, path, original, value, is_replace, schema) matches Ok(after)
            ==> json::lookup(after, name) == json::lookup(root, name),
{
    broadcast use {json::lemma_lookup_put, json::lemma_lookup_without};

}

proof fn lemma_merged_frame(
    root: Seq<(Seq<char>, Json)>,
    incoming: Seq<(Seq<char>, Json)>,
    name: Seq<char>,
)
    requires
        forall|i: int| 0 <= i < incoming.len() ==> (#[trigger] incoming[i]).0 != name,
    ensures
        json::lookup(patch::merged(root, incoming), name) == json::lookup(root, name),
    decreases incoming.len(),
{
    broadcast use json::lemma_lookup_put;

    if incoming.len() > 0 {
        assert forall|i: int| 0 <= i < incoming.drop_last().len() implies (
        #[trigger] incoming.drop_last()[i]).0 != name by {
            assert(incoming.drop_last()[i] == incoming[i]);
        }
        lemma_merged_frame(root, incoming.drop_last(), name);
        assert(incoming.last() == incoming[incoming.len() - 1]);
    }
}

/// Where a value without a path is accepted, each of its members is.
pub proof fn lemma_accepted_members(
    incoming: Seq<(Seq<char>, Json)>,
    original: Json,
    op: PatchOp,
    schema: Option<SchemaModel>,
    i: int,
)
    requires
        patch::members_refusal(incoming, original, op, schema) is None,
        0 <= i < incoming.len(),
    ensures
        !patch::protected(incoming[i].0),
        schema matches Some(s) ==> mutability::mutability_refusal(
            s,
            original,
            incoming[i].0,
            None,
            None,
            op,
        ) is None,
        patch::value_refusal(schema, incoming[i].0, original, incoming[i].1) is None,
    decreases incoming.len(),
{
    if i > 0 {
        lemma_accepted_members(incoming.skip(1), original, op, schema, i - 1);
        assert(incoming.skip(1)[i - 1] == incoming[i]);
    }
}

/// Whether an operation can write to the attribute `name`: by its path, or as a member of its
/// value where it has no path.
pub open spec fn addresses(operation: OperationModel, name: Seq<char>) -> bool {
    match operation.path {
        Some(s) => filter::parsed_patch_path(s) matches Ok(path) && path.attr_path.attr_name
            == name,
        None => operation.value matches Some(v) && v.get(name) is Some,
    }
}

/// An operation changes nothing but what it addresses: every other attribute is as before.
pub proof fn law_only_the_target_changes(
    resource: Json,
    original: Json,
    operation: OperationModel,
    schema: Option<SchemaModel>,
    name: Seq<char>,
)
    requires
        !addresses(operation, name),
    ensures
        patch::after_operation(resource, original, operation, schema) matches Ok(after)
            ==> after.get(name) == resource.get(name),
{
    let value = match operation.value {
        Some(v) => v,
        None => Json::Null,
    };
    match operation.path {
        Some(s) => {
            if let Ok(path) = filter::parsed_patch_path(s) {
                if let Json::Object(root) = resource {
                    lemma_removed_frame(root, path, schema, name);
                    lemma_written_frame(
                        root,
                        path,
                        original,
                        value,
                        operation.op == PatchOp::Replace,
                        schema,
                        name,
                    );
                }
            }
        },
        None => {
            if let Json::Object(incoming) = value {
                if let Json::Object(root) = resource {
                    assert forall|i: int| 0 <= i < incoming.len() implies (
                    #[trigger] incoming[i]).0 != name by {
                        if incoming[i].0 == name {
                            lemma_found(incoming, name, i);
                        }
                    }
                    lemma_merged_frame(root, incoming, name);
                }
            }
        },
    }
}

proof fn lemma_found(members: Seq<(Seq<char>, Json)>, name: Seq<char>, i: int)
    requires
        0 <= i < members.len(),
        members[i].0 == name,
    ensures
        json::lookup(members, name) is Some,
    decreases members.len(),
{
    if members[0].0 != name {
        assert(members.skip(1)[i - 1] == members[i]);
        lemma_found(members.skip(1), name, i - 1);
    }
}

proof fn lemma_protected_step(
    resource: Json,
    original: Json,
    operation: OperationModel,
    schema: Option<SchemaModel>,
    name: Seq<char>,
)
    requires
        patch::protected(name),
    ensures
        patch::after_operation(resource, original, operation, schema) matches Ok(after)
            ==> after.get(name) == resource.get(name),
{
    if addresses(operation, name) {
        if operation.path is None {
            if let Some(Json::Object(incoming)) = operation.value {
                if patch::members_refusal(incoming, original, operation.op, schema) is None {
                    let at = json::lemma_lookup_position(incoming, name);
                    lemma_accepted_members(incoming, original, operation.op, schema, at);
                }
            }
        }
    } else {
        law_only_the_target_changes(resource, original, operation, schema, name);
    }
}

proof fn lemma_protected_steps(
    resource: Json,
    original: Json,
    operations: Seq<OperationModel>,
    schema: Option<SchemaModel>,
    name: Seq<char>,
)
    requires
        patch::protected(name),
    ensures
        patch::after_operations(resource, original, operations, schema) matches Ok(after)
            ==> after.get(name) == resource.get(name),
    decreases operations.len(),
{
    if operations.len() > 0 {
        lemma_protected_step(resource, original, operations[0], schema, name);
        if let Ok(next) = patch::after_operation(resource, original, operations[0], schema) {
            lemma_protected_steps(next, original, operations.skip(1), schema, name);
        }
    }
}

/// `id`, `meta` and `schemas`, in any case of their letters, are the same after every PATCH request
/// as before it, with or without a schema.
pub proof fn law_protected_attributes_never_change(
    resource: Json,
    operations: Seq<OperationModel>,
    schema: Option<SchemaModel>,
    name: Seq<char>,
)
    requires
        patch::protected(name),
    ensures
        patch::patched(resource, operations, schema) matches Ok(after) ==> after.get(name)
            == resource.get(name),
{
    lemma_protected_steps(resource, resource, operations, schema, name);
}

/// The mutability that a schema declares for one of its attributes.
pub open spec fn declared(schema: SchemaModel, name: Seq<char>) -> Option<Mutability> {
    match discovery::attribute_of(schema, name, None) {
        Some(def) => common::mutability_of(def.mutability),
        None => None,
    }
}

/// Whether the path of an operation names a sub-attribute of `name` that the schema does not
/// model. Such a path is not held to any mutability.
pub open spec fn names_unmodelled_sub_attribute(
    operation: OperationModel,
    schema: SchemaModel,
    name: Seq<char>,
) -> bool {
    &&& operation.path matches Some(s)
    &&& filter::parsed_patch_path(s) matches Ok(path)
    &&& path.attr_path.attr_name == name
    &&& patch::target_sub_attr(path) matches Some(sub)
    &&& discovery::attribute_of(schema, name, Some(sub)) is None
}

/// Whether the path of an operation names a sub-attribute of `name` that the schema declares
/// immutable. Whether such a sub-attribute already has a value is asked of it alone.
pub open spec fn names_immutable_sub_attribute(
    operation: OperationModel,
    schema: SchemaModel,
    name: Seq<char>,
) -> bool {
    &&& operation.path matches Some(s)
    &&& filter::parsed_patch_path(s) matches Ok(path)
    &&& path.attr_path.attr_name == name
    &&& patch::target_sub_attr(path) matches Some(sub)
    &&& discovery::attribute_of(schema, name, Some(sub)) matches Some(def)
    &&& common::mutability_of(def.mutability) == Some(Mutability::Immutable)
}

proof fn lemma_kept_step(
    resource: Json,
    original: Json,
    operation: OperationModel,
    schema: SchemaModel,
    name: Seq<char>,
)
    requires
        resource.get(name) == original.get(name),
        !names_unmodelled_sub_attribute(operation, schema, name),
        declared(schema, name) == Some(Mutability::ReadOnly) || (declared(schema, name) == Some(
            Mutability::Immutable,
        ) && mutability::present(original.get(name)) && !names_immutable_sub_attribute(
            operation,
            schema,
            name,
        )),
    ensures
        patch::after_operation(resource, original, operation, Some(schema)) matches Ok(after)
            ==> after.get(name) == resource.get(name),
{
    if !addresses(operation, name) {
        law_only_the_target_changes(resource, original, operation, Some(schema), name);
    } else {
        match operation.path {
            None => {
                if let Some(Json::Object(incoming)) = operation.value {
                    if patch::members_refusal(incoming, original, operation.op, Some(schema)) is None {
                        let at = json::lemma_lookup_position(incoming, name);
                        lemma_accepted_members(
                            incoming,
                            original,
                            operation.op,
                            Some(schema),
                            at,
                        );
                    }
                }
            },
            Some(s) => {
                if let Ok(path) = filter::parsed_patch_path(s) {
                    if patch::path_refusal(path, original, operation.op, Some(schema)) is None {
                        lemma_refused_anyway(resource, original, path, operation, schema, name);
                    }
                }
            },
        }
    }
}

/// The one accepted path to a protected attribute, an `add` whose filter matches no entry, fails
/// when it is carried out.
proof fn lemma_refused_anyway(
    resource: Json,
    original: Json,
    path: PatchPathModel,
    operation: OperationModel,
    schema: SchemaModel,
    name: Seq<char>,
)
    requires
        resource.get(name) == original.get(name),
        operation.path matches Some(s) && filter::parsed_patch_path(s)
            == Ok::<PatchPathModel, filter::ErrorModel>(path),
        path.attr_path.attr_name == name,
        !names_unmodelled_sub_attribute(operation, schema, name),
        declared(schema, name) == Some(Mutability::ReadOnly) || (declared(schema, name) == Some(
            Mutability::Immutable,
        ) && mutability::present(original.get(name)) && !names_immutable_sub_attribute(
            operation,
            schema,
            name,
        )),
        patch::path_refusal(path, original, operation.op, Some(schema)) is None,
    ensures
        patch::after_operation(resource, original, operation, Some(schema)) is Err,
{
    assert(operation.op == PatchOp::Add);
    assert(!mutability::has_value(original, name, None, path.value_filter, schema));
    if let Some(f) = path.value_filter {
        if let Some(Json::Array(entries)) = original.get(name) {
            assert(!patch::any_matches(entries, f, name, Some(schema)));
        }
    }
}

proof fn lemma_kept_steps(
    resource: Json,
    original: Json,
    operations: Seq<OperationModel>,
    schema: SchemaModel,
    name: Seq<char>,
)
    requires
        resource.get(name) == original.get(name),
        forall|i: int|
            0 <= i < operations.len() ==> !names_unmodelled_sub_attribute(
                #[trigger] operations[i],
                schema,
                name,
            ),
        declared(schema, name) == Some(Mutability::ReadOnly) || (declared(schema, name) == Some(
            Mutability::Immutable,
        ) && mutability::present(original.get(name)) && forall|i: int|
            0 <= i < operations.len() ==> !names_immutable_sub_attribute(
                #[trigger] operations[i],
                schema,
                name,
            )),
    ensures
        patch::after_operations(resource, original, operations, Some(schema)) matches Ok(after)
            ==> after.get(name) == original.get(name),
    decreases operations.len(),
{
    if operations.len() > 0 {
        lemma_kept_step(resource, original, operations[0], schema, name);
        if let Ok(next) = patch::after_operation(resource, original, operations[0], Some(schema)) {
            let rest = operations.skip(1);
            assert forall|i: int| 0 <= i < rest.len() implies !names_unmodelled_sub_attribute(
                #[trigger] rest[i],
                schema,
                name,
            ) by {
                assert(rest[i] == operations[i + 1]);
            }
            assert forall|i: int|
                0 <= i < rest.len() && declared(schema, name) == Some(
                    Mutability::Immutable,
                ) implies !names_immutable_sub_attribute(#[trigger] rest[i], schema, name) by {
                assert(rest[i] == operations[i + 1]);
            }
            lemma_kept_steps(next, original, rest, schema, name);
        }
    }
}

/// An attribute that the schema declares `readOnly` is the same after every PATCH request as
/// before it, as long as no path names a sub-attribute of it that the schema does not model.
pub proof fn law_read_only_attributes_never_change(
    resource: Json,
    operations: Seq<OperationModel>,
    schema: SchemaModel,
    name: Seq<char>,
)
    requires
        declared(schema, name) == Some(Mutability::ReadOnly),
        forall|i: int|
            0 <= i < operations.len() ==> !names_unmodelled_sub_attribute(
                #[trigger] operations[i],
                schema,
                name,
            ),
    ensures
        patch::patched(resource, operations, Some(schema)) matches Ok(after) ==> after.get(name)
            == resource.get(name),
{
    lemma_kept_steps(resource, resource, operations, schema, name);
}

/// An attribute that the schema declares `immutable` and that has a value keeps it through every
/// PATCH request, even one that removes it and adds it again, as long as no path names a
/// sub-attribute of it that the schema does not model or declares immutable itself.
pub proof fn law_immutable_values_never_change(
    resource: Json,
    operations: Seq<OperationModel>,
    schema: SchemaModel,
    name: Seq<char>,
)
    requires
        declared(schema, name) == Some(Mutability::Immutable),
        mutability::present(resource.get(name)),
        forall|i: int|
            0 <= i < operations.len() ==> !names_unmodelled_sub_attribute(
                #[trigger] operations[i],
                schema,
                name,
            ) && !names_immutable_sub_attribute(operations[i], schema, name),
    ensures
        patch::patched(resource, operations, Some(schema)) matches Ok(after) ==> after.get(name)
            == resource.get(name),
{
    lemma_kept_steps(resource, resource, operations, schema, name);
}

proof fn lemma_no_sub_attribute_breaks(
    attr_name: Seq<char>,
    subs: Seq<AttributeModel>,
    existing: Json,
    members: Seq<(Seq<char>, Json)>,
    j: int,
)
    requires
        mutability::sub_attributes_refusal(attr_name, subs, existing, members) is None,
        0 <= j < subs.len(),
    ensures
        !mutability::breaks_sub_attribute(subs[j], existing, members),
    decreases subs.len(),
{
    if j > 0 {
        lemma_no_sub_attribute_breaks(attr_name, subs.skip(1), existing, members, j - 1);
        assert(subs.skip(1)[j - 1] == subs[j]);
    }
}

/// Where new entries for a multi-valued complex attribute are accepted, every one that replaces an
/// existing entry agrees with it, in every spelling of the name, on each immutable or read-only
/// sub-attribute that has a value there.
pub proof fn law_accepted_entries_keep_protected_values(
    attr_name: Seq<char>,
    def: AttributeModel,
    existing: Seq<Json>,
    new_entries: Seq<Json>,
    i: int,
    j: int,
)
    requires
        mutability::entries_refusal(attr_name, def, existing, new_entries) is None,
        0 <= i < new_entries.len(),
        0 <= j < def.sub_attributes.len(),
    ensures
        new_entries[i] matches Json::Object(members) ==> (mutability::counterpart(
            existing,
            mutability::value_case_exact(def),
            members,
        ) matches Some(old) ==> !mutability::breaks_sub_attribute(
            def.sub_attributes[j],
            old,
            members,
        )),
    decreases new_entries.len(),
{
    if i > 0 {
        law_accepted_entries_keep_protected_values(
            attr_name,
            def,
            existing,
            new_entries.skip(1),
            i - 1,
            j,
        );
        assert(new_entries.skip(1)[i - 1] == new_entries[i]);
    } else if let Json::Object(members) = new_entries[0] {
        if let Some(old) = mutability::counterpart(
            existing,
            mutability::value_case_exact(def),
            members,
        ) {
            lemma_no_sub_attribute_breaks(attr_name, def.sub_attributes, old, members, j);
        }
    }
}

/// A request without operations gives back the resource.
pub proof fn law_empty_request_changes_nothing(resource: Json, schema: Option<SchemaModel>)
    ensures
        patch::patched(resource, Seq::empty(), schema) == Ok::<Json, PatchErrorModel>(resource),
{
}

proof fn lemma_replacement_without_schema(
    entries: Seq<Json>,
    f: FilterModel,
    attr: Seq<char>,
    original: Json,
    value: Json,
)
    ensures
        patch::replacement_refusal(entries, f, attr, original, value, None) is None,
    decreases entries.len(),
{
    if entries.len() > 0 {
        lemma_replacement_without_schema(entries.skip(1), f, attr, original, value);
    }
}

proof fn lemma_members_without_schema(
    incoming: Seq<(Seq<char>, Json)>,
    first: Json,
    second: Json,
    op: PatchOp,
)
    ensures
        patch::members_refusal(incoming, first, op, None) == patch::members_refusal(
            incoming,
            second,
            op,
            None,
        ),
    decreases incoming.len(),
{
    if incoming.len() > 0 {
        lemma_members_without_schema(incoming.skip(1), first, second, op);
    }
}

proof fn lemma_step_without_schema(
    resource: Json,
    first: Json,
    second: Json,
    operation: OperationModel,
)
    ensures
        patch::after_operation(resource, first, operation, None) == patch::after_operation(
            resource,
            second,
            operation,
            None,
        ),
{
    let value = match operation.value {
        Some(v) => v,
        None => Json::Null,
    };
    match operation.path {
        Some(s) => {
            if let Ok(path) = filter::parsed_patch_path(s) {
                if let Json::Object(root) = resource {
                    let attr = path.attr_path.attr_name;
                    if let Some(f) = path.value_filter {
                        if let Some(Json::Array(entries)) = json::lookup(root, attr) {
                            lemma_replacement_without_schema(entries, f, attr, first, value);
                            lemma_replacement_without_schema(entries, f, attr, second, value);
                        }
                    }
                }
            }
        },
        None => {
            if let Json::Object(incoming) = value {
                lemma_members_without_schema(incoming, first, second, operation.op);
            }
        },
    }
}

proof fn lemma_steps_without_schema(
    resource: Json,
    first: Json,
    second: Json,
    operations: Seq<OperationModel>,
)
    ensures
        patch::after_operations(resource, first, operations, None) == patch::after_operations(
            resource,
            second,
            operations,
            None,
        ),
    decreases operations.len(),
{
    if operations.len() > 0 {
        lemma_step_without_schema(resource, first, second, operations[0]);
        if let Ok(next) = patch::after_operation(resource, first, operations[0], None) {
            lemma_steps_without_schema(next, first, second, operations.skip(1));
        }
    }
}

proof fn lemma_steps_append(
    resource: Json,
    original: Json,
    a: Seq<OperationModel>,
    b: Seq<OperationModel>,
    schema: Option<SchemaModel>,
)
    ensures
        patch::after_operations(resource, original, a + b, schema) == (
        match patch::after_operations(resource, original, a, schema) {
            Ok(middle) => patch::after_operations(middle, original, b, schema),
            Err(e) => Err(e),
        }),
    decreases a.len(),
{
    if a.len() == 0 {
        assert(a + b =~= b);
    } else {
        assert((a + b).skip(1) =~= a.skip(1) + b);
        if let Ok(next) = patch::after_operation(resource, original, a[0], schema) {
            lemma_steps_append(next, original, a.skip(1), b, schema);
        }
    }
}

/// Without a schema, a request of two runs of operations is the one request after the other.
pub proof fn law_requests_without_schema_compose(
    resource: Json,
    a: Seq<OperationModel>,
    b: Seq<OperationModel>,
)
    ensures
        patch::patched(resource, a + b, None) == (match patch::patched(resource, a, None) {
            Ok(middle) => patch::patched(middle, b, None),
            Err(e) => Err(e),
        }),
{
    lemma_steps_append(resource, resource, a, b, None);
    if let Ok(middle) = patch::patched(resource, a, None) {
        lemma_steps_without_schema(middle, resource, middle, b);
    }
}

/// A request is refused exactly where one of its operations is, after those before it were
/// applied; the first such refusal is the request's.
pub proof fn law_request_fails_with_its_first_refusal(
    resource: Json,
    before: Seq<OperationModel>,
    operation: OperationModel,
    rest: Seq<OperationModel>,
    schema: Option<SchemaModel>,
)
    requires
        patch::patched(resource, before, schema) is Ok,
    ensures
        patch::after_operation(
            patch::patched(resource, before, schema)->Ok_0,
            resource,
            operation,
            schema,
        ) matches Err(e) ==> patch::patched(resource, before + (seq![operation] + rest), schema)
            == Err::<Json, PatchErrorModel>(e),
{
    lemma_steps_append(resource, resource, before, seq![operation] + rest, schema);
    assert((seq![operation] + rest)[0] == operation);
}

proof fn lemma_without_put(members: Seq<(Seq<char>, Json)>, name: Seq<char>, value: Json)
    requires
        json::lookup(members, name) is None,
    ensures
        json::without(json::put(members, name, value), name) == members,
    decreases members.len(),
{
    reveal_with_fuel(json::without, 2);
    let after = json::put(members, name, value);
    if members.len() == 0 {
        assert(after.skip(1) =~= members);
    } else if text::precedes(name, members[0].0) {
        assert(after.skip(1) =~= members);
    } else {
        lemma_without_put(members.skip(1), name, value);
        assert(after.skip(1) =~= json::put(members.skip(1), name, value));
        assert(after[0] == members[0]);
        assert(json::without(after, name) =~= members);
    }
}

/// Removing an attribute undoes adding it: where the resource has no such attribute, an `add`
/// followed by a `remove` of the same plain path gives the resource back.
pub proof fn law_remove_undoes_add(root: Seq<(Seq<char>, Json)>, s: Seq<char>, value: Json)
    requires
        filter::parsed_patch_path(s) matches Ok(path) && path.attr_path.schema_uri is None
            && path.attr_path.sub_attr is None && path.value_filter is None && !patch::protected(
            path.attr_path.attr_name,
        ) && json::lookup(root, path.attr_path.attr_name) is None,
    ensures
        patch::patched(
            Json::Object(root),
            seq![
                OperationModel { op: PatchOp::Add, path: Some(s), value: Some(value) },
                OperationModel { op: PatchOp::Remove, path: Some(s), value: None },
            ],
            None,
        ) == Ok::<Json, PatchErrorModel>(Json::Object(root)),
{
    let attr = filter::parsed_patch_path(s)->Ok_0.attr_path.attr_name;
    let ops = seq![
        OperationModel { op: PatchOp::Add, path: Some(s), value: Some(value) },
        OperationModel { op: PatchOp::Remove, path: Some(s), value: None },
    ];
    lemma_without_put(root, attr, value);
    reveal_with_fuel(patch::after_operations, 3);
    assert(ops.skip(1)[0] == ops[1]);
    assert(ops.skip(1).skip(1) =~= Seq::empty());
}

} // verus!
