//! What a schema keeps of the entries of a complex attribute that a PATCH request writes as a whole.

use crate::common;
use crate::common::Mutability;
use crate::discovery;
use crate::discovery::{AttributeModel, SchemaModel};
use crate::filter::FilterModel;
use crate::json;
use crate::json::Json;
use crate::matching;
use crate::mutability;
use crate::mutability_laws;
use crate::patch;
use crate::patch::{OperationModel, PatchErrorModel, PatchOp};
use crate::patch_laws;
use crate::schema_laws;
use crate::text;
use crate::write_laws;
use vstd::prelude::*;

verus! {

/// Whether a definition protects values that are there.
pub open spec fn protects(def: AttributeModel) -> bool {
    def.mutability == "readOnly"@ || def.mutability == "immutable"@
}

/// Whether two values of `value` stand for the same entry: texts up to the case of their letters
/// unless `exact`, anything else by its JSON value.
pub open spec fn same_identity(a: Json, b: Json, exact: bool) -> bool {
    match (a, b) {
        (Json::String(x), Json::String(y)) => if exact {
            x == y
        } else {
            text::ascii_lower(x) == text::ascii_lower(y)
        },
        _ => json::same_json(a, b),
    }
}

/// Whether a member is called `name`, in any case of its letters.
pub open spec fn is_called(member: (Seq<char>, Json), name: Seq<char>) -> bool {
    text::ascii_lower(member.0) == text::ascii_lower(name)
}

/// Whether an entry has members called `name`, in any case of its letters, and all of them hold
/// `value`.
pub open spec fn holds(members: Seq<(Seq<char>, Json)>, name: Seq<char>, value: Json) -> bool {
    &&& exists|m: int| 0 <= m < members.len() && is_called(#[trigger] members[m], name)
    &&& forall|m: int|
        0 <= m < members.len() && is_called(#[trigger] members[m], name) ==> json::same_json(
            members[m].1,
            value,
        )
}

/// Whether a new entry keeps what a definition protects of an old one.
pub open spec fn keeps(members: Seq<(Seq<char>, Json)>, old: Json, def: AttributeModel) -> bool {
    protects(def) && mutability_laws::has_value(old.get(def.name)) ==> holds(
        members,
        def.name,
        old.get(def.name)->0,
    )
}

/// Whether a member of a new entry tells that it stands for an old one.
pub open spec fn tells_identity(member: (Seq<char>, Json), old: Json, exact: bool) -> bool {
    is_called(member, "value"@) && old.get("value"@) is Some && same_identity(
        old.get("value"@)->0,
        member.1,
        exact,
    )
}

/// Whether the entries of an attribute are told apart by the exact text of their `value`.
pub open spec fn is_exact(def: AttributeModel) -> bool {
    discovery::named(def.sub_attributes, "value"@) is Some && discovery::named(
        def.sub_attributes,
        "value"@,
    )->0.case_exact
}

/// The entries that a value stands for.
pub open spec fn entries_in(value: Json) -> Seq<Json> {
    match value {
        Json::Array(items) => items,
        _ => seq![value],
    }
}

proof fn lemma_protects(def: AttributeModel, old: Json, members: Seq<(Seq<char>, Json)>)
    ensures
        mutability::breaks_sub_attribute(def, old, members) <==> !keeps(members, old, def),
{
    schema_laws::lemma_mutabilities();
    let m = common::mutability_of(def.mutability);
    assert((m == Some(Mutability::Immutable) || m == Some(Mutability::ReadOnly)) <==> protects(def));
    if mutability_laws::has_value(old.get(def.name)) {
        let value = old.get(def.name)->0;
        assert(mutability::members_agree(members, def.name, value) <==> holds(
            members,
            def.name,
            value,
        )) by {
            assert forall|m: int| 0 <= m < members.len() implies is_called(
                #[trigger] members[m],
                def.name,
            ) == text::same_ignoring_case(members[m].0, def.name) by {}
            if mutability::members_agree(members, def.name, value) {
                let m = choose|m: int|
                    0 <= m < members.len() && text::same_ignoring_case(
                        (#[trigger] members[m]).0,
                        def.name,
                    );
                assert(is_called(members[m], def.name));
            }
            if holds(members, def.name, value) {
                let m = choose|m: int|
                    0 <= m < members.len() && is_called(#[trigger] members[m], def.name);
                assert(text::same_ignoring_case(members[m].0, def.name));
            }
        }
    }
}

proof fn lemma_entry_refusal(attr: Seq<char>, subs: Seq<AttributeModel>, old: Json, members: Seq<(Seq<char>, Json)>)
    ensures
        mutability::sub_attributes_refusal(attr, subs, old, members) is None <==> forall|j: int|
            0 <= j < subs.len() ==> keeps(members, old, #[trigger] subs[j]),
    decreases subs.len(),
{
    if subs.len() > 0 {
        lemma_protects(subs[0], old, members);
        lemma_entry_refusal(attr, subs.skip(1), old, members);
        if mutability::sub_attributes_refusal(attr, subs, old, members) is None {
            assert forall|j: int| 0 <= j < subs.len() implies keeps(
                members,
                old,
                #[trigger] subs[j],
            ) by {
                if j > 0 {
                    assert(subs.skip(1)[j - 1] == subs[j]);
                }
            }
        }
        if forall|j: int| 0 <= j < subs.len() ==> keeps(members, old, #[trigger] subs[j]) {
            assert forall|j: int| 0 <= j < subs.skip(1).len() implies keeps(
                members,
                old,
                #[trigger] subs.skip(1)[j],
            ) by {
                assert(subs.skip(1)[j] == subs[j + 1]);
            }
            assert(keeps(members, old, subs[0]));
        }
    }
}

proof fn lemma_entry_with_key(entries: Seq<Json>, exact: bool, key: Json, e: int)
    ensures
        mutability::entry_with_key(entries, exact, key) matches Some(found) ==> exists|k: int|
            0 <= k < entries.len() && #[trigger] entries[k] == found && found.get("value"@) is Some
                && same_identity(found.get("value"@)->0, key, exact),
        0 <= e < entries.len() && entries[e].get("value"@) is Some && same_identity(
            entries[e].get("value"@)->0,
            key,
            exact,
        ) && (forall|k: int|
            0 <= k < e ==> !((#[trigger] entries[k]).get("value"@) is Some && same_identity(
                entries[k].get("value"@)->0,
                key,
                exact,
            ))) ==> mutability::entry_with_key(entries, exact, key) == Some(entries[e]),
    decreases entries.len(),
{
    if entries.len() > 0 {
        let rest = entries.skip(1);
        lemma_entry_with_key(rest, exact, key, e - 1);
        if let Some(found) = mutability::entry_with_key(entries, exact, key) {
            if !(entries[0].get("value"@) matches Some(k) && mutability::same_key(k, key, exact)) {
                let k = choose|k: int|
                    0 <= k < rest.len() && #[trigger] rest[k] == found && found.get("value"@) is Some
                        && same_identity(found.get("value"@)->0, key, exact);
                assert(entries[k + 1] == found);
            } else {
                assert(entries[0] == found);
            }
        }
        if 0 < e < entries.len() && (forall|k: int|
            0 <= k < e ==> !((#[trigger] entries[k]).get("value"@) is Some && same_identity(
                entries[k].get("value"@)->0,
                key,
                exact,
            ))) {
            assert(!(entries[0].get("value"@) is Some && same_identity(
                entries[0].get("value"@)->0,
                key,
                exact,
            )));
            assert forall|k: int| 0 <= k < e - 1 implies !((#[trigger] rest[k]).get("value"@) is Some
                && same_identity(rest[k].get("value"@)->0, key, exact)) by {
                assert(rest[k] == entries[k + 1]);
            }
            assert(rest[e - 1] == entries[e]);
        }
    }
}

proof fn lemma_counterpart(
    entries: Seq<Json>,
    exact: bool,
    members: Seq<(Seq<char>, Json)>,
    at: int,
    e: int,
)
    ensures
        mutability::counterpart(entries, exact, members) matches Some(found) ==> exists|
            k: int,
            m: int,
        |
            0 <= k < entries.len() && 0 <= m < members.len() && #[trigger] entries[k] == found
                && tells_identity(#[trigger] members[m], found, exact),
        0 <= at < members.len() && 0 <= e < entries.len() && tells_identity(
            members[at],
            entries[e],
            exact,
        ) && (forall|k: int|
            0 <= k < e ==> !tells_identity(members[at], #[trigger] entries[k], exact)) && (forall|
            m: int,
        |
            0 <= m < members.len() && m != at ==> !is_called(#[trigger] members[m], "value"@))
            ==> mutability::counterpart(entries, exact, members) == Some(entries[e]),
    decreases members.len(),
{
    if members.len() > 0 {
        let rest = members.skip(1);
        lemma_counterpart(entries, exact, rest, at - 1, e);
        lemma_entry_with_key(entries, exact, members[0].1, e);
        if let Some(found) = mutability::counterpart(entries, exact, members) {
            if text::same_ignoring_case(members[0].0, "value"@) && mutability::entry_with_key(
                entries,
                exact,
                members[0].1,
            ) is Some {
                let k = choose|k: int|
                    0 <= k < entries.len() && #[trigger] entries[k] == found && found.get(
                        "value"@,
                    ) is Some && same_identity(found.get("value"@)->0, members[0].1, exact);
                assert(tells_identity(members[0], found, exact));
                assert(entries[k] == found);
            } else {
                let (k, m) = choose|k: int, m: int|
                    0 <= k < entries.len() && 0 <= m < rest.len() && #[trigger] entries[k] == found
                        && tells_identity(#[trigger] rest[m], found, exact);
                assert(entries[k] == found && tells_identity(members[m + 1], found, exact));
            }
        }
        if 0 <= at < members.len() && 0 <= e < entries.len() && tells_identity(
            members[at],
            entries[e],
            exact,
        ) && (forall|k: int|
            0 <= k < e ==> !tells_identity(members[at], #[trigger] entries[k], exact)) && (forall|
            m: int,
        |
            0 <= m < members.len() && m != at ==> !is_called(#[trigger] members[m], "value"@)) {
            if at > 0 {
                assert(!is_called(members[0], "value"@));
                assert(rest[at - 1] == members[at]);
                assert forall|m: int| 0 <= m < rest.len() && m != at - 1 implies !is_called(
                    #[trigger] rest[m],
                    "value"@,
                ) by {
                    assert(rest[m] == members[m + 1]);
                }
            } else {
                assert forall|k: int| 0 <= k < e implies !((#[trigger] entries[k]).get(
                    "value"@,
                ) is Some && same_identity(
                    entries[k].get("value"@)->0,
                    members[0].1,
                    exact,
                )) by {
                    assert(!tells_identity(members[at], entries[k], exact));
                }
            }
        }
    }
}

/// The outcome of a request of one operation.
pub open spec fn outcome_of(resource: Json, operation: OperationModel, schema: SchemaModel) -> Result<
    Json,
    PatchErrorModel,
> {
    patch::patched(resource, seq![operation], Some(schema))
}

proof fn lemma_one_operation(resource: Json, op: OperationModel, schema: SchemaModel)
    ensures
        outcome_of(resource, op, schema) == patch::after_operation(
            resource,
            resource,
            op,
            Some(schema),
        ),
{
    reveal_with_fuel(patch::after_operations, 2);
    assert(seq![op].skip(1) =~= Seq::empty());
}

/// When a whole value for a multi-valued attribute is accepted, every new entry that stands for an
/// old one keeps what the parts of the attribute protect of it: the members for such a part, in
/// whatever case of letters, are there and hold the old value.
pub proof fn law_accepted_entries_keep_what_is_protected(
    resource: Json,
    op: PatchOp,
    s: Seq<char>,
    attr: Seq<char>,
    value: Option<Json>,
    schema: SchemaModel,
    i: int,
    j: int,
    old: Seq<Json>,
    k: int,
    members: Seq<(Seq<char>, Json)>,
    at: int,
    e: int,
)
    requires
        write_laws::leads_to(s, write_laws::whole(attr)),
        write_laws::is_open(attr),
        op != PatchOp::Remove,
        mutability_laws::stands_first(schema.attributes, attr, i),
        schema.attributes[i].multi_valued,
        0 <= j < schema.attributes[i].sub_attributes.len(),
        resource.get(attr) == Some(Json::Array(old)),
        outcome_of(resource, write_laws::operation(op, s, value), schema) is Ok,
        0 <= k < entries_in(write_laws::content(value)).len(),
        entries_in(write_laws::content(value))[k] == Json::Object(members),
        0 <= at < members.len(),
        0 <= e < old.len(),
        tells_identity(members[at], old[e], is_exact(schema.attributes[i])),
        forall|m: int|
            0 <= m < members.len() && m != at ==> !is_called(#[trigger] members[m], "value"@),
        forall|n: int|
            0 <= n < e ==> !tells_identity(
                members[at],
                #[trigger] old[n],
                is_exact(schema.attributes[i]),
            ),
    ensures
        keeps(members, old[e], schema.attributes[i].sub_attributes[j]),
{
    let def = schema.attributes[i];
    write_laws::lemma_open(attr);
    mutability_laws::law_the_first_definition_counts(schema.attributes, attr, i);
    lemma_one_operation(resource, write_laws::operation(op, s, value), schema);
    let new = write_laws::content(value);
    assert(patch::coerced(new, def) == new);
    assert(mutability::entries_of(new) == entries_in(new));
    assert(mutability::entries_refusal(attr, def, old, entries_in(new)) is None);
    lemma_counterpart(old, is_exact(def), members, at, e);
    patch_laws::law_accepted_entries_keep_protected_values(
        attr,
        def,
        old,
        entries_in(new),
        k,
        j,
    );
    lemma_protects(def.sub_attributes[j], old[e], members);
}

/// When a new object for an attribute that is not multi-valued is accepted, it keeps what the parts
/// of the attribute protect.
pub proof fn law_an_accepted_object_keeps_what_is_protected(
    resource: Json,
    op: PatchOp,
    s: Seq<char>,
    attr: Seq<char>,
    members: Seq<(Seq<char>, Json)>,
    schema: SchemaModel,
    i: int,
    j: int,
)
    requires
        write_laws::leads_to(s, write_laws::whole(attr)),
        write_laws::is_open(attr),
        op != PatchOp::Remove,
        mutability_laws::stands_first(schema.attributes, attr, i),
        !schema.attributes[i].multi_valued,
        0 <= j < schema.attributes[i].sub_attributes.len(),
        resource.get(attr) is Some,
        outcome_of(
            resource,
            write_laws::operation(op, s, Some(Json::Object(members))),
            schema,
        ) is Ok,
    ensures
        keeps(members, resource.get(attr)->0, schema.attributes[i].sub_attributes[j]),
{
    let def = schema.attributes[i];
    write_laws::lemma_open(attr);
    mutability_laws::law_the_first_definition_counts(schema.attributes, attr, i);
    lemma_one_operation(
        resource,
        write_laws::operation(op, s, Some(Json::Object(members))),
        schema,
    );
    lemma_entry_refusal(attr, def.sub_attributes, resource.get(attr)->0, members);
}

proof fn lemma_no_refusal_at(
    entries: Seq<Json>,
    f: FilterModel,
    attr: Seq<char>,
    original: Json,
    value: Json,
    schema: SchemaModel,
    e: int,
)
    requires
        patch::replacement_refusal(entries, f, attr, original, value, Some(schema)) is None,
        0 <= e < entries.len(),
        matching::entry_matches(f, entries[e], attr, Some(schema)),
        patch::definition(Some(schema), attr) is Some,
    ensures
        mutability::entry_refusal(
            attr,
            patch::definition(Some(schema), attr)->0,
            patch::baseline(
                original,
                attr,
                patch::definition(Some(schema), attr)->0,
                entries[e],
            ),
            value,
        ) is None,
    decreases entries.len(),
{
    if e > 0 {
        assert(entries.skip(1)[e - 1] == entries[e]);
        lemma_no_refusal_at(entries.skip(1), f, attr, original, value, schema, e - 1);
    }
}

/// When an object in place of the entries that a filter chooses is accepted, it keeps what the parts
/// of the attribute protect of each of them that no earlier entry shares its `value` with.
pub proof fn law_an_accepted_replacement_keeps_what_is_protected(
    resource: Json,
    op: PatchOp,
    s: Seq<char>,
    attr: Seq<char>,
    f: FilterModel,
    members: Seq<(Seq<char>, Json)>,
    schema: SchemaModel,
    i: int,
    j: int,
    old: Seq<Json>,
    e: int,
)
    requires
        write_laws::leads_to(s, write_laws::chosen(attr, f, None)),
        write_laws::is_open(attr),
        op != PatchOp::Remove,
        mutability_laws::stands_first(schema.attributes, attr, i),
        0 <= j < schema.attributes[i].sub_attributes.len(),
        resource.get(attr) == Some(Json::Array(old)),
        outcome_of(
            resource,
            write_laws::operation(op, s, Some(Json::Object(members))),
            schema,
        ) is Ok,
        0 <= e < old.len(),
        matching::entry_matches(f, old[e], attr, Some(schema)),
        old[e].get("value"@) matches Some(key) ==> same_identity(
            key,
            key,
            is_exact(schema.attributes[i]),
        ) && forall|n: int|
            0 <= n < e ==> !((#[trigger] old[n]).get("value"@) is Some && same_identity(
                old[n].get("value"@)->0,
                key,
                is_exact(schema.attributes[i]),
            )),
    ensures
        keeps(members, old[e], schema.attributes[i].sub_attributes[j]),
{
    let def = schema.attributes[i];
    write_laws::lemma_open(attr);
    mutability_laws::law_the_first_definition_counts(schema.attributes, attr, i);
    lemma_one_operation(
        resource,
        write_laws::operation(op, s, Some(Json::Object(members))),
        schema,
    );
    if let Some(key) = old[e].get("value"@) {
        lemma_entry_with_key(old, is_exact(def), key, e);
    }
    lemma_no_refusal_at(old, f, attr, resource, Json::Object(members), schema, e);
    lemma_entry_refusal(attr, def.sub_attributes, old[e], members);
}

/// In a request of several operations, an object in place of a chosen entry is held to what the
/// entry with the same `value` was before the request, whatever earlier operations made of it.
pub proof fn law_replacements_are_held_to_the_values_before_the_request(
    resource: Json,
    before: Seq<OperationModel>,
    op: PatchOp,
    s: Seq<char>,
    attr: Seq<char>,
    f: FilterModel,
    members: Seq<(Seq<char>, Json)>,
    rest: Seq<OperationModel>,
    schema: SchemaModel,
    i: int,
    j: int,
    now: Seq<Json>,
    e: int,
    old: Seq<Json>,
    o: int,
)
    requires
        write_laws::leads_to(s, write_laws::chosen(attr, f, None)),
        write_laws::is_open(attr),
        op != PatchOp::Remove,
        mutability_laws::stands_first(schema.attributes, attr, i),
        0 <= j < schema.attributes[i].sub_attributes.len(),
        patch::patched(resource, before, Some(schema)) matches Ok(current) && current.get(attr)
            == Some(Json::Array(now)),
        resource.get(attr) == Some(Json::Array(old)),
        mutability_laws::with_operation(
            resource,
            before,
            write_laws::operation(op, s, Some(Json::Object(members))),
            rest,
            schema,
        ) is Ok,
        0 <= e < now.len(),
        matching::entry_matches(f, now[e], attr, Some(schema)),
        now[e].get("value"@) is Some,
        0 <= o < old.len(),
        old[o].get("value"@) is Some,
        same_identity(
            old[o].get("value"@)->0,
            now[e].get("value"@)->0,
            is_exact(schema.attributes[i]),
        ),
        forall|n: int|
            0 <= n < o ==> !((#[trigger] old[n]).get("value"@) is Some && same_identity(
                old[n].get("value"@)->0,
                now[e].get("value"@)->0,
                is_exact(schema.attributes[i]),
            )),
    ensures
        keeps(members, old[o], schema.attributes[i].sub_attributes[j]),
{
    let def = schema.attributes[i];
    let request = write_laws::operation(op, s, Some(Json::Object(members)));
    write_laws::lemma_open(attr);
    mutability_laws::law_the_first_definition_counts(schema.attributes, attr, i);
    patch_laws::law_request_fails_with_its_first_refusal(
        resource,
        before,
        request,
        rest,
        Some(schema),
    );
    lemma_entry_with_key(old, is_exact(def), now[e].get("value"@)->0, o);
    lemma_no_refusal_at(now, f, attr, resource, Json::Object(members), schema, e);
    lemma_entry_refusal(attr, def.sub_attributes, old[o], members);
}

proof fn lemma_first_broken(
    attr: Seq<char>,
    subs: Seq<AttributeModel>,
    old: Json,
    members: Seq<(Seq<char>, Json)>,
    j: int,
)
    requires
        0 <= j < subs.len(),
        !keeps(members, old, subs[j]),
        forall|k: int| 0 <= k < j ==> keeps(members, old, #[trigger] subs[k]),
    ensures
        mutability::sub_attributes_refusal(attr, subs, old, members) == Some(
            PatchErrorModel::ImmutableOrReadOnly(attr + "[]."@ + subs[j].name),
        ),
    decreases subs.len(),
{
    lemma_protects(subs[0], old, members);
    if j > 0 {
        assert(keeps(members, old, subs[0]));
        assert forall|k: int| 0 <= k < j - 1 implies keeps(
            members,
            old,
            #[trigger] subs.skip(1)[k],
        ) by {
            assert(subs.skip(1)[k] == subs[k + 1]);
        }
        assert(subs.skip(1)[j - 1] == subs[j]);
        lemma_first_broken(attr, subs.skip(1), old, members, j - 1);
    }
}

/// A new object that breaks what is protected of the old value is refused, and the refusal names the
/// first part that it breaks.
pub proof fn law_broken_parts_are_named(
    resource: Json,
    op: PatchOp,
    s: Seq<char>,
    attr: Seq<char>,
    members: Seq<(Seq<char>, Json)>,
    schema: SchemaModel,
    i: int,
    j: int,
)
    requires
        write_laws::leads_to(s, write_laws::whole(attr)),
        write_laws::is_open(attr),
        op != PatchOp::Remove,
        mutability_laws::stands_first(schema.attributes, attr, i),
        mutability_laws::is_loose(schema.attributes[i].mutability),
        !schema.attributes[i].multi_valued,
        0 <= j < schema.attributes[i].sub_attributes.len(),
        resource.get(attr) is Some,
        !keeps(members, resource.get(attr)->0, schema.attributes[i].sub_attributes[j]),
        forall|k: int|
            0 <= k < j ==> keeps(
                members,
                resource.get(attr)->0,
                #[trigger] schema.attributes[i].sub_attributes[k],
            ),
    ensures
        outcome_of(resource, write_laws::operation(op, s, Some(Json::Object(members))), schema)
            == Err::<Json, _>(
            PatchErrorModel::ImmutableOrReadOnly(
                attr + "[]."@ + schema.attributes[i].sub_attributes[j].name,
            ),
        ),
{
    let def = schema.attributes[i];
    schema_laws::lemma_mutabilities();
    write_laws::lemma_open(attr);
    mutability_laws::law_the_first_definition_counts(schema.attributes, attr, i);
    lemma_one_operation(
        resource,
        write_laws::operation(op, s, Some(Json::Object(members))),
        schema,
    );
    lemma_first_broken(attr, def.sub_attributes, resource.get(attr)->0, members, j);
}

/// An accepted value without a path is held, member by member, to what a path is held to: no member
/// is read-only, an immutable one is only added where there was no value, and the entries that it
/// writes keep what is protected.
pub proof fn law_merged_members_are_held_to_the_schema(
    resource: Json,
    op: PatchOp,
    incoming: Seq<(Seq<char>, Json)>,
    schema: SchemaModel,
    n: int,
    i: int,
)
    requires
        op != PatchOp::Remove,
        0 <= n < incoming.len(),
        mutability_laws::stands_first(schema.attributes, incoming[n].0, i),
        outcome_of(
            resource,
            OperationModel { op, path: None, value: Some(Json::Object(incoming)) },
            schema,
        ) is Ok,
    ensures
        ({
            let m = schema.attributes[i].mutability;
            &&& write_laws::is_open(incoming[n].0)
            &&& mutability_laws::is_token(m)
            &&& m != "readOnly"@
            &&& m == "immutable"@ ==> op == PatchOp::Add && !mutability_laws::has_value(
                resource.get(incoming[n].0),
            )
        }),
{
    let request = OperationModel { op, path: None, value: Some(Json::Object(incoming)) };
    lemma_one_operation(resource, request, schema);
    patch_laws::lemma_accepted_members(incoming, resource, op, Some(schema), n);
    mutability_laws::law_the_first_definition_counts(schema.attributes, incoming[n].0, i);
    schema_laws::lemma_mutabilities();
    write_laws::lemma_open(incoming[n].0);
}

/// Entries that an accepted value without a path writes keep what is protected of those that they
/// stand for, as they do behind a path.
pub proof fn law_merged_entries_keep_what_is_protected(
    resource: Json,
    op: PatchOp,
    incoming: Seq<(Seq<char>, Json)>,
    schema: SchemaModel,
    n: int,
    i: int,
    j: int,
    old: Seq<Json>,
    k: int,
    members: Seq<(Seq<char>, Json)>,
    at: int,
    e: int,
)
    requires
        op != PatchOp::Remove,
        0 <= n < incoming.len(),
        mutability_laws::stands_first(schema.attributes, incoming[n].0, i),
        schema.attributes[i].multi_valued,
        0 <= j < schema.attributes[i].sub_attributes.len(),
        resource.get(incoming[n].0) == Some(Json::Array(old)),
        outcome_of(
            resource,
            OperationModel { op, path: None, value: Some(Json::Object(incoming)) },
            schema,
        ) is Ok,
        0 <= k < entries_in(incoming[n].1).len(),
        entries_in(incoming[n].1)[k] == Json::Object(members),
        0 <= at < members.len(),
        0 <= e < old.len(),
        tells_identity(members[at], old[e], is_exact(schema.attributes[i])),
        forall|m: int|
            0 <= m < members.len() && m != at ==> !is_called(#[trigger] members[m], "value"@),
        forall|m: int|
            0 <= m < e ==> !tells_identity(
                members[at],
                #[trigger] old[m],
                is_exact(schema.attributes[i]),
            ),
    ensures
        keeps(members, old[e], schema.attributes[i].sub_attributes[j]),
{
    let def = schema.attributes[i];
    let request = OperationModel { op, path: None, value: Some(Json::Object(incoming)) };
    let attr = incoming[n].0;
    lemma_one_operation(resource, request, schema);
    patch_laws::lemma_accepted_members(incoming, resource, op, Some(schema), n);
    mutability_laws::law_the_first_definition_counts(schema.attributes, attr, i);
    let new = incoming[n].1;
    assert(mutability::entries_of(new) == entries_in(new));
    lemma_counterpart(old, is_exact(def), members, at, e);
    patch_laws::law_accepted_entries_keep_protected_values(attr, def, old, entries_in(new), k, j);
    lemma_protects(def.sub_attributes[j], old[e], members);
}

/// An object that an accepted value without a path writes to an attribute that is not multi-valued
/// keeps what the parts of the attribute protect.
pub proof fn law_a_merged_object_keeps_what_is_protected(
    resource: Json,
    op: PatchOp,
    incoming: Seq<(Seq<char>, Json)>,
    schema: SchemaModel,
    n: int,
    i: int,
    j: int,
    members: Seq<(Seq<char>, Json)>,
)
    requires
        op != PatchOp::Remove,
        0 <= n < incoming.len(),
        incoming[n].1 == Json::Object(members),
        mutability_laws::stands_first(schema.attributes, incoming[n].0, i),
        !schema.attributes[i].multi_valued,
        0 <= j < schema.attributes[i].sub_attributes.len(),
        resource.get(incoming[n].0) is Some,
        outcome_of(
            resource,
            OperationModel { op, path: None, value: Some(Json::Object(incoming)) },
            schema,
        ) is Ok,
    ensures
        keeps(members, resource.get(incoming[n].0)->0, schema.attributes[i].sub_attributes[j]),
{
    let def = schema.attributes[i];
    let request = OperationModel { op, path: None, value: Some(Json::Object(incoming)) };
    let attr = incoming[n].0;
    lemma_one_operation(resource, request, schema);
    patch_laws::lemma_accepted_members(incoming, resource, op, Some(schema), n);
    mutability_laws::law_the_first_definition_counts(schema.attributes, attr, i);
    lemma_entry_refusal(attr, def.sub_attributes, resource.get(attr)->0, members);
}

proof fn lemma_entries_accepted(
    attr: Seq<char>,
    def: AttributeModel,
    old: Seq<Json>,
    new: Seq<Json>,
)
    requires
        forall|k: int, e: int, m: int, j: int|
            #![trigger new[k], old[e], (new[k]->Object_0)[m], def.sub_attributes[j]]
            0 <= k < new.len() && 0 <= e < old.len() && new[k] is Object && 0 <= m < (
            new[k]->Object_0).len() && tells_identity((new[k]->Object_0)[m], old[e], is_exact(def))
                && 0 <= j < def.sub_attributes.len() ==> keeps(
                new[k]->Object_0,
                old[e],
                def.sub_attributes[j],
            ),
    ensures
        mutability::entries_refusal(attr, def, old, new) is None,
    decreases new.len(),
{
    if new.len() > 0 {
        let rest = new.skip(1);
        assert forall|k: int, e: int, m: int, j: int|
            #![trigger rest[k], old[e], (rest[k]->Object_0)[m], def.sub_attributes[j]]
            0 <= k < rest.len() && 0 <= e < old.len() && rest[k] is Object && 0 <= m < (
            rest[k]->Object_0).len() && tells_identity(
                (rest[k]->Object_0)[m],
                old[e],
                is_exact(def),
            ) && 0 <= j < def.sub_attributes.len() implies keeps(
            rest[k]->Object_0,
            old[e],
            def.sub_attributes[j],
        ) by {
            assert(rest[k] == new[k + 1]);
            assert((new[k + 1]->Object_0)[m] == (rest[k]->Object_0)[m]);
        }
        lemma_entries_accepted(attr, def, old, rest);
        if let Json::Object(members) = new[0] {
            lemma_counterpart(old, is_exact(def), members, 0, 0);
            if let Some(found) = mutability::counterpart(old, is_exact(def), members) {
                let (e, m) = choose|e: int, m: int|
                    0 <= e < old.len() && 0 <= m < members.len() && #[trigger] old[e] == found
                        && tells_identity(#[trigger] members[m], found, is_exact(def));
                assert forall|j: int| 0 <= j < def.sub_attributes.len() implies keeps(
                    members,
                    found,
                    #[trigger] def.sub_attributes[j],
                ) by {
                    assert((new[0]->Object_0)[m] == members[m]);
                    assert(old[e] == found);
                }
                lemma_entry_refusal(attr, def.sub_attributes, found, members);
            }
        }
    }
}

/// A whole value for a multi-valued attribute that a schema lets be written is accepted where every
/// new entry keeps what is protected of the old entries that it could stand for; so are entries that
/// stand for none.
pub proof fn law_harmless_entries_are_accepted(
    root: Seq<(Seq<char>, Json)>,
    s: Seq<char>,
    attr: Seq<char>,
    new: Seq<Json>,
    schema: SchemaModel,
    i: int,
)
    requires
        write_laws::leads_to(s, write_laws::whole(attr)),
        write_laws::is_open(attr),
        mutability_laws::stands_first(schema.attributes, attr, i),
        mutability_laws::is_loose(schema.attributes[i].mutability),
        schema.attributes[i].multi_valued,
        json::lookup(root, attr) matches Some(Json::Array(old)) ==> forall|
            k: int,
            e: int,
            m: int,
            j: int,
        |
            #![trigger new[k], old[e], (new[k]->Object_0)[m], schema.attributes[i].sub_attributes[j]]
            0 <= k < new.len() && 0 <= e < old.len() && new[k] is Object && 0 <= m < (
            new[k]->Object_0).len() && tells_identity(
                (new[k]->Object_0)[m],
                old[e],
                is_exact(schema.attributes[i]),
            ) && 0 <= j < schema.attributes[i].sub_attributes.len() ==> keeps(
                new[k]->Object_0,
                old[e],
                schema.attributes[i].sub_attributes[j],
            ),
    ensures
        mutability_laws::gives(
            mutability_laws::replaced(root, s, Json::Array(new), schema),
            root,
            attr,
            Json::Array(new),
        ),
{
    broadcast use json::lemma_lookup_put;

    let def = schema.attributes[i];
    schema_laws::lemma_mutabilities();
    write_laws::lemma_open(attr);
    mutability_laws::law_the_first_definition_counts(schema.attributes, attr, i);
    lemma_one_operation(
        Json::Object(root),
        write_laws::operation(PatchOp::Replace, s, Some(Json::Array(new))),
        schema,
    );
    if let Some(Json::Array(old)) = json::lookup(root, attr) {
        lemma_entries_accepted(attr, def, old, new);
    }
}

} // verus!
