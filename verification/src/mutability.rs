//! What a schema's mutability allows a PATCH operation to do.

use crate::common;
use crate::common::Mutability;
use crate::discovery;
use crate::discovery::{
    find_attribute, find_named, optional_str, AttributeDefinition, AttributeModel, SchemaModel,
    SchemaResource,
};
use crate::filter::{Filter, FilterModel};
use crate::json;
use crate::json::{viewed, Json, Members, Value};
use crate::matching;
use crate::matching::evaluate;
use crate::patch::{PatchError, PatchErrorModel, PatchOp};
use crate::text;
use crate::text::{equal_ignoring_case, joined, same_text};
use vstd::prelude::*;

verus! {

/// How much a mutability restricts a write: never, once, or not at all.
pub open spec fn rank(m: Mutability) -> int {
    match m {
        Mutability::ReadOnly => 2,
        Mutability::Immutable => 1,
        Mutability::ReadWrite => 0,
        Mutability::WriteOnly => 0,
    }
}

/// The stricter of two mutabilities; the first where they restrict alike.
pub open spec fn stricter_of(a: Mutability, b: Mutability) -> Mutability {
    if rank(a) >= rank(b) {
        a
    } else {
        b
    }
}

/// How much a mutability restricts a write.
pub fn mutability_rank(m: Mutability) -> (r: u8)
    ensures
        r == rank(m),
{
    match m {
        Mutability::ReadOnly => 2,
        Mutability::Immutable => 1,
        Mutability::ReadWrite => 0,
        Mutability::WriteOnly => 0,
    }
}

/// Whether `a` restricts writes at least as much as `b`.
pub fn at_least_as_strict(a: Mutability, b: Mutability) -> (r: bool)
    ensures
        r == (rank(a) >= rank(b)),
{
    mutability_rank(a) >= mutability_rank(b)
}

/// The mutability that holds where two apply to the same write.
pub fn stricter(a: Mutability, b: Mutability) -> (r: Mutability)
    ensures
        r == stricter_of(a, b),
{
    if at_least_as_strict(a, b) {
        a
    } else {
        b
    }
}

/// The stricter mutability is one of the two and restricts as much as each of them.
pub proof fn law_stricter_is_a_bound(a: Mutability, b: Mutability)
    ensures
        stricter_of(a, b) == a || stricter_of(a, b) == b,
        rank(stricter_of(a, b)) >= rank(a),
        rank(stricter_of(a, b)) >= rank(b),
        stricter_of(a, a) == a,
{
}

/// Which of two mutabilities comes first never changes how much their combination restricts.
pub proof fn law_stricter_ignores_order(a: Mutability, b: Mutability, c: Mutability)
    ensures
        rank(stricter_of(a, b)) == rank(stricter_of(b, a)),
        stricter_of(stricter_of(a, b), c) == stricter_of(a, stricter_of(b, c)),
{
}

/// Whether a value is there and not null.
pub open spec fn present(v: Option<Json>) -> bool {
    v matches Some(x) && x != Json::Null
}

/// Whether a resource already has a value for an attribute or sub-attribute; with a filter on an
/// array, whether a matching entry has one.
pub open spec fn has_value(
    resource: Json,
    attr_name: Seq<char>,
    sub_attr: Option<Seq<char>>,
    value_filter: Option<FilterModel>,
    schema: SchemaModel,
) -> bool {
    match (value_filter, resource.get(attr_name)) {
        (Some(f), Some(Json::Array(entries))) => exists|i: int|
            0 <= i < entries.len() && matching::entry_matches(
                f,
                #[trigger] entries[i],
                attr_name,
                Some(schema),
            ) && (match sub_attr {
                Some(sub) => present(entries[i].get(sub)),
                None => true,
            }),
        (_, found) => match sub_attr {
            Some(sub) => match found {
                Some(v) => present(v.get(sub)),
                None => false,
            },
            None => present(found),
        },
    }
}

/// What decides a write to an attribute path: the mutability to enforce, and the sub-attribute
/// whose previous value counts. A sub-attribute at least as strict as its parent speaks for
/// itself; otherwise the parent as a whole does.
pub open spec fn effective_mutability(
    own: Mutability,
    parent: Mutability,
    sub_attr: Option<Seq<char>>,
) -> (Mutability, Option<Seq<char>>) {
    (
        stricter_of(parent, own),
        if rank(own) >= rank(parent) {
            sub_attr
        } else {
            None
        },
    )
}

/// The refusal of a write to an attribute path by its effective mutability.
pub open spec fn write_refusal(
    schema: SchemaModel,
    resource: Json,
    attr_name: Seq<char>,
    value_filter: Option<FilterModel>,
    op: PatchOp,
    mutability: Mutability,
    counted_sub: Option<Seq<char>>,
) -> Option<PatchErrorModel> {
    let refused = match mutability {
        Mutability::ReadOnly => true,
        Mutability::Immutable => op != PatchOp::Add || has_value(
            resource,
            attr_name,
            counted_sub,
            value_filter,
            schema,
        ),
        Mutability::ReadWrite => false,
        Mutability::WriteOnly => false,
    };
    if refused {
        Some(PatchErrorModel::ImmutableOrReadOnly(attr_name))
    } else {
        None
    }
}

/// The refusal of an operation on an attribute path by a schema. An attribute that the schema does
/// not know is not refused.
pub open spec fn mutability_refusal(
    schema: SchemaModel,
    resource: Json,
    attr_name: Seq<char>,
    sub_attr: Option<Seq<char>>,
    value_filter: Option<FilterModel>,
    op: PatchOp,
) -> Option<PatchErrorModel> {
    match discovery::attribute_of(schema, attr_name, sub_attr) {
        None => None,
        Some(def) => match common::mutability_of(def.mutability) {
            None => Some(
                PatchErrorModel::InvalidSchemaMutability { attr_name, mutability: def.mutability },
            ),
            Some(own) => match sub_attr {
                None => write_refusal(schema, resource, attr_name, value_filter, op, own, None),
                Some(_) => {
                    let parent_def = discovery::named(schema.attributes, attr_name)->0;
                    match common::mutability_of(parent_def.mutability) {
                        None => Some(
                            PatchErrorModel::InvalidSchemaMutability {
                                attr_name,
                                mutability: parent_def.mutability,
                            },
                        ),
                        Some(parent) => {
                            let (m, counted) = effective_mutability(own, parent, sub_attr);
                            write_refusal(
                                schema,
                                resource,
                                attr_name,
                                value_filter,
                                op,
                                m,
                                counted,
                            )
                        },
                    }
                },
            },
        },
    }
}

/// Whether every member whose name is `name`, in any case of its letters, has the given value, and
/// there is one.
pub open spec fn members_agree(
    members: Seq<(Seq<char>, Json)>,
    name: Seq<char>,
    value: Json,
) -> bool {
    &&& exists|i: int|
        0 <= i < members.len() && text::same_ignoring_case((#[trigger] members[i]).0, name)
    &&& forall|i: int|
        0 <= i < members.len() && text::same_ignoring_case((#[trigger] members[i]).0, name)
            ==> json::same_json(members[i].1, value)
}

/// Whether a new entry would change a value that a sub-attribute definition protects.
pub open spec fn breaks_sub_attribute(
    def: AttributeModel,
    existing: Json,
    members: Seq<(Seq<char>, Json)>,
) -> bool {
    let m = common::mutability_of(def.mutability);
    &&& m == Some(Mutability::Immutable) || m == Some(Mutability::ReadOnly)
    &&& present(existing.get(def.name))
    &&& !members_agree(members, def.name, existing.get(def.name)->0)
}

/// The refusal for the first of `subs` that the new entry would change.
pub open spec fn sub_attributes_refusal(
    attr_name: Seq<char>,
    subs: Seq<AttributeModel>,
    existing: Json,
    members: Seq<(Seq<char>, Json)>,
) -> Option<PatchErrorModel>
    decreases subs.len(),
{
    if subs.len() == 0 {
        None
    } else if breaks_sub_attribute(subs[0], existing, members) {
        Some(PatchErrorModel::ImmutableOrReadOnly(attr_name + "[]."@ + subs[0].name))
    } else {
        sub_attributes_refusal(attr_name, subs.skip(1), existing, members)
    }
}

/// The refusal of a new entry in place of an existing one: no immutable or read-only
/// sub-attribute that has a value may change or go. A new entry that is no object is not held
/// to this.
pub open spec fn entry_refusal(
    attr_name: Seq<char>,
    def: AttributeModel,
    existing: Json,
    new_entry: Json,
) -> Option<PatchErrorModel> {
    match new_entry {
        Json::Object(members) => sub_attributes_refusal(
            attr_name,
            def.sub_attributes,
            existing,
            members,
        ),
        _ => None,
    }
}

/// Whether entries of an attribute are told apart by the exact text of their `value`.
pub open spec fn value_case_exact(def: AttributeModel) -> bool {
    discovery::named(def.sub_attributes, "value"@) matches Some(d) && d.case_exact
}

/// Whether two `value`s identify the same entry.
pub open spec fn same_key(a: Json, b: Json, case_exact: bool) -> bool {
    match (a, b) {
        (Json::String(x), Json::String(y)) => if case_exact {
            x == y
        } else {
            text::same_ignoring_case(x, y)
        },
        _ => json::same_json(a, b),
    }
}

/// The first entry whose `value` is `key`.
pub open spec fn entry_with_key(entries: Seq<Json>, case_exact: bool, key: Json) -> Option<Json>
    decreases entries.len(),
{
    if entries.len() == 0 {
        None
    } else if entries[0].get("value"@) matches Some(k) && same_key(k, key, case_exact) {
        Some(entries[0])
    } else {
        entry_with_key(entries.skip(1), case_exact, key)
    }
}

/// The existing entry that a new entry replaces: the first that one of the new entry's members
/// called `value`, in any case of its letters, identifies.
pub open spec fn counterpart(
    entries: Seq<Json>,
    case_exact: bool,
    members: Seq<(Seq<char>, Json)>,
) -> Option<Json>
    decreases members.len(),
{
    if members.len() == 0 {
        None
    } else if text::same_ignoring_case(members[0].0, "value"@) && entry_with_key(
        entries,
        case_exact,
        members[0].1,
    ) is Some {
        entry_with_key(entries, case_exact, members[0].1)
    } else {
        counterpart(entries, case_exact, members.skip(1))
    }
}

/// The refusal for the first of the new entries that would change a protected value of the entry
/// that it replaces; an entry that replaces none is an addition.
pub open spec fn entries_refusal(
    attr_name: Seq<char>,
    def: AttributeModel,
    existing: Seq<Json>,
    new_entries: Seq<Json>,
) -> Option<PatchErrorModel>
    decreases new_entries.len(),
{
    if new_entries.len() == 0 {
        None
    } else {
        let first = match new_entries[0] {
            Json::Object(members) => match counterpart(existing, value_case_exact(def), members) {
                Some(old) => entry_refusal(attr_name, def, old, new_entries[0]),
                None => None,
            },
            _ => None,
        };
        match first {
            Some(e) => Some(e),
            None => entries_refusal(attr_name, def, existing, new_entries.skip(1)),
        }
    }
}

/// The entries that a value stands for: its items if it is an array, else itself.
pub open spec fn entries_of(value: Json) -> Seq<Json> {
    match value {
        Json::Array(items) => items,
        _ => seq![value],
    }
}

/// The refusal of a new value for a whole attribute, by the mutability of its sub-attributes.
pub open spec fn whole_value_refusal(
    attr_name: Seq<char>,
    def: AttributeModel,
    existing: Option<Json>,
    new_value: Json,
) -> Option<PatchErrorModel> {
    if def.sub_attributes.len() == 0 {
        None
    } else if !def.multi_valued {
        let old = match existing {
            Some(v) => v,
            None => Json::Null,
        };
        entry_refusal(attr_name, def, old, new_value)
    } else {
        match existing {
            Some(Json::Array(entries)) => entries_refusal(
                attr_name,
                def,
                entries,
                entries_of(new_value),
            ),
            _ => None,
        }
    }
}

/// A refusal as an exec result.
pub open spec fn refusal(r: Result<(), PatchError>) -> Option<PatchErrorModel> {
    match r {
        Ok(_) => None,
        Err(e) => Some(e@),
    }
}

fn is_present(v: Option<&Value>) -> (r: bool)
    ensures
        r == present(viewed(v)),
{
    match v {
        Some(Value::Null) => false,
        Some(_) => true,
        None => false,
    }
}

fn attribute_has_existing_value(
    resource: &Value,
    attr_name: &str,
    sub_attr: Option<&str>,
    value_filter: Option<&Filter>,
    schema: &SchemaResource,
) -> (r: bool)
    ensures
        r == has_value(
            resource@,
            attr_name@,
            optional_str(sub_attr),
            viewed(value_filter),
            schema@,
        ),
{
    let found = resource.get(attr_name);
    match (value_filter, found) {
        (Some(filter), Some(Value::Array(entries))) => {
            let ghost shown = json::views(entries@);
            let mut i: usize = 0;
            while i < entries.len()
                invariant
                    i <= entries.len(),
                    shown == json::views(entries@),
                    shown.len() == entries.len(),
                    resource@.get(attr_name@) == Some(Json::Array(shown)),
                    value_filter == Some(filter),
                    forall|j: int|
                        0 <= j < i ==> !(matching::entry_matches(
                            filter@,
                            #[trigger] shown[j],
                            attr_name@,
                            Some(schema@),
                        ) && (match optional_str(sub_attr) {
                            Some(sub) => present(shown[j].get(sub)),
                            None => true,
                        })),
                decreases entries.len() - i,
            {
                proof {
                    json::lemma_views_index(entries@, i as int);
                }
                let entry = &entries[i];
                if evaluate(filter, entry, attr_name, Some(schema)) {
                    let counts = match sub_attr {
                        Some(sub) => is_present(entry.get(sub)),
                        None => true,
                    };
                    if counts {
                        assert(matching::entry_matches(
                            filter@,
                            shown[i as int],
                            attr_name@,
                            Some(schema@),
                        ));
                        return true;
                    }
                }
                i += 1;
            }
            false
        },
        _ => match sub_attr {
            Some(sub) => match found {
                Some(v) => is_present(v.get(sub)),
                None => false,
            },
            None => is_present(found),
        },
    }
}

/// Holds a write to an attribute path to the schema's mutability. `resource` is the resource as it
/// was before the request: whether an immutable attribute already has a value is asked of it alone.
pub fn check_mutability(
    schema: &SchemaResource,
    resource: &Value,
    attr_name: &str,
    sub_attr: Option<&str>,
    value_filter: Option<&Filter>,
    op: PatchOp,
) -> (r: Result<(), PatchError>)
    ensures
        refusal(r) == mutability_refusal(
            schema@,
            resource@,
            attr_name@,
            optional_str(sub_attr),
            viewed(value_filter),
            op,
        ),
{
    let attr_def = match find_attribute(schema, attr_name, sub_attr) {
        Some(def) => def,
        None => {
            return Ok(());
        },
    };
    let own = match Mutability::from_rfc_str(attr_def.mutability.as_str()) {
        Some(m) => m,
        None => {
            return Err(
                PatchError::InvalidSchemaMutability {
                    attr_name: attr_name.to_owned(),
                    mutability: attr_def.mutability.clone(),
                },
            );
        },
    };
    let (mutability, counted_sub) = match sub_attr {
        None => (own, sub_attr),
        Some(_) => match find_attribute(schema, attr_name, None) {
            Some(parent_def) => match Mutability::from_rfc_str(parent_def.mutability.as_str()) {
                Some(parent) => {
                    let counted = if at_least_as_strict(own, parent) {
                        sub_attr
                    } else {
                        None
                    };
                    (stricter(parent, own), counted)
                },
                None => {
                    return Err(
                        PatchError::InvalidSchemaMutability {
                            attr_name: attr_name.to_owned(),
                            mutability: parent_def.mutability.clone(),
                        },
                    );
                },
            },
            None => (own, sub_attr),
        },
    };
    let refused = match mutability {
        Mutability::ReadOnly => true,
        Mutability::Immutable => op != PatchOp::Add || attribute_has_existing_value(
            resource,
            attr_name,
            counted_sub,
            value_filter,
            schema,
        ),
        Mutability::ReadWrite => false,
        Mutability::WriteOnly => false,
    };
    if refused {
        Err(PatchError::ImmutableOrReadOnly(attr_name.to_owned()))
    } else {
        Ok(())
    }
}

fn all_candidates_agree(members: &Members, name: &str, value: &Value) -> (r: bool)
    ensures
        r == members_agree(members@, name@, value@),
{
    let mut found = false;
    let mut i: usize = 0;
    while i < members.len()
        invariant
            i <= members@.len(),
            found <==> exists|j: int|
                0 <= j < i && text::same_ignoring_case((#[trigger] members@[j]).0, name@),
            forall|j: int|
                0 <= j < i && text::same_ignoring_case((#[trigger] members@[j]).0, name@)
                    ==> json::same_json(members@[j].1, value@),
        decreases members@.len() - i,
    {
        if equal_ignoring_case(members.name_at(i), name) {
            if !members.value_at(i).same_as(value) {
                assert(text::same_ignoring_case(members@[i as int].0, name@));
                return false;
            }
            found = true;
            assert(text::same_ignoring_case(members@[i as int].0, name@));
        }
        i += 1;
    }
    found
}

/// Holds a new entry of a complex attribute to the values of the entry that it replaces.
pub fn check_entry_immutable_sub_attrs(
    attr_name: &str,
    attr_def: &AttributeDefinition,
    existing_entry: &Value,
    new_entry: &Value,
) -> (r: Result<(), PatchError>)
    ensures
        refusal(r) == entry_refusal(attr_name@, attr_def@, existing_entry@, new_entry@),
{
    let members = match new_entry {
        Value::Object(members) => members,
        _ => {
            return Ok(());
        },
    };
    let ghost subs = discovery::attribute_views(attr_def.sub_attributes@);
    let mut i: usize = 0;
    assert(subs.skip(0) =~= subs);
    while i < attr_def.sub_attributes.len()
        invariant
            i <= attr_def.sub_attributes.len(),
            subs == discovery::attribute_views(attr_def.sub_attributes@),
            subs.len() == attr_def.sub_attributes.len(),
            sub_attributes_refusal(attr_name@, subs, existing_entry@, members@)
                == sub_attributes_refusal(
                attr_name@,
                subs.skip(i as int),
                existing_entry@,
                members@,
            ),
            new_entry@ == Json::Object(members@),
            attr_def@.sub_attributes == subs,
        decreases attr_def.sub_attributes.len() - i,
    {
        let sub_def = &attr_def.sub_attributes[i];
        proof {
            discovery::lemma_attribute_views_index(attr_def.sub_attributes@, i as int);
            assert(subs.skip(i as int).skip(1) =~= subs.skip(i + 1));
        }
        let protects = match Mutability::from_rfc_str(sub_def.mutability.as_str()) {
            Some(Mutability::Immutable) => true,
            Some(Mutability::ReadOnly) => true,
            _ => false,
        };
        if protects {
            let old = existing_entry.get(sub_def.name.as_str());
            if is_present(old) {
                if let Some(value) = old {
                    if !all_candidates_agree(members, sub_def.name.as_str(), value) {
                        let place = joined(&joined(attr_name, "[]."), sub_def.name.as_str());
                        return Err(PatchError::ImmutableOrReadOnly(place));
                    }
                }
            }
        }
        i += 1;
    }
    Ok(())
}

fn value_sub_attr_is_case_exact(attr_def: &AttributeDefinition) -> (r: bool)
    ensures
        r == value_case_exact(attr_def@),
{
    match find_named(&attr_def.sub_attributes, "value") {
        Some(def) => def.case_exact,
        None => false,
    }
}

fn keys_match(a: &Value, b: &Value, case_exact: bool) -> (r: bool)
    ensures
        r == same_key(a@, b@, case_exact),
{
    match (a, b) {
        (Value::String(x), Value::String(y)) => if case_exact {
            same_text(x.as_str(), y.as_str())
        } else {
            equal_ignoring_case(x.as_str(), y.as_str())
        },
        _ => a.same_as(b),
    }
}

/// Finds the entry that `key` identifies.
pub fn find_entry_by_value<'a>(
    entries: &'a Vec<Value>,
    attr_def: &AttributeDefinition,
    key: &Value,
) -> (r: Option<&'a Value>)
    ensures
        viewed(r) == entry_with_key(json::views(entries@), value_case_exact(attr_def@), key@),
{
    let case_exact = value_sub_attr_is_case_exact(attr_def);
    let ghost shown = json::views(entries@);
    let mut i: usize = 0;
    assert(shown.skip(0) =~= shown);
    while i < entries.len()
        invariant
            i <= entries.len(),
            shown == json::views(entries@),
            shown.len() == entries.len(),
            case_exact == value_case_exact(attr_def@),
            entry_with_key(shown, case_exact, key@) == entry_with_key(
                shown.skip(i as int),
                case_exact,
                key@,
            ),
        decreases entries.len() - i,
    {
        proof {
            json::lemma_views_index(entries@, i as int);
            assert(shown.skip(i as int).skip(1) =~= shown.skip(i + 1));
        }
        if let Some(existing_key) = entries[i].get("value") {
            if keys_match(existing_key, key, case_exact) {
                return Some(&entries[i]);
            }
        }
        i += 1;
    }
    None
}

fn find_counterpart<'a>(
    entries: &'a Vec<Value>,
    attr_def: &AttributeDefinition,
    members: &Members,
) -> (r: Option<&'a Value>)
    ensures
        viewed(r) == counterpart(json::views(entries@), value_case_exact(attr_def@), members@),
{
    let ghost shown = json::views(entries@);
    let ghost case_exact = value_case_exact(attr_def@);
    let mut i: usize = 0;
    assert(members@.skip(0) =~= members@);
    while i < members.len()
        invariant
            i <= members@.len(),
            shown == json::views(entries@),
            case_exact == value_case_exact(attr_def@),
            counterpart(shown, case_exact, members@) == counterpart(
                shown,
                case_exact,
                members@.skip(i as int),
            ),
        decreases members@.len() - i,
    {
        assert(members@.skip(i as int).skip(1) =~= members@.skip(i + 1));
        if equal_ignoring_case(members.name_at(i), "value") {
            let found = find_entry_by_value(entries, attr_def, members.value_at(i));
            if found.is_some() {
                return found;
            }
        }
        i += 1;
    }
    None
}

fn check_new_entry(
    attr_name: &str,
    attr_def: &AttributeDefinition,
    existing: &Vec<Value>,
    new_entry: &Value,
) -> (r: Result<(), PatchError>)
    ensures
        refusal(r) == (match new_entry@ {
            Json::Object(members) => match counterpart(
                json::views(existing@),
                value_case_exact(attr_def@),
                members,
            ) {
                Some(old) => entry_refusal(attr_name@, attr_def@, old, new_entry@),
                None => None,
            },
            _ => None,
        }),
{
    match new_entry {
        Value::Object(members) => match find_counterpart(existing, attr_def, members) {
            Some(old) => check_entry_immutable_sub_attrs(attr_name, attr_def, old, new_entry),
            None => Ok(()),
        },
        _ => Ok(()),
    }
}

/// Holds a new value for a whole complex attribute to the entries that it replaces.
pub fn check_multivalued_complex_replace_mutability(
    attr_name: &str,
    attr_def: &AttributeDefinition,
    existing: Option<&Value>,
    new_value: &Value,
) -> (r: Result<(), PatchError>)
    ensures
        refusal(r) == whole_value_refusal(attr_name@, attr_def@, viewed(existing), new_value@),
{
    proof {
        discovery::lemma_attribute_views_len(attr_def.sub_attributes@);
    }
    if attr_def.sub_attributes.len() == 0 {
        return Ok(());
    }
    if !attr_def.multi_valued {
        let null = Value::Null;
        let old = match existing {
            Some(v) => v,
            None => &null,
        };
        return check_entry_immutable_sub_attrs(attr_name, attr_def, old, new_value);
    }
    let entries = match existing {
        Some(Value::Array(entries)) => entries,
        _ => {
            return Ok(());
        },
    };
    let ghost old = json::views(entries@);
    match new_value {
        Value::Array(items) => {
            let ghost shown = json::views(items@);
            let mut i: usize = 0;
            assert(shown.skip(0) =~= shown);
            while i < items.len()
                invariant
                    i <= items.len(),
                    shown == json::views(items@),
                    shown.len() == items.len(),
                    old == json::views(entries@),
                    entries_refusal(attr_name@, attr_def@, old, shown) == entries_refusal(
                        attr_name@,
                        attr_def@,
                        old,
                        shown.skip(i as int),
                    ),
                    whole_value_refusal(attr_name@, attr_def@, viewed(existing), new_value@)
                        == entries_refusal(attr_name@, attr_def@, old, shown),
                decreases items.len() - i,
            {
                proof {
                    json::lemma_views_index(items@, i as int);
                    assert(shown.skip(i as int).skip(1) =~= shown.skip(i + 1));
                }
                match check_new_entry(attr_name, attr_def, entries, &items[i]) {
                    Ok(_) => {},
                    Err(e) => {
                        return Err(e);
                    },
                }
                i += 1;
            }
            Ok(())
        },
        _ => {
            proof {
                reveal_with_fuel(entries_refusal, 2);
                assert(entries_of(new_value@) =~= seq![new_value@]);
            }
            check_new_entry(attr_name, attr_def, entries, new_value)
        },
    }
}

} // verus!
