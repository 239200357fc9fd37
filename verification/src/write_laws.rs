//! What each kind of PATCH operation makes of a resource.

use crate::filter;
use crate::filter::{ErrorModel, FilterModel, PatchPathModel, PathModel};
use crate::json;
use crate::json::Json;
use crate::matching;
use crate::patch;
use crate::patch::{OperationModel, PatchErrorModel, PatchOp};
use crate::text;
use vstd::prelude::*;

verus! {

/// A path to a whole attribute.
pub open spec fn whole(attr: Seq<char>) -> PatchPathModel {
    PatchPathModel {
        attr_path: PathModel { schema_uri: None, attr_name: attr, sub_attr: None },
        value_filter: None,
        sub_attr_after_filter: None,
    }
}

/// A path to a part of an attribute.
pub open spec fn part(attr: Seq<char>, sub: Seq<char>) -> PatchPathModel {
    PatchPathModel {
        attr_path: PathModel { schema_uri: None, attr_name: attr, sub_attr: Some(sub) },
        value_filter: None,
        sub_attr_after_filter: None,
    }
}

/// A path to the entries of an attribute that match a filter, or to a part of each.
pub open spec fn chosen(attr: Seq<char>, f: FilterModel, sub: Option<Seq<char>>) -> PatchPathModel {
    PatchPathModel {
        attr_path: PathModel { schema_uri: None, attr_name: attr, sub_attr: None },
        value_filter: Some(f),
        sub_attr_after_filter: sub,
    }
}

/// Whether a text is a path to the given target.
pub open spec fn leads_to(s: Seq<char>, target: PatchPathModel) -> bool {
    filter::parsed_patch_path(s) == Ok::<PatchPathModel, ErrorModel>(target)
}

/// Whether an attribute is none of the three that PATCH never changes.
pub open spec fn is_open(attr: Seq<char>) -> bool {
    &&& text::ascii_lower(attr) != "id"@
    &&& text::ascii_lower(attr) != "meta"@
    &&& text::ascii_lower(attr) != "schemas"@
}

/// An operation with a path.
pub open spec fn operation(op: PatchOp, s: Seq<char>, value: Option<Json>) -> OperationModel {
    OperationModel { op, path: Some(s), value }
}

/// What an operation writes: its value, or null where it has none.
pub open spec fn content(value: Option<Json>) -> Json {
    match value {
        Some(v) => v,
        None => Json::Null,
    }
}

/// Whether two resources differ at most in the attribute `attr`.
pub open spec fn same_but_for(after: Json, before: Json, attr: Seq<char>) -> bool {
    forall|name: Seq<char>| name != attr ==> #[trigger] after.get(name) == before.get(name)
}

/// An attribute that PATCH can change is exactly one that is not protected.
pub proof fn lemma_open(attr: Seq<char>)
    ensures
        is_open(attr) <==> !patch::protected(attr),
{
    reveal_strlit("id");
    reveal_strlit("meta");
    reveal_strlit("schemas");
    assert(text::ascii_lower("id"@) =~= "id"@);
    assert(text::ascii_lower("meta"@) =~= "meta"@);
    assert(text::ascii_lower("schemas"@) =~= "schemas"@);
}

proof fn lemma_one_operation(resource: Json, op: OperationModel)
    ensures
        patch::patched(resource, seq![op], None) == patch::after_operation(
            resource,
            resource,
            op,
            None,
        ),
{
    reveal_with_fuel(patch::after_operations, 2);
    assert(seq![op].skip(1) =~= Seq::empty());
}

/// A `replace` of a whole attribute puts the new value in place of whatever was there. Nothing else
/// changes, and nothing but the path can have it refused.
pub proof fn law_replace_puts_the_value_in_place(
    root: Seq<(Seq<char>, Json)>,
    s: Seq<char>,
    attr: Seq<char>,
    value: Option<Json>,
)
    requires
        leads_to(s, whole(attr)),
        is_open(attr),
    ensures
        patch::patched(Json::Object(root), seq![operation(PatchOp::Replace, s, value)], None) matches Ok(
            after,
        ) && after.get(attr) == Some(content(value)) && same_but_for(
            after,
            Json::Object(root),
            attr,
        ),
{
    broadcast use json::lemma_lookup_put;

    lemma_open(attr);
    lemma_one_operation(Json::Object(root), operation(PatchOp::Replace, s, value));
}

/// An `add` to an array puts the new entries behind the old ones; to anything else it gives the new
/// value. Nothing else changes, and nothing but the path can have it refused.
pub proof fn law_add_appends_to_an_array(
    root: Seq<(Seq<char>, Json)>,
    s: Seq<char>,
    attr: Seq<char>,
    value: Option<Json>,
)
    requires
        leads_to(s, whole(attr)),
        is_open(attr),
    ensures
        patch::patched(Json::Object(root), seq![operation(PatchOp::Add, s, value)], None) matches Ok(
            after,
        ) && after.get(attr) == Some(
            match (json::lookup(root, attr), content(value)) {
                (Some(Json::Array(old)), Json::Array(new)) => Json::Array(old + new),
                (Some(Json::Array(old)), single) => Json::Array(old.push(single)),
                (_, v) => v,
            },
        ) && same_but_for(after, Json::Object(root), attr),
{
    broadcast use json::lemma_lookup_put;

    lemma_open(attr);
    lemma_one_operation(Json::Object(root), operation(PatchOp::Add, s, value));
    if let Some(Json::Array(old)) = json::lookup(root, attr) {
        assert(old + seq![content(value)] =~= old.push(content(value)));
    }
}

/// A `remove` of a whole attribute takes it away. Nothing else changes, and nothing but the path can
/// have it refused.
pub proof fn law_remove_takes_the_attribute_away(
    root: Seq<(Seq<char>, Json)>,
    s: Seq<char>,
    attr: Seq<char>,
    value: Option<Json>,
)
    requires
        leads_to(s, whole(attr)),
        is_open(attr),
        json::sorted(root),
    ensures
        patch::patched(Json::Object(root), seq![operation(PatchOp::Remove, s, value)], None) matches Ok(
            after,
        ) && after.get(attr) is None && same_but_for(after, Json::Object(root), attr),
{
    broadcast use json::lemma_lookup_without;

    lemma_open(attr);
    lemma_one_operation(Json::Object(root), operation(PatchOp::Remove, s, value));
    json::lemma_without_is_gone(root, attr);
}

/// Writing to a part of an attribute sets that part and leaves the others; an attribute that is not
/// there is made of that part alone, and one that is no object is refused.
pub proof fn law_writing_a_part_sets_it(
    root: Seq<(Seq<char>, Json)>,
    op: PatchOp,
    s: Seq<char>,
    attr: Seq<char>,
    sub: Seq<char>,
    value: Option<Json>,
)
    requires
        leads_to(s, part(attr, sub)),
        is_open(attr),
        op != PatchOp::Remove,
    ensures
        ({
            let before = json::lookup(root, attr);
            let outcome = patch::patched(Json::Object(root), seq![operation(op, s, value)], None);
            if before is None || before->0 is Object {
                &&& outcome matches Ok(after)
                &&& same_but_for(after, Json::Object(root), attr)
                &&& after.get(attr) matches Some(written)
                &&& written is Object
                &&& written.get(sub) == Some(content(value))
                &&& forall|name: Seq<char>|
                    name != sub ==> #[trigger] written.get(name) == (match before {
                        Some(old) => old.get(name),
                        None => None,
                    })
            } else {
                outcome == Err::<Json, PatchErrorModel>(
                    PatchErrorModel::AmbiguousPath("'"@ + attr + "' is not a complex attribute"@),
                )
            }
        }),
{
    broadcast use json::lemma_lookup_put;

    lemma_open(attr);
    lemma_one_operation(Json::Object(root), operation(op, s, value));
}

/// Removing a part of an attribute takes away that part alone; where the attribute is not there
/// nothing changes, and one that is no object is refused.
pub proof fn law_removing_a_part_takes_it_away(
    root: Seq<(Seq<char>, Json)>,
    s: Seq<char>,
    attr: Seq<char>,
    sub: Seq<char>,
    value: Option<Json>,
)
    requires
        leads_to(s, part(attr, sub)),
        is_open(attr),
        json::lookup(root, attr) matches Some(Json::Object(members)) ==> json::sorted(members),
    ensures
        ({
            let before = json::lookup(root, attr);
            let outcome = patch::patched(
                Json::Object(root),
                seq![operation(PatchOp::Remove, s, value)],
                None,
            );
            match before {
                None => outcome == Ok::<Json, PatchErrorModel>(Json::Object(root)),
                Some(Json::Object(members)) => {
                    &&& outcome matches Ok(after)
                    &&& same_but_for(after, Json::Object(root), attr)
                    &&& after.get(attr) matches Some(left)
                    &&& left is Object
                    &&& left.get(sub) is None
                    &&& forall|name: Seq<char>|
                        name != sub ==> #[trigger] left.get(name) == before->0.get(name)
                },
                Some(_) => outcome == Err::<Json, PatchErrorModel>(
                    PatchErrorModel::AmbiguousPath("'"@ + attr + "' is not a complex attribute"@),
                ),
            }
        }),
{
    broadcast use {json::lemma_lookup_put, json::lemma_lookup_without};

    lemma_open(attr);
    lemma_one_operation(Json::Object(root), operation(PatchOp::Remove, s, value));
    if let Some(Json::Object(members)) = json::lookup(root, attr) {
        json::lemma_without_is_gone(members, sub);
    }
}

/// Whether an entry is chosen, without a schema.
pub open spec fn is_chosen(f: FilterModel, entry: Json, attr: Seq<char>) -> bool {
    matching::entry_matches(f, entry, attr, None)
}

/// Whether some entry is chosen.
pub open spec fn chooses_some(f: FilterModel, entries: Seq<Json>, attr: Seq<char>) -> bool {
    exists|i: int| 0 <= i < entries.len() && is_chosen(f, #[trigger] entries[i], attr)
}

/// Writing to the entries that a filter chooses puts the value in place of each of them and leaves
/// the others; where none is chosen the request is refused.
pub proof fn law_writing_chosen_entries_replaces_them(
    root: Seq<(Seq<char>, Json)>,
    op: PatchOp,
    s: Seq<char>,
    attr: Seq<char>,
    f: FilterModel,
    value: Option<Json>,
)
    requires
        leads_to(s, chosen(attr, f, None)),
        is_open(attr),
        op != PatchOp::Remove,
    ensures
        ({
            let outcome = patch::patched(Json::Object(root), seq![operation(op, s, value)], None);
            match json::lookup(root, attr) {
                Some(Json::Array(entries)) => if chooses_some(f, entries, attr) {
                    &&& outcome matches Ok(after)
                    &&& same_but_for(after, Json::Object(root), attr)
                    &&& after.get(attr) matches Some(Json::Array(written))
                    &&& written.len() == entries.len()
                    &&& forall|i: int|
                        0 <= i < entries.len() ==> #[trigger] written[i] == (if is_chosen(
                            f,
                            entries[i],
                            attr,
                        ) {
                            content(value)
                        } else {
                            entries[i]
                        })
                } else {
                    outcome == Err::<Json, PatchErrorModel>(PatchErrorModel::NoMatchingValue)
                },
                _ => outcome == Err::<Json, PatchErrorModel>(
                    PatchErrorModel::AmbiguousPath(
                        "'"@ + attr + "' is not a multi-valued attribute this resource has"@,
                    ),
                ),
            }
        }),
{
    broadcast use json::lemma_lookup_put;

    lemma_open(attr);
    lemma_one_operation(Json::Object(root), operation(op, s, value));
    if let Some(Json::Array(entries)) = json::lookup(root, attr) {
        lemma_nothing_refused(entries, f, attr, Json::Object(root), content(value));
        if chooses_some(f, entries, attr) {
            let i = choose|i: int|
                0 <= i < entries.len() && is_chosen(f, #[trigger] entries[i], attr);
            assert(matching::entry_matches(f, entries[i], attr, None));
        }
    }
}

proof fn lemma_nothing_refused(
    entries: Seq<Json>,
    f: FilterModel,
    attr: Seq<char>,
    original: Json,
    value: Json,
)
    ensures
        patch::replacement_refusal(entries, f, attr, original, value, None) is None,
    decreases entries.len(),
{
    if entries.len() > 0 {
        lemma_nothing_refused(entries.skip(1), f, attr, original, value);
    }
}

/// Writing to a part of the entries that a filter chooses sets that part in each of them, leaves
/// their other parts and leaves the other entries; where none is chosen, or one that is chosen is
/// no object, the request is refused.
pub proof fn law_writing_a_part_of_chosen_entries_sets_it(
    root: Seq<(Seq<char>, Json)>,
    op: PatchOp,
    s: Seq<char>,
    attr: Seq<char>,
    f: FilterModel,
    sub: Seq<char>,
    value: Option<Json>,
)
    requires
        leads_to(s, chosen(attr, f, Some(sub))),
        is_open(attr),
        op != PatchOp::Remove,
        json::lookup(root, attr) is Some,
        json::lookup(root, attr)->0 is Array,
    ensures
        ({
            let entries = json::lookup(root, attr)->0->Array_0;
            let outcome = patch::patched(Json::Object(root), seq![operation(op, s, value)], None);
            if !chooses_some(f, entries, attr) {
                outcome == Err::<Json, PatchErrorModel>(PatchErrorModel::NoMatchingValue)
            } else if exists|i: int|
                0 <= i < entries.len() && is_chosen(f, #[trigger] entries[i], attr)
                    && !(entries[i] is Object) {
                outcome == Err::<Json, PatchErrorModel>(
                    PatchErrorModel::AmbiguousPath("'"@ + attr + "' is not a complex attribute"@),
                )
            } else {
                &&& outcome matches Ok(after)
                &&& same_but_for(after, Json::Object(root), attr)
                &&& after.get(attr) matches Some(Json::Array(written))
                &&& written.len() == entries.len()
                &&& forall|i: int|
                    0 <= i < entries.len() ==> if is_chosen(f, entries[i], attr) {
                        (#[trigger] written[i]) is Object && written[i].get(sub) == Some(
                            content(value),
                        ) && same_but_for(written[i], entries[i], sub)
                    } else {
                        written[i] == entries[i]
                    }
            }
        }),
{
    broadcast use json::lemma_lookup_put;

    lemma_open(attr);
    lemma_one_operation(Json::Object(root), operation(op, s, value));
    let entries = json::lookup(root, attr)->0->Array_0;
    assert(chooses_some(f, entries, attr) == patch::any_matches(entries, f, attr, None));
}

/// Removing the entries that a filter chooses leaves the others, in their order; where none is
/// chosen the request is refused.
pub proof fn law_removing_chosen_entries_leaves_the_others(
    root: Seq<(Seq<char>, Json)>,
    s: Seq<char>,
    attr: Seq<char>,
    f: FilterModel,
    value: Option<Json>,
)
    requires
        leads_to(s, chosen(attr, f, None)),
        is_open(attr),
        json::lookup(root, attr) is Some,
        json::lookup(root, attr)->0 is Array,
    ensures
        ({
            let entries = json::lookup(root, attr)->0->Array_0;
            let outcome = patch::patched(
                Json::Object(root),
                seq![operation(PatchOp::Remove, s, value)],
                None,
            );
            if !chooses_some(f, entries, attr) {
                outcome == Err::<Json, PatchErrorModel>(PatchErrorModel::NoMatchingValue)
            } else {
                outcome matches Ok(after) && same_but_for(after, Json::Object(root), attr)
                    && after.get(attr) == Some(
                    Json::Array(entries.filter(|entry: Json| !is_chosen(f, entry, attr))),
                )
            }
        }),
{
    broadcast use json::lemma_lookup_put;

    lemma_open(attr);
    lemma_one_operation(Json::Object(root), operation(PatchOp::Remove, s, value));
    let entries = json::lookup(root, attr)->0->Array_0;
    assert(chooses_some(f, entries, attr) == patch::any_matches(entries, f, attr, None));
    assert((|entry: Json| !is_chosen(f, entry, attr)) =~= (|entry: Json|
        !matching::entry_matches(f, entry, attr, None)));
}

/// Removing a part of the entries that a filter chooses takes it away from each of them, leaves
/// their other parts and leaves the other entries; where none is chosen, or one that is chosen is
/// no object, the request is refused.
pub proof fn law_removing_a_part_of_chosen_entries_takes_it_away(
    root: Seq<(Seq<char>, Json)>,
    s: Seq<char>,
    attr: Seq<char>,
    f: FilterModel,
    sub: Seq<char>,
    value: Option<Json>,
)
    requires
        leads_to(s, chosen(attr, f, Some(sub))),
        is_open(attr),
        json::lookup(root, attr) is Some,
        json::lookup(root, attr)->0 is Array,
        forall|i: int|
            0 <= i < json::lookup(root, attr)->0->Array_0.len() ==> (
            #[trigger] json::lookup(root, attr)->0->Array_0[i] matches Json::Object(members)
                ==> json::sorted(members)),
    ensures
        ({
            let entries = json::lookup(root, attr)->0->Array_0;
            let outcome = patch::patched(
                Json::Object(root),
                seq![operation(PatchOp::Remove, s, value)],
                None,
            );
            if !chooses_some(f, entries, attr) {
                outcome == Err::<Json, PatchErrorModel>(PatchErrorModel::NoMatchingValue)
            } else if exists|i: int|
                0 <= i < entries.len() && is_chosen(f, #[trigger] entries[i], attr)
                    && !(entries[i] is Object) {
                outcome == Err::<Json, PatchErrorModel>(
                    PatchErrorModel::AmbiguousPath("'"@ + attr + "' is not a complex attribute"@),
                )
            } else {
                &&& outcome matches Ok(after)
                &&& same_but_for(after, Json::Object(root), attr)
                &&& after.get(attr) matches Some(Json::Array(left))
                &&& left.len() == entries.len()
                &&& forall|i: int|
                    0 <= i < entries.len() ==> if is_chosen(f, entries[i], attr) {
                        (#[trigger] left[i]) is Object && left[i].get(sub) is None && same_but_for(
                            left[i],
                            entries[i],
                            sub,
                        )
                    } else {
                        left[i] == entries[i]
                    }
            }
        }),
{
    broadcast use {json::lemma_lookup_put, json::lemma_lookup_without};

    lemma_open(attr);
    lemma_one_operation(Json::Object(root), operation(PatchOp::Remove, s, value));
    let entries = json::lookup(root, attr)->0->Array_0;
    assert(chooses_some(f, entries, attr) == patch::any_matches(entries, f, attr, None));
    assert forall|i: int| 0 <= i < entries.len() && entries[i] is Object implies json::lookup(
        json::without((#[trigger] entries[i])->Object_0, sub),
        sub,
    ) is None by {
        json::lemma_without_is_gone(entries[i]->Object_0, sub);
    }
}

/// Whether every name in an object stands there once.
pub open spec fn has_distinct_names(members: Seq<(Seq<char>, Json)>) -> bool {
    forall|i: int, j: int|
        0 <= i < j < members.len() ==> (#[trigger] members[i]).0 != (#[trigger] members[j]).0
}

proof fn lemma_merged(root: Seq<(Seq<char>, Json)>, incoming: Seq<(Seq<char>, Json)>)
    requires
        has_distinct_names(incoming),
    ensures
        forall|i: int|
            0 <= i < incoming.len() ==> json::lookup(
                patch::merged(root, incoming),
                (#[trigger] incoming[i]).0,
            ) == Some(incoming[i].1),
        forall|name: Seq<char>|
            (forall|i: int| 0 <= i < incoming.len() ==> (#[trigger] incoming[i]).0 != name)
                ==> #[trigger] json::lookup(patch::merged(root, incoming), name) == json::lookup(
                root,
                name,
            ),
    decreases incoming.len(),
{
    broadcast use json::lemma_lookup_put;

    if incoming.len() > 0 {
        let front = incoming.drop_last();
        assert forall|i: int, j: int| 0 <= i < j < front.len() implies (#[trigger] front[i]).0 != (
        #[trigger] front[j]).0 by {
            assert(front[i] == incoming[i] && front[j] == incoming[j]);
        }
        lemma_merged(root, front);
        assert forall|i: int| 0 <= i < incoming.len() implies json::lookup(
            patch::merged(root, incoming),
            (#[trigger] incoming[i]).0,
        ) == Some(incoming[i].1) by {
            if i < front.len() {
                assert(front[i] == incoming[i]);
                assert(incoming[i].0 != incoming[incoming.len() - 1].0);
            }
        }
        assert forall|name: Seq<char>|
            (forall|i: int| 0 <= i < incoming.len() ==> (#[trigger] incoming[i]).0
                != name) implies #[trigger] json::lookup(patch::merged(root, incoming), name)
            == json::lookup(root, name) by {
            assert(incoming[incoming.len() - 1].0 != name);
            assert forall|i: int| 0 <= i < front.len() implies (#[trigger] front[i]).0 != name by {
                assert(front[i] == incoming[i]);
            }
        }
    }
}

proof fn lemma_members_open(
    incoming: Seq<(Seq<char>, Json)>,
    original: Json,
    op: PatchOp,
)
    requires
        forall|i: int| 0 <= i < incoming.len() ==> is_open((#[trigger] incoming[i]).0),
    ensures
        patch::members_refusal(incoming, original, op, None) is None,
    decreases incoming.len(),
{
    if incoming.len() > 0 {
        lemma_open(incoming[0].0);
        assert forall|i: int| 0 <= i < incoming.skip(1).len() implies is_open(
            (#[trigger] incoming.skip(1)[i]).0,
        ) by {
            assert(incoming.skip(1)[i] == incoming[i + 1]);
        }
        lemma_members_open(incoming.skip(1), original, op);
    }
}

/// Without a path every member of the value becomes the attribute of its name, also over an array,
/// and the other attributes stay.
pub proof fn law_a_value_without_path_is_merged(
    root: Seq<(Seq<char>, Json)>,
    op: PatchOp,
    incoming: Seq<(Seq<char>, Json)>,
)
    requires
        op != PatchOp::Remove,
        has_distinct_names(incoming),
        forall|i: int| 0 <= i < incoming.len() ==> is_open((#[trigger] incoming[i]).0),
    ensures
        patch::patched(
            Json::Object(root),
            seq![OperationModel { op, path: None, value: Some(Json::Object(incoming)) }],
            None,
        ) matches Ok(after) && (forall|i: int|
            0 <= i < incoming.len() ==> after.get((#[trigger] incoming[i]).0) == Some(
                incoming[i].1,
            )) && (forall|name: Seq<char>|
            (forall|i: int| 0 <= i < incoming.len() ==> (#[trigger] incoming[i]).0 != name)
                ==> #[trigger] after.get(name) == json::lookup(root, name)),
{
    let op_model = OperationModel { op, path: None, value: Some(Json::Object(incoming)) };
    lemma_one_operation(Json::Object(root), op_model);
    lemma_members_open(incoming, Json::Object(root), op);
    lemma_merged(root, incoming);
}

/// What is refused whatever the resource holds, and with which error: a path that cannot be read, a
/// path qualified by a schema URN, a protected attribute, a `remove` without a path, and a value
/// without a path that is no object.
pub proof fn law_bad_targets_are_refused(
    resource: Json,
    op: PatchOp,
    s: Seq<char>,
    value: Option<Json>,
)
    ensures
        filter::parsed_patch_path(s) matches Err(e) ==> patch::patched(
            resource,
            seq![operation(op, s, value)],
            None,
        ) == Err::<Json, PatchErrorModel>(PatchErrorModel::InvalidPath(e)),
        filter::parsed_patch_path(s) matches Ok(path) ==> (path.attr_path.schema_uri matches Some(
            uri,
        ) ==> patch::patched(resource, seq![operation(op, s, value)], None) == Err::<
            Json,
            PatchErrorModel,
        >(PatchErrorModel::SchemaQualifiedPath(uri + ":"@ + path.attr_path.attr_name))),
        filter::parsed_patch_path(s) matches Ok(path) ==> path.attr_path.schema_uri is None
            && !is_open(path.attr_path.attr_name) ==> patch::patched(
            resource,
            seq![operation(op, s, value)],
            None,
        ) == Err::<Json, PatchErrorModel>(PatchErrorModel::Protected(path.attr_path.attr_name)),
        filter::parsed_patch_path(s) matches Ok(path) ==> path.attr_path.schema_uri is None
            && is_open(path.attr_path.attr_name) && !(resource is Object) ==> patch::patched(
            resource,
            seq![operation(op, s, value)],
            None,
        ) == Err::<Json, PatchErrorModel>(
            PatchErrorModel::AmbiguousPath("resource root is not a JSON object"@),
        ),
        patch::patched(
            resource,
            seq![OperationModel { op: PatchOp::Remove, path: None, value }],
            None,
        ) == Err::<Json, PatchErrorModel>(PatchErrorModel::NoTarget),
        op != PatchOp::Remove && !(content(value) is Object) ==> patch::patched(
            resource,
            seq![OperationModel { op, path: None, value }],
            None,
        ) == Err::<Json, PatchErrorModel>(
            PatchErrorModel::AmbiguousPath("no-path add/replace requires an object value"@),
        ),
{
    lemma_one_operation(resource, operation(op, s, value));
    lemma_one_operation(resource, OperationModel { op: PatchOp::Remove, path: None, value });
    lemma_one_operation(resource, OperationModel { op, path: None, value });
    if let Ok(path) = filter::parsed_patch_path(s) {
        lemma_open(path.attr_path.attr_name);
    }
}

/// A value without a path is refused as a whole by its first protected member.
pub proof fn law_a_protected_member_is_refused(
    resource: Json,
    op: PatchOp,
    incoming: Seq<(Seq<char>, Json)>,
    at: int,
)
    requires
        op != PatchOp::Remove,
        0 <= at < incoming.len(),
        !is_open(incoming[at].0),
        forall|i: int| 0 <= i < at ==> is_open((#[trigger] incoming[i]).0),
    ensures
        patch::patched(
            resource,
            seq![OperationModel { op, path: None, value: Some(Json::Object(incoming)) }],
            None,
        ) == Err::<Json, PatchErrorModel>(PatchErrorModel::Protected(incoming[at].0)),
{
    lemma_one_operation(
        resource,
        OperationModel { op, path: None, value: Some(Json::Object(incoming)) },
    );
    lemma_first_protected(incoming, resource, op, at);
}

proof fn lemma_first_protected(
    incoming: Seq<(Seq<char>, Json)>,
    original: Json,
    op: PatchOp,
    at: int,
)
    requires
        0 <= at < incoming.len(),
        !is_open(incoming[at].0),
        forall|i: int| 0 <= i < at ==> is_open((#[trigger] incoming[i]).0),
    ensures
        patch::members_refusal(incoming, original, op, None) == Some(
            PatchErrorModel::Protected(incoming[at].0),
        ),
    decreases at,
{
    lemma_open(incoming[0].0);
    if at > 0 {
        assert(is_open(incoming[0].0));
        assert forall|i: int| 0 <= i < at - 1 implies is_open(
            (#[trigger] incoming.skip(1)[i]).0,
        ) by {
            assert(incoming.skip(1)[i] == incoming[i + 1]);
        }
        lemma_first_protected(incoming.skip(1), original, op, at - 1);
    }
}

} // verus!
