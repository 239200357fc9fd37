//! When a bulk request is put in order, when it is refused, and what becomes of its references.

use crate::bulk;
use crate::bulk::{BulkErrorModel, BulkMethod, BulkOperationModel, BulkStatusError, BulkStatusModel};
use crate::bulk_laws;
use crate::json;
use crate::json::Json;
use crate::text;
use vstd::prelude::*;

verus! {

/// The value at a place in a document: a place tells at each level which item or member to go on
/// with.
pub open spec fn value_at(doc: Json, place: Seq<int>) -> Option<Json>
    decreases place.len(),
{
    if place.len() == 0 {
        Some(doc)
    } else {
        match doc {
            Json::Array(items) => if 0 <= place[0] < items.len() {
                value_at(items[place[0]], place.skip(1))
            } else {
                None
            },
            Json::Object(members) => if 0 <= place[0] < members.len() {
                value_at(members[place[0]].1, place.skip(1))
            } else {
                None
            },
            _ => None,
        }
    }
}

/// The text that refers to a `bulkId`.
pub open spec fn reference(id: Seq<char>) -> Json {
    Json::String("bulkId:"@ + id)
}

/// Whether a document refers to a `bulkId` anywhere.
pub open spec fn mentions(doc: Json, id: Seq<char>) -> bool {
    exists|place: Seq<int>| #[trigger] value_at(doc, place) == Some(reference(id))
}

/// Whether the data of an operation refers to a `bulkId` anywhere.
pub open spec fn uses(op: BulkOperationModel, id: Seq<char>) -> bool {
    op.data is Some && mentions(op.data->0, id)
}

proof fn lemma_referenced(s: Seq<char>, id: Seq<char>)
    ensures
        bulk::referenced(s) == Some(id) <==> s == "bulkId:"@ + id,
        bulk::referenced(s) is None ==> Json::String(s) != reference(id),
{
    let prefix = "bulkId:"@;
    if bulk::referenced(s) == Some(id) {
        assert(s =~= s.subrange(0, prefix.len() as int) + s.skip(prefix.len() as int));
    }
    if s == prefix + id {
        assert(s.subrange(0, prefix.len() as int) =~= prefix);
        assert(s.skip(prefix.len() as int) =~= id);
    }
}

proof fn lemma_mentions_text(s: Seq<char>, id: Seq<char>)
    ensures
        mentions(Json::String(s), id) <==> s == "bulkId:"@ + id,
{
    let doc = Json::String(s);
    if mentions(doc, id) {
        let place = choose|place: Seq<int>| #[trigger] value_at(doc, place) == Some(reference(id));
        assert(place.len() == 0);
    }
    if s == "bulkId:"@ + id {
        assert(value_at(doc, Seq::empty()) == Some(reference(id)));
    }
}

proof fn lemma_mentions_item(items: Seq<Json>, k: int, id: Seq<char>)
    requires
        0 <= k < items.len(),
        mentions(items[k], id),
    ensures
        mentions(Json::Array(items), id),
{
    let place = choose|place: Seq<int>| #[trigger]
        value_at(items[k], place) == Some(reference(id));
    let whole = seq![k] + place;
    assert(whole.skip(1) =~= place);
    assert(value_at(Json::Array(items), whole) == Some(reference(id)));
}

proof fn lemma_mentions_member(members: Seq<(Seq<char>, Json)>, k: int, id: Seq<char>)
    requires
        0 <= k < members.len(),
        mentions(members[k].1, id),
    ensures
        mentions(Json::Object(members), id),
{
    let place = choose|place: Seq<int>| #[trigger]
        value_at(members[k].1, place) == Some(reference(id));
    let whole = seq![k] + place;
    assert(whole.skip(1) =~= place);
    assert(value_at(Json::Object(members), whole) == Some(reference(id)));
}

proof fn lemma_references_add(a: Seq<Seq<char>>, b: Seq<Seq<char>>, id: Seq<char>)
    ensures
        (a + b).contains(id) <==> a.contains(id) || b.contains(id),
{
    if a.contains(id) {
        let k = choose|k: int| 0 <= k < a.len() && a[k] == id;
        assert((a + b)[k] == id);
    }
    if b.contains(id) {
        let k = choose|k: int| 0 <= k < b.len() && b[k] == id;
        assert((a + b)[a.len() + k] == id);
    }
    if (a + b).contains(id) {
        let k = choose|k: int| 0 <= k < (a + b).len() && (a + b)[k] == id;
        if k < a.len() {
            assert(a[k] == id);
        } else {
            assert(b[k - a.len()] == id);
        }
    }
}

/// The references of a document are the texts anywhere in it that consist of `bulkId:` and an
/// identifier.
pub proof fn law_references_are_found_everywhere(doc: Json, id: Seq<char>)
    ensures
        bulk::references(doc).contains(id) <==> mentions(doc, id),
    decreases doc,
{
    match doc {
        Json::String(s) => {
            lemma_referenced(s, id);
            lemma_mentions_text(s, id);
            if let Some(found) = bulk::referenced(s) {
                assert(seq![found][0] == found);
                if found == id {
                    assert(seq![found].contains(id));
                }
            }
        },
        Json::Array(items) => {
            lemma_items_found(items, id);
            if exists|k: int| 0 <= k < items.len() && mentions(#[trigger] items[k], id) {
                let k = choose|k: int| 0 <= k < items.len() && mentions(#[trigger] items[k], id);
                lemma_mentions_item(items, k, id);
            }
            if mentions(doc, id) {
                let place = choose|place: Seq<int>| #[trigger]
                    value_at(doc, place) == Some(reference(id));
                assert(place.len() > 0);
                assert(value_at(items[place[0]], place.skip(1)) == Some(reference(id)));
                assert(mentions(items[place[0]], id));
            }
        },
        Json::Object(members) => {
            lemma_members_found(members, id);
            if exists|k: int| 0 <= k < members.len() && mentions((#[trigger] members[k]).1, id) {
                let k = choose|k: int|
                    0 <= k < members.len() && mentions((#[trigger] members[k]).1, id);
                lemma_mentions_member(members, k, id);
            }
            if mentions(doc, id) {
                let place = choose|place: Seq<int>| #[trigger]
                    value_at(doc, place) == Some(reference(id));
                assert(place.len() > 0);
                assert(value_at(members[place[0]].1, place.skip(1)) == Some(reference(id)));
                assert(mentions(members[place[0]].1, id));
            }
        },
        _ => {
            if mentions(doc, id) {
                let place = choose|place: Seq<int>| #[trigger]
                    value_at(doc, place) == Some(reference(id));
                assert(place.len() == 0);
            }
        },
    }
}

proof fn lemma_items_found(items: Seq<Json>, id: Seq<char>)
    ensures
        bulk::references_in_items(items).contains(id) <==> exists|k: int|
            0 <= k < items.len() && mentions(#[trigger] items[k], id),
    decreases items,
{
    if items.len() > 0 {
        let front = items.drop_last();
        lemma_items_found(front, id);
        law_references_are_found_everywhere(items.last(), id);
        lemma_references_add(bulk::references_in_items(front), bulk::references(items.last()), id);
        if exists|k: int| 0 <= k < front.len() && mentions(#[trigger] front[k], id) {
            let k = choose|k: int| 0 <= k < front.len() && mentions(#[trigger] front[k], id);
            assert(items[k] == front[k]);
        }
        if mentions(items.last(), id) {
            assert(mentions(items[items.len() - 1], id));
        }
        if exists|k: int| 0 <= k < items.len() && mentions(#[trigger] items[k], id) {
            let k = choose|k: int| 0 <= k < items.len() && mentions(#[trigger] items[k], id);
            if k < front.len() {
                assert(front[k] == items[k]);
            }
        }
    }
}

proof fn lemma_members_found(members: Seq<(Seq<char>, Json)>, id: Seq<char>)
    ensures
        bulk::references_in_members(members).contains(id) <==> exists|k: int|
            0 <= k < members.len() && mentions((#[trigger] members[k]).1, id),
    decreases members,
{
    if members.len() > 0 {
        let front = members.drop_last();
        lemma_members_found(front, id);
        law_references_are_found_everywhere(members.last().1, id);
        lemma_references_add(
            bulk::references_in_members(front),
            bulk::references(members.last().1),
            id,
        );
        if exists|k: int| 0 <= k < front.len() && mentions((#[trigger] front[k]).1, id) {
            let k = choose|k: int| 0 <= k < front.len() && mentions((#[trigger] front[k]).1, id);
            assert(members[k] == front[k]);
        }
        if mentions(members.last().1, id) {
            assert(mentions(members[members.len() - 1].1, id));
        }
        if exists|k: int| 0 <= k < members.len() && mentions((#[trigger] members[k]).1, id) {
            let k = choose|k: int|
                0 <= k < members.len() && mentions((#[trigger] members[k]).1, id);
            if k < front.len() {
                assert(front[k] == members[k]);
            }
        }
    }
}

/// What stands in place of a value after substitution: a reference gives way to its identifier,
/// other values that hold no others are as before, and what holds others holds as many, under the
/// same names.
pub open spec fn takes_the_place(
    new: Json,
    old: Json,
    known: Map<Seq<char>, Seq<char>>,
) -> bool {
    match old {
        Json::Array(items) => new is Array && new->Array_0.len() == items.len(),
        Json::Object(members) => new is Object && new->Object_0.len() == members.len() && forall|
            k: int,
        |
            0 <= k < members.len() ==> (#[trigger] new->Object_0[k]).0 == members[k].0,
        _ => if exists|id: Seq<char>| old == #[trigger] reference(id) {
            exists|id: Seq<char>|
                old == #[trigger] reference(id) && known.contains_key(id) && new == Json::String(
                    known[id],
                )
        } else {
            new == old
        },
    }
}

/// Substitution changes references and nothing else: each gives way to the identifier known for it,
/// at whatever place it stands.
pub proof fn law_substitution_replaces_references_in_place(
    doc: Json,
    known: Map<Seq<char>, Seq<char>>,
    place: Seq<int>,
)
    requires
        bulk::substituted(doc, known) is Ok,
    ensures
        ({
            let after = bulk::substituted(doc, known)->Ok_0;
            &&& value_at(after, place) is Some <==> value_at(doc, place) is Some
            &&& value_at(doc, place) is Some ==> takes_the_place(
                value_at(after, place)->0,
                value_at(doc, place)->0,
                known,
            )
        }),
    decreases place.len(),
{
    let after = bulk::substituted(doc, known)->Ok_0;
    match doc {
        Json::Array(items) => {
            let values = bulk::substituted_items(items, known)->Ok_0;
            if place.len() > 0 {
                let k = place[0];
                if 0 <= k < items.len() {
                    lemma_item_substituted(items, known, k);
                    law_substitution_replaces_references_in_place(items[k], known, place.skip(1));
                }
                lemma_as_many_items(items, known);
            } else {
                lemma_as_many_items(items, known);
            }
        },
        Json::Object(members) => {
            lemma_as_many_members(members, known);
            if place.len() > 0 {
                let k = place[0];
                if 0 <= k < members.len() {
                    lemma_member_substituted(members, known, k);
                    law_substitution_replaces_references_in_place(
                        members[k].1,
                        known,
                        place.skip(1),
                    );
                }
            }
        },
        Json::String(s) => {
            if let Some(id) = bulk::referenced(s) {
                lemma_referenced(s, id);
                assert(doc == reference(id));
            } else {
                assert forall|id: Seq<char>| doc != #[trigger] reference(id) by {
                    lemma_referenced(s, id);
                }
            }
        },
        _ => {},
    }
}

proof fn lemma_as_many_items(items: Seq<Json>, known: Map<Seq<char>, Seq<char>>)
    ensures
        bulk::substituted_items(items, known) matches Ok(values) ==> values.len() == items.len(),
    decreases items.len(),
{
    if items.len() > 0 {
        lemma_as_many_items(items.drop_last(), known);
    }
}

proof fn lemma_as_many_members(
    members: Seq<(Seq<char>, Json)>,
    known: Map<Seq<char>, Seq<char>>,
)
    ensures
        bulk::substituted_members(members, known) matches Ok(values) ==> values.len()
            == members.len(),
    decreases members.len(),
{
    if members.len() > 0 {
        lemma_as_many_members(members.drop_last(), known);
    }
}

proof fn lemma_item_substituted(items: Seq<Json>, known: Map<Seq<char>, Seq<char>>, k: int)
    requires
        0 <= k < items.len(),
        bulk::substituted_items(items, known) is Ok,
    ensures
        bulk::substituted(items[k], known) == Ok::<Json, BulkErrorModel>(
            bulk::substituted_items(items, known)->Ok_0[k],
        ),
    decreases items.len(),
{
    lemma_as_many_items(items.drop_last(), known);
    if k < items.len() - 1 {
        lemma_item_substituted(items.drop_last(), known, k);
    }
}

proof fn lemma_member_substituted(
    members: Seq<(Seq<char>, Json)>,
    known: Map<Seq<char>, Seq<char>>,
    k: int,
)
    requires
        0 <= k < members.len(),
        bulk::substituted_members(members, known) is Ok,
    ensures
        bulk::substituted(members[k].1, known) == Ok::<Json, BulkErrorModel>(
            bulk::substituted_members(members, known)->Ok_0[k],
        ),
    decreases members.len(),
{
    lemma_as_many_members(members.drop_last(), known);
    if k < members.len() - 1 {
        lemma_member_substituted(members.drop_last(), known, k);
    }
}

/// Substitution fails exactly where a document refers to a `bulkId` whose identifier is not known,
/// and the error names such a one.
pub proof fn law_substitution_fails_on_unknown_references(
    doc: Json,
    known: Map<Seq<char>, Seq<char>>,
)
    ensures
        bulk::substituted(doc, known) is Ok <==> forall|id: Seq<char>| #[trigger]
            mentions(doc, id) ==> known.contains_key(id),
        bulk::substituted(doc, known) matches Err(e) ==> exists|id: Seq<char>| #[trigger]
            mentions(doc, id) && !known.contains_key(id) && e == BulkErrorModel::UnresolvedBulkId(
                id,
            ),
{
    let refs = bulk::references(doc);
    bulk_laws::law_substitution_succeeds_when_all_known(doc, known);
    if bulk::substituted(doc, known) is Ok {
        assert forall|id: Seq<char>| #[trigger] mentions(doc, id) implies known.contains_key(
            id,
        ) by {
            law_references_are_found_everywhere(doc, id);
            let k = choose|k: int| 0 <= k < refs.len() && refs[k] == id;
            assert(known.contains_key(refs[k]));
        }
    } else {
        lemma_unknown_named(doc, known);
    }
}

proof fn lemma_unknown_named(doc: Json, known: Map<Seq<char>, Seq<char>>)
    requires
        bulk::substituted(doc, known) is Err,
    ensures
        exists|id: Seq<char>| #[trigger]
            mentions(doc, id) && !known.contains_key(id) && bulk::substituted(doc, known)->Err_0
                == BulkErrorModel::UnresolvedBulkId(id),
    decreases doc,
{
    match doc {
        Json::String(s) => {
            let id = bulk::referenced(s)->0;
            lemma_referenced(s, id);
            lemma_mentions_text(s, id);
        },
        Json::Array(items) => {
            let k = lemma_failing_item(items, known);
            let id = choose|id: Seq<char>| #[trigger]
                mentions(items[k], id) && !known.contains_key(id) && bulk::substituted_items(
                    items,
                    known,
                )->Err_0 == BulkErrorModel::UnresolvedBulkId(id);
            lemma_mentions_item(items, k, id);
        },
        Json::Object(members) => {
            let k = lemma_failing_member(members, known);
            let id = choose|id: Seq<char>| #[trigger]
                mentions(members[k].1, id) && !known.contains_key(id) && bulk::substituted_members(
                    members,
                    known,
                )->Err_0 == BulkErrorModel::UnresolvedBulkId(id);
            lemma_mentions_member(members, k, id);
        },
        _ => {},
    }
}

proof fn lemma_failing_item(items: Seq<Json>, known: Map<Seq<char>, Seq<char>>) -> (k: int)
    requires
        bulk::substituted_items(items, known) is Err,
    ensures
        0 <= k < items.len(),
        exists|id: Seq<char>| #[trigger]
            mentions(items[k], id) && !known.contains_key(id) && bulk::substituted_items(
                items,
                known,
            )->Err_0 == BulkErrorModel::UnresolvedBulkId(id),
    decreases items,
{
    if bulk::substituted_items(items.drop_last(), known) is Err {
        let k = lemma_failing_item(items.drop_last(), known);
        assert(items.drop_last()[k] == items[k]);
        k
    } else {
        lemma_unknown_named(items.last(), known);
        items.len() - 1
    }
}

proof fn lemma_failing_member(
    members: Seq<(Seq<char>, Json)>,
    known: Map<Seq<char>, Seq<char>>,
) -> (k: int)
    requires
        bulk::substituted_members(members, known) is Err,
    ensures
        0 <= k < members.len(),
        exists|id: Seq<char>| #[trigger]
            mentions(members[k].1, id) && !known.contains_key(id) && bulk::substituted_members(
                members,
                known,
            )->Err_0 == BulkErrorModel::UnresolvedBulkId(id),
    decreases members,
{
    if bulk::substituted_members(members.drop_last(), known) is Err {
        let k = lemma_failing_member(members.drop_last(), known);
        assert(members.drop_last()[k] == members[k]);
        k
    } else {
        lemma_unknown_named(members.last().1, known);
        members.len() - 1
    }
}

// ---- Orders and refusals ----

/// Whether the operation at `i` is a POST that declares no `bulkId`.
pub open spec fn lacks_id(ops: Seq<BulkOperationModel>, i: int) -> bool {
    0 <= i < ops.len() && ops[i].method == BulkMethod::Post && ops[i].bulk_id is None
}

/// Whether the operation at `i` declares the `bulkId` of an earlier one.
pub open spec fn repeats_id(ops: Seq<BulkOperationModel>, i: int) -> bool {
    0 <= i < ops.len() && ops[i].bulk_id is Some && exists|j: int|
        0 <= j < i && (#[trigger] ops[j]).bulk_id == ops[i].bulk_id
}

/// Whether no operation before `end` lacks a `bulkId` that it needs or repeats one.
pub open spec fn declared_well(ops: Seq<BulkOperationModel>, end: int) -> bool {
    forall|i: int|
        0 <= i < end ==> !#[trigger] lacks_id(ops, i) && !repeats_id(ops, i)
}

/// Whether an operation of the request declares a `bulkId`.
pub open spec fn is_declared(ops: Seq<BulkOperationModel>, id: Seq<char>) -> bool {
    exists|j: int| 0 <= j < ops.len() && (#[trigger] ops[j]).bulk_id == Some(id)
}

/// Whether the operations before `end` refer only to what is declared.
pub open spec fn refers_well(ops: Seq<BulkOperationModel>, end: int) -> bool {
    forall|i: int, id: Seq<char>|
        0 <= i < end && #[trigger] uses(ops[i], id) ==> is_declared(ops, id)
}

/// Whether the operation at `i` refers to what the one at `j` declares.
pub open spec fn needs(ops: Seq<BulkOperationModel>, i: int, j: int) -> bool {
    &&& 0 <= i < ops.len()
    &&& 0 <= j < ops.len()
    &&& ops[j].bulk_id is Some
    &&& uses(ops[i], ops[j].bulk_id->0)
}

/// Whether the operations can be ranked so that each refers to lower ones alone.
pub open spec fn is_ranked(ops: Seq<BulkOperationModel>, rank: spec_fn(int) -> nat) -> bool {
    forall|i: int, j: int| #[trigger] needs(ops, i, j) ==> rank(j) < rank(i)
}

proof fn lemma_needs(ops: Seq<BulkOperationModel>, i: int, j: int)
    ensures
        bulk::depends(ops, i, j) <==> needs(ops, i, j),
{
    if 0 <= i < ops.len() {
        let refs = bulk::operation_references(ops[i]);
        if bulk::depends(ops, i, j) {
            let k = choose|k: int| 0 <= k < refs.len() && bulk::declares(ops, j, #[trigger] refs[k]);
            assert(refs.contains(refs[k]));
            law_references_are_found_everywhere(ops[i].data->0, refs[k]);
        }
        if needs(ops, i, j) {
            let id = ops[j].bulk_id->0;
            law_references_are_found_everywhere(ops[i].data->0, id);
            let k = choose|k: int| 0 <= k < refs.len() && refs[k] == id;
            assert(bulk::declares(ops, j, refs[k]));
        }
    }
}

proof fn lemma_declared_before(ops: Seq<BulkOperationModel>, i: int)
    requires
        0 <= i < ops.len(),
        ops[i].bulk_id is Some,
    ensures
        bulk::declared_before(ops, i, ops[i].bulk_id->0) <==> repeats_id(ops, i),
{
    let id = ops[i].bulk_id->0;
    if bulk::declared_before(ops, i, id) {
        let j = choose|j: int| j < i && #[trigger] bulk::declares(ops, j, id);
        assert(ops[j].bulk_id == ops[i].bulk_id);
    }
    if repeats_id(ops, i) {
        let j = choose|j: int| 0 <= j < i && (#[trigger] ops[j]).bulk_id == ops[i].bulk_id;
        assert(bulk::declares(ops, j, id));
    }
}

proof fn lemma_declarations(ops: Seq<BulkOperationModel>, from: int) -> (at: int)
    requires
        0 <= from <= ops.len(),
        declared_well(ops, from),
    ensures
        from <= at <= ops.len(),
        declared_well(ops, at),
        at == ops.len() ==> bulk::declaration_refusal(ops, from) is None,
        at < ops.len() ==> {
            ||| lacks_id(ops, at) && bulk::declaration_refusal(ops, from) == Some(
                BulkErrorModel::MissingBulkIdOnPost(at),
            )
            ||| repeats_id(ops, at) && bulk::declaration_refusal(ops, from) == Some(
                BulkErrorModel::DuplicateBulkId(ops[at].bulk_id->0),
            )
        },
    decreases ops.len() - from,
{
    if from == ops.len() {
        from
    } else {
        if ops[from].bulk_id is Some {
            lemma_declared_before(ops, from);
        }
        if lacks_id(ops, from) || repeats_id(ops, from) {
            from
        } else {
            assert(declared_well(ops, from + 1));
            lemma_declarations(ops, from + 1)
        }
    }
}

proof fn lemma_not_at_fault(ops: Seq<BulkOperationModel>, end: int, i: int)
    requires
        declared_well(ops, end),
        0 <= i < end,
    ensures
        !lacks_id(ops, i),
        !repeats_id(ops, i),
{
    assert(!lacks_id(ops, i));
}

proof fn lemma_is_declared(ops: Seq<BulkOperationModel>, id: Seq<char>)
    ensures
        bulk::declared_before(ops, ops.len() as int, id) <==> is_declared(ops, id),
{
    if bulk::declared_before(ops, ops.len() as int, id) {
        let j = choose|j: int| j < ops.len() && #[trigger] bulk::declares(ops, j, id);
        assert(ops[j].bulk_id == Some(id));
    }
    if is_declared(ops, id) {
        let j = choose|j: int| 0 <= j < ops.len() && (#[trigger] ops[j]).bulk_id == Some(id);
        assert(bulk::declares(ops, j, id));
    }
}

proof fn lemma_undeclared(ops: Seq<BulkOperationModel>, refs: Seq<Seq<char>>, from: int)
    requires
        0 <= from <= refs.len(),
        forall|k: int| 0 <= k < from ==> is_declared(ops, #[trigger] refs[k]),
    ensures
        match bulk::undeclared(ops, refs, from) {
            None => forall|k: int| 0 <= k < refs.len() ==> is_declared(ops, #[trigger] refs[k]),
            Some(id) => refs.contains(id) && !is_declared(ops, id),
        },
    decreases refs.len() - from,
{
    if from < refs.len() {
        lemma_is_declared(ops, refs[from]);
        if is_declared(ops, refs[from]) {
            lemma_undeclared(ops, refs, from + 1);
        } else {
            assert(refs.contains(refs[from]));
        }
    }
}

proof fn lemma_references(ops: Seq<BulkOperationModel>, from: int) -> (at: int)
    requires
        0 <= from <= ops.len(),
        refers_well(ops, from),
    ensures
        from <= at <= ops.len(),
        refers_well(ops, at),
        at == ops.len() ==> bulk::reference_refusal(ops, from) is None,
        at < ops.len() ==> exists|id: Seq<char>| #[trigger]
            uses(ops[at], id) && !is_declared(ops, id) && bulk::reference_refusal(ops, from)
                == Some(BulkErrorModel::UnresolvedBulkId(id)),
    decreases ops.len() - from,
{
    if from == ops.len() {
        from
    } else {
        let refs = bulk::operation_references(ops[from]);
        lemma_undeclared(ops, refs, 0);
        match bulk::undeclared(ops, refs, 0) {
            Some(id) => {
                law_references_are_found_everywhere(ops[from].data->0, id);
                assert(uses(ops[from], id));
                from
            },
            None => {
                assert forall|i: int, id: Seq<char>|
                    0 <= i < from + 1 && #[trigger] uses(ops[i], id) implies is_declared(
                    ops,
                    id,
                ) by {
                    if i == from {
                        law_references_are_found_everywhere(ops[from].data->0, id);
                        let k = choose|k: int| 0 <= k < refs.len() && refs[k] == id;
                        assert(is_declared(ops, refs[k]));
                    }
                }
                lemma_references(ops, from + 1)
            },
        }
    }
}

proof fn lemma_rank_finds_ready(
    ops: Seq<BulkOperationModel>,
    rank: spec_fn(int) -> nat,
    done: Seq<int>,
    i: int,
) -> (next: int)
    requires
        is_ranked(ops, rank),
        0 <= i < ops.len(),
        !done.contains(i),
    ensures
        bulk::ready(ops, done, next),
    decreases rank(i),
{
    if forall|j: int| #[trigger] bulk::depends(ops, i, j) ==> done.contains(j) {
        i
    } else {
        let j = choose|j: int| #[trigger] bulk::depends(ops, i, j) && !done.contains(j);
        lemma_needs(ops, i, j);
        lemma_rank_finds_ready(ops, rank, done, j)
    }
}

proof fn lemma_someone_left(done: Seq<int>, n: int) -> (i: int)
    requires
        0 <= done.len() < n,
    ensures
        0 <= i < n,
        !done.contains(i),
{
    if forall|i: int| 0 <= i < n ==> done.contains(i) {
        let all = vstd::set_lib::set_int_range(0, n);
        vstd::set_lib::lemma_int_range(0, n);
        done.lemma_cardinality_of_set();
        assert(all.subset_of(done.to_set())) by {
            assert forall|i: int| all.contains(i) implies done.to_set().contains(i) by {
                assert(done.contains(i));
            }
        }
        vstd::set_lib::lemma_len_subset(all, done.to_set());
    }
    choose|i: int| 0 <= i < n && !done.contains(i)
}

proof fn lemma_rank_gives_schedule(
    ops: Seq<BulkOperationModel>,
    rank: spec_fn(int) -> nat,
    done: Seq<int>,
) -> (order: Seq<int>)
    requires
        is_ranked(ops, rank),
        bulk::runs_in_order(ops, done),
        done.len() <= ops.len(),
    ensures
        bulk::is_schedule(ops, order),
    decreases ops.len() - done.len(),
{
    if done.len() == ops.len() {
        done
    } else {
        let i = lemma_someone_left(done, ops.len() as int);
        let next = lemma_rank_finds_ready(ops, rank, done, i);
        let more = done.push(next);
        assert forall|k: int| 0 <= k < more.len() implies bulk::ready(
            ops,
            #[trigger] more.take(k),
            more[k],
        ) by {
            if k < done.len() {
                assert(more.take(k) =~= done.take(k));
            } else {
                assert(more.take(k) =~= done);
            }
        }
        lemma_rank_gives_schedule(ops, rank, more)
    }
}

/// A request is put in order where its POSTs all declare a `bulkId`, no `bulkId` is declared twice,
/// all references are to declared ones, and operations can be ranked so that each refers to lower
/// ones alone.
pub proof fn law_sound_requests_are_ordered(
    ops: Seq<BulkOperationModel>,
    rank: spec_fn(int) -> nat,
    answer: Result<Seq<int>, BulkErrorModel>,
)
    requires
        bulk::is_answer(ops, answer),
        forall|i: int|
            0 <= i < ops.len() && (#[trigger] ops[i]).method == BulkMethod::Post
                ==> ops[i].bulk_id is Some,
        forall|i: int, j: int|
            0 <= i < j < ops.len() && (#[trigger] ops[i]).bulk_id is Some ==> ops[i].bulk_id != (
            #[trigger] ops[j]).bulk_id,
        refers_well(ops, ops.len() as int),
        is_ranked(ops, rank),
    ensures
        answer is Ok,
{
    let at = lemma_declarations(ops, 0);
    if at < ops.len() && repeats_id(ops, at) {
        let j = choose|j: int| 0 <= j < at && (#[trigger] ops[j]).bulk_id == ops[at].bulk_id;
        assert(ops[j].bulk_id != ops[at].bulk_id);
    }
    lemma_references(ops, 0);
    let order = lemma_rank_gives_schedule(ops, rank, Seq::empty());
    assert(bulk::is_schedule(ops, order));
}

/// The refusal for a missing `bulkId` is given for the first operation at fault, where that is a
/// POST without one.
pub proof fn law_missing_ids_are_refused(
    ops: Seq<BulkOperationModel>,
    answer: Result<Seq<int>, BulkErrorModel>,
    i: int,
)
    requires
        bulk::is_answer(ops, answer),
    ensures
        answer == Err::<Seq<int>, _>(BulkErrorModel::MissingBulkIdOnPost(i)) <==> lacks_id(ops, i)
            && declared_well(ops, i),
{
    let at = lemma_declarations(ops, 0);
    let other = lemma_references(ops, 0);
    if lacks_id(ops, i) && declared_well(ops, i) && at != i {
        if at < i {
            lemma_not_at_fault(ops, i, at);
        } else {
            lemma_not_at_fault(ops, at, i);
        }
    }
}

/// The refusal for a repeated `bulkId` is given for the first operation at fault, where that
/// declares one again.
pub proof fn law_repeated_ids_are_refused(
    ops: Seq<BulkOperationModel>,
    answer: Result<Seq<int>, BulkErrorModel>,
    id: Seq<char>,
)
    requires
        bulk::is_answer(ops, answer),
    ensures
        answer == Err::<Seq<int>, _>(BulkErrorModel::DuplicateBulkId(id)) <==> exists|i: int|
            #[trigger] repeats_id(ops, i) && ops[i].bulk_id == Some(id) && declared_well(ops, i),
{
    let at = lemma_declarations(ops, 0);
    let other = lemma_references(ops, 0);
    if exists|i: int|
        #[trigger] repeats_id(ops, i) && ops[i].bulk_id == Some(id) && declared_well(ops, i) {
        let i = choose|i: int|
            #[trigger] repeats_id(ops, i) && ops[i].bulk_id == Some(id) && declared_well(ops, i);
        if at < i {
            lemma_not_at_fault(ops, i, at);
        } else if i < at {
            lemma_not_at_fault(ops, at, i);
        }
    }
}

/// The refusal for an unresolved reference is given where the declarations are sound and the first
/// operation that refers to what none declares refers to this; and some such refusal is given where
/// there is one.
pub proof fn law_undeclared_references_are_refused(
    ops: Seq<BulkOperationModel>,
    answer: Result<Seq<int>, BulkErrorModel>,
    id: Seq<char>,
)
    requires
        bulk::is_answer(ops, answer),
    ensures
        answer == Err::<Seq<int>, _>(BulkErrorModel::UnresolvedBulkId(id)) ==> declared_well(
            ops,
            ops.len() as int,
        ) && !is_declared(ops, id) && exists|i: int|
            0 <= i < ops.len() && #[trigger] uses(ops[i], id) && refers_well(ops, i),
        (answer matches Err(BulkErrorModel::UnresolvedBulkId(_))) <==> declared_well(
            ops,
            ops.len() as int,
        ) && !refers_well(ops, ops.len() as int),
{
    let at = lemma_declarations(ops, 0);
    let other = lemma_references(ops, 0);
    if at < ops.len() {
        if declared_well(ops, ops.len() as int) {
            lemma_not_at_fault(ops, ops.len() as int, at);
        }
    } else if other < ops.len() {
        let found = choose|found: Seq<char>| #[trigger]
            uses(ops[other], found) && !is_declared(ops, found) && bulk::reference_refusal(ops, 0)
                == Some(BulkErrorModel::UnresolvedBulkId(found));
        assert(uses(ops[other], found));
    }
}

/// The refusal for a circle is given where nothing else is wrong and the operations cannot be
/// ranked.
pub proof fn law_circles_are_refused(
    ops: Seq<BulkOperationModel>,
    answer: Result<Seq<int>, BulkErrorModel>,
)
    requires
        bulk::is_answer(ops, answer),
    ensures
        answer == Err::<Seq<int>, _>(BulkErrorModel::CircularReference) <==> declared_well(
            ops,
            ops.len() as int,
        ) && refers_well(ops, ops.len() as int) && !exists|rank: spec_fn(int) -> nat| #[trigger]
            is_ranked(ops, rank),
{
    let at = lemma_declarations(ops, 0);
    let other = lemma_references(ops, 0);
    if at < ops.len() && declared_well(ops, ops.len() as int) {
        lemma_not_at_fault(ops, ops.len() as int, at);
    }
    if at == ops.len() && other < ops.len() {
        let found = choose|found: Seq<char>| #[trigger]
            uses(ops[other], found) && !is_declared(ops, found);
        assert(uses(ops[other], found));
    }
    if exists|rank: spec_fn(int) -> nat| #[trigger] is_ranked(ops, rank) {
        let rank = choose|rank: spec_fn(int) -> nat| #[trigger] is_ranked(ops, rank);
        let order = lemma_rank_gives_schedule(ops, rank, Seq::empty());
        assert(bulk::is_schedule(ops, order));
    }
    if let Ok(order) = answer {
        bulk_laws::law_schedule_runs_every_operation_once(ops, order);
        let rank = |i: int| order.index_of(i) as nat;
        assert forall|i: int, j: int| #[trigger] needs(ops, i, j) implies rank(j) < rank(i) by {
            lemma_needs(ops, i, j);
            assert(order.contains(i) && order.contains(j));
            let k = order.index_of(i);
            assert(0 <= k < order.len() && order[k] == i);
            bulk_laws::law_referenced_operations_run_first(ops, order, k, j);
            let a = choose|a: int| 0 <= a < k && order[a] == j;
            assert(0 <= order.index_of(j) < order.len() && order[order.index_of(j)] == j);
            assert(order.index_of(j) == a);
        }
        assert(is_ranked(ops, rank));
    }
}

/// An order that a request is put in runs every operation once, each after all that it refers to;
/// and no other operation that could have run, and was submitted earlier, is passed over.
pub proof fn law_orders_follow_references(
    ops: Seq<BulkOperationModel>,
    order: Seq<int>,
    a: int,
    b: int,
)
    requires
        bulk::is_answer(ops, Ok(order)),
        0 <= a < order.len(),
        0 <= b < order.len(),
    ensures
        order.len() == ops.len(),
        0 <= order[a] < ops.len(),
        a != b ==> order[a] != order[b],
        needs(ops, order[a], order[b]) ==> b < a,
        a < b && order[b] < order[a] ==> exists|c: int|
            a <= c < b && #[trigger] needs(ops, order[b], order[c]),
{
    bulk_laws::law_schedule_runs_every_operation_once(ops, order);
    assert(order.contains(order[a]));
    if needs(ops, order[a], order[b]) {
        lemma_needs(ops, order[a], order[b]);
        bulk_laws::law_referenced_operations_run_first(ops, order, a, order[b]);
        let c = choose|c: int| 0 <= c < a && order[c] == order[b];
        assert(c == b);
    }
    if a < b && order[b] < order[a] {
        let i = order[b];
        let done = order.take(a);
        assert(bulk::ready(ops, order.take(b), i));
        assert(!bulk::ready(ops, done, i));
        if done.contains(i) {
            let c = choose|c: int| 0 <= c < done.len() && done[c] == i;
            assert(order[c] == order[b]);
        }
        let j = choose|j: int| #[trigger] bulk::depends(ops, i, j) && !done.contains(j);
        assert(order.take(b).contains(j));
        let c = choose|c: int| 0 <= c < order.take(b).len() && order.take(b)[c] == j;
        assert(order[c] == j);
        if c < a {
            assert(done[c] == j);
        }
        lemma_needs(ops, order[b], order[c]);
    }
}

/// A request is within its limits exactly where it has no more operations and no more bytes than
/// allowed, and is called too large otherwise.
pub proof fn law_limits_are_inclusive(operations: nat, max_operations: u32, max_bytes: u64, bytes: u64)
    ensures
        bulk::limits_refusal(operations, max_operations, max_bytes, bytes) is None <==> operations
            <= max_operations && bytes <= max_bytes,
        bulk::limits_refusal(operations, max_operations, max_bytes, bytes) matches Some(e)
            ==> e is TooLarge,
{
}

/// A status is read alike from a bare code and from an object with it; the object may add a
/// description. Without a textual code it is no status.
pub proof fn law_statuses_are_read_from_both_forms(
    code: Seq<char>,
    description: Seq<char>,
    value: Json,
)
    ensures
        bulk::status_of(Json::String(code)) == Ok::<_, BulkStatusError>(
            BulkStatusModel { code, description: None },
        ),
        bulk::status_of(Json::Object(seq![("code"@, Json::String(code))])) == bulk::status_of(
            Json::String(code),
        ),
        bulk::status_of(
            Json::Object(
                seq![
                    ("code"@, Json::String(code)),
                    ("description"@, Json::String(description)),
                ],
            ),
        ) == Ok::<_, BulkStatusError>(
            BulkStatusModel { code, description: Some(description) },
        ),
        bulk::status_of(value) is Ok <==> value is String || (value.get("code"@) is Some
            && value.get("code"@)->0 is String),
        bulk::status_of(value) is Err ==> bulk::status_of(value)->Err_0 == (if value is Object {
            BulkStatusError::MissingCode
        } else {
            BulkStatusError::NotStringOrObject
        }),
{
    reveal_strlit("code");
    reveal_strlit("description");
    reveal_with_fuel(json::lookup, 3);
    assert("code"@.len() != "description"@.len());
    let one = seq![("code"@, Json::String(code))];
    let two = seq![("code"@, Json::String(code)), ("description"@, Json::String(description))];
    assert(one.skip(1) =~= Seq::empty());
    assert(two.skip(1) =~= seq![("description"@, Json::String(description))]);
    assert(json::lookup(one, "description"@) is None);
    assert(json::lookup(two, "description"@) == Some(Json::String(description)));
}

} // verus!
