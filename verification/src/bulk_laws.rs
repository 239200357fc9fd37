//! What holds of every bulk request.

use crate::bulk;
use crate::bulk::{BulkErrorModel, BulkOperationModel};
use crate::json;
use crate::json::Json;
use vstd::prelude::*;

verus! {

/// A schedule runs every operation of the request, and none twice.
pub proof fn law_schedule_runs_every_operation_once(ops: Seq<BulkOperationModel>, order: Seq<int>)
    requires
        bulk::is_schedule(ops, order),
    ensures
        order.no_duplicates(),
        forall|i: int| 0 <= i < ops.len() <==> #[trigger] order.contains(i),
{
    assert forall|a: int, b: int| 0 <= a < b < order.len() implies order[a] != order[b] by {
        assert(bulk::ready(ops, order.take(b), order[b]));
        assert(order.take(b)[a] == order[a]);
    }
    assert forall|k: int| 0 <= k < order.len() implies 0 <= #[trigger] order[k] < ops.len() by {
        assert(bulk::ready(ops, order.take(k), order[k]));
    }
    let all = vstd::set_lib::set_int_range(0, ops.len() as int);
    vstd::set_lib::lemma_int_range(0, ops.len() as int);
    order.unique_seq_to_set();
    assert(order.to_set().subset_of(all)) by {
        assert forall|x: int| order.to_set().contains(x) implies all.contains(x) by {
            let a = choose|a: int| 0 <= a < order.len() && order[a] == x;
            assert(0 <= order[a] < ops.len());
        }
    }
    vstd::set_lib::lemma_subset_equality(order.to_set(), all);
    assert forall|i: int| 0 <= i < ops.len() <==> #[trigger] order.contains(i) by {
        assert(all.contains(i) <==> order.to_set().contains(i));
    }
}

/// In a schedule every operation comes after those that it refers to.
pub proof fn law_referenced_operations_run_first(
    ops: Seq<BulkOperationModel>,
    order: Seq<int>,
    k: int,
    j: int,
)
    requires
        bulk::is_schedule(ops, order),
        0 <= k < order.len(),
        bulk::depends(ops, order[k], j),
    ensures
        exists|a: int| 0 <= a < k && order[a] == j,
{
    assert(bulk::ready(ops, order.take(k), order[k]));
    let a = choose|a: int| 0 <= a < order.take(k).len() && order.take(k)[a] == j;
    assert(order[a] == j);
}

/// Operations that refer only to earlier ones run exactly as they were submitted.
pub proof fn law_submitted_order_is_kept(ops: Seq<BulkOperationModel>, order: Seq<int>, k: int)
    requires
        bulk::is_schedule(ops, order),
        bulk::picks_first_ready(ops, order),
        forall|i: int, j: int| #[trigger] bulk::depends(ops, i, j) ==> 0 <= j < i,
        0 <= k < order.len(),
    ensures
        order[k] == k,
    decreases k,
{
    assert forall|a: int| 0 <= a < k implies order[a] == a by {
        law_submitted_order_is_kept(ops, order, a);
    }
    let done = order.take(k);
    assert forall|j: int| 0 <= j < k implies #[trigger] done.contains(j) by {
        assert(done[j] == j);
    }
    assert(bulk::ready(ops, done, k));
    assert(bulk::ready(ops, done, order[k]));
    if order[k] < k {
        assert(done.contains(order[k]));
    }
}

/// An operation runs before a later one where all that it needs, directly or not, was submitted
/// before that later one too: operations change places only to wait for what they refer to.
pub proof fn law_no_operation_is_overtaken(
    ops: Seq<BulkOperationModel>,
    order: Seq<int>,
    needed: Set<int>,
    a: int,
    b: int,
)
    requires
        bulk::is_schedule(ops, order),
        bulk::picks_first_ready(ops, order),
        0 <= a < order.len(),
        0 <= b < order.len(),
        needed.contains(order[a]),
        forall|x: int, y: int|
            needed.contains(x) && #[trigger] bulk::depends(ops, x, y) ==> needed.contains(y),
        forall|x: int| #[trigger] needed.contains(x) ==> x < order[b],
    ensures
        a < b,
    decreases a,
{
    if b <= a {
        if exists|q: int| b <= q < a && needed.contains(#[trigger] order[q]) {
            let q = choose|q: int| b <= q < a && needed.contains(#[trigger] order[q]);
            law_no_operation_is_overtaken(ops, order, needed, q, b);
        } else {
            let x = order[a];
            let done = order.take(b);
            assert(bulk::ready(ops, order.take(a), x));
            assert(!done.contains(x)) by {
                if done.contains(x) {
                    let q = choose|q: int| 0 <= q < done.len() && done[q] == x;
                    assert(order.take(a)[q] == x);
                }
            }
            assert forall|y: int| #[trigger] bulk::depends(ops, x, y) implies done.contains(y) by {
                assert(needed.contains(y));
                assert(order.take(a).contains(y));
                let q = choose|q: int| 0 <= q < order.take(a).len() && order.take(a)[q] == y;
                assert(order[q] == y);
                assert(done[q] == y);
            }
            assert(bulk::ready(ops, done, x));
        }
    }
}

/// A request has at most one schedule that always goes on with the first operation that can run.
pub proof fn law_schedule_is_determined(
    ops: Seq<BulkOperationModel>,
    a: Seq<int>,
    b: Seq<int>,
    k: int,
)
    requires
        bulk::is_schedule(ops, a),
        bulk::is_schedule(ops, b),
        bulk::picks_first_ready(ops, a),
        bulk::picks_first_ready(ops, b),
        0 <= k < a.len(),
    ensures
        a[k] == b[k],
    decreases k,
{
    assert forall|i: int| 0 <= i < k implies a[i] == b[i] by {
        law_schedule_is_determined(ops, a, b, i);
    }
    assert(a.take(k) =~= b.take(k));
    assert(bulk::ready(ops, a.take(k), a[k]));
    assert(bulk::ready(ops, b.take(k), b[k]));
}

/// An operation that refers to itself can never run.
pub proof fn law_self_reference_is_circular(
    ops: Seq<BulkOperationModel>,
    i: int,
    order: Seq<int>,
)
    requires
        bulk::depends(ops, i, i),
    ensures
        !bulk::is_schedule(ops, order),
{
    if bulk::is_schedule(ops, order) {
        law_schedule_runs_every_operation_once(ops, order);
        assert(order.contains(i));
        let k = choose|k: int| 0 <= k < order.len() && order[k] == i;
        assert(bulk::ready(ops, order.take(k), order[k]));
    }
}

/// Whether every one of `refs` has a known identifier.
pub open spec fn all_known(refs: Seq<Seq<char>>, known: Map<Seq<char>, Seq<char>>) -> bool {
    forall|k: int| 0 <= k < refs.len() ==> known.contains_key(#[trigger] refs[k])
}

proof fn lemma_all_known_add(
    a: Seq<Seq<char>>,
    b: Seq<Seq<char>>,
    known: Map<Seq<char>, Seq<char>>,
)
    ensures
        all_known(a + b, known) <==> all_known(a, known) && all_known(b, known),
{
    if all_known(a + b, known) {
        assert forall|k: int| 0 <= k < a.len() implies known.contains_key(#[trigger] a[k]) by {
            assert((a + b)[k] == a[k]);
        }
        assert forall|k: int| 0 <= k < b.len() implies known.contains_key(#[trigger] b[k]) by {
            assert((a + b)[a.len() + k] == b[k]);
        }
    }
}

/// Substitution succeeds exactly where the identifier of every reference is known.
pub proof fn law_substitution_succeeds_when_all_known(
    doc: Json,
    known: Map<Seq<char>, Seq<char>>,
)
    ensures
        bulk::substituted(doc, known) is Ok <==> all_known(bulk::references(doc), known),
    decreases doc,
{
    match doc {
        Json::String(s) => {
            if let Some(id) = bulk::referenced(s) {
                assert(bulk::references(doc)[0] == id);
            }
        },
        Json::Array(items) => {
            lemma_items_succeed(items, known);
        },
        Json::Object(members) => {
            lemma_members_succeed(members, known);
        },
        _ => {},
    }
}

proof fn lemma_items_succeed(items: Seq<Json>, known: Map<Seq<char>, Seq<char>>)
    ensures
        bulk::substituted_items(items, known) is Ok <==> all_known(
            bulk::references_in_items(items),
            known,
        ),
    decreases items,
{
    if items.len() > 0 {
        lemma_items_succeed(items.drop_last(), known);
        law_substitution_succeeds_when_all_known(items.last(), known);
        lemma_all_known_add(
            bulk::references_in_items(items.drop_last()),
            bulk::references(items.last()),
            known,
        );
    }
}

proof fn lemma_members_succeed(
    members: Seq<(Seq<char>, Json)>,
    known: Map<Seq<char>, Seq<char>>,
)
    ensures
        bulk::substituted_members(members, known) is Ok <==> all_known(
            bulk::references_in_members(members),
            known,
        ),
    decreases members,
{
    if members.len() > 0 {
        lemma_members_succeed(members.drop_last(), known);
        law_substitution_succeeds_when_all_known(members.last().1, known);
        lemma_all_known_add(
            bulk::references_in_members(members.drop_last()),
            bulk::references(members.last().1),
            known,
        );
    }
}

/// A document without references is left as it is.
pub proof fn law_substitution_leaves_other_text(doc: Json, known: Map<Seq<char>, Seq<char>>)
    requires
        bulk::references(doc).len() == 0,
    ensures
        bulk::substituted(doc, known) == Ok::<Json, BulkErrorModel>(doc),
    decreases doc,
{
    match doc {
        Json::Array(items) => {
            lemma_items_left(items, known);
        },
        Json::Object(members) => {
            lemma_members_left(members, known);
            let values = Seq::new(members.len(), |i: int| members[i].1);
            assert(json::with_values(members, values) =~= members);
        },
        _ => {},
    }
}

proof fn lemma_items_left(items: Seq<Json>, known: Map<Seq<char>, Seq<char>>)
    requires
        bulk::references_in_items(items).len() == 0,
    ensures
        bulk::substituted_items(items, known) == Ok::<Seq<Json>, BulkErrorModel>(items),
    decreases items,
{
    if items.len() > 0 {
        lemma_items_left(items.drop_last(), known);
        law_substitution_leaves_other_text(items.last(), known);
        assert(items.drop_last().push(items.last()) =~= items);
    } else {
        assert(items =~= Seq::empty());
    }
}

proof fn lemma_members_left(members: Seq<(Seq<char>, Json)>, known: Map<Seq<char>, Seq<char>>)
    requires
        bulk::references_in_members(members).len() == 0,
    ensures
        bulk::substituted_members(members, known) == Ok::<Seq<Json>, BulkErrorModel>(
            Seq::new(members.len(), |i: int| members[i].1),
        ),
    decreases members,
{
    let values = Seq::new(members.len(), |i: int| members[i].1);
    if members.len() > 0 {
        let front = members.drop_last();
        lemma_members_left(front, known);
        law_substitution_leaves_other_text(members.last().1, known);
        assert(Seq::new(front.len(), |i: int| front[i].1).push(members.last().1) =~= values);
    } else {
        assert(values =~= Seq::empty());
    }
}

/// After substitution no reference is left, where no identifier is itself the text of one.
pub proof fn law_substitution_leaves_no_reference(doc: Json, known: Map<Seq<char>, Seq<char>>)
    requires
        forall|id: Seq<char>|
            known.contains_key(id) ==> bulk::referenced(#[trigger] known[id]) is None,
    ensures
        bulk::substituted(doc, known) matches Ok(after) ==> bulk::references(after).len() == 0,
    decreases doc,
{
    match doc {
        Json::Array(items) => {
            lemma_items_no_reference(items, known);
        },
        Json::Object(members) => {
            lemma_members_no_reference(members, known);
        },
        _ => {},
    }
}

proof fn lemma_items_no_reference(items: Seq<Json>, known: Map<Seq<char>, Seq<char>>)
    requires
        forall|id: Seq<char>|
            known.contains_key(id) ==> bulk::referenced(#[trigger] known[id]) is None,
    ensures
        bulk::substituted_items(items, known) matches Ok(after) ==> bulk::references_in_items(
            after,
        ).len() == 0,
    decreases items,
{
    if items.len() > 0 {
        lemma_items_no_reference(items.drop_last(), known);
        law_substitution_leaves_no_reference(items.last(), known);
        if let Ok(front) = bulk::substituted_items(items.drop_last(), known) {
            if let Ok(value) = bulk::substituted(items.last(), known) {
                assert(front.push(value).drop_last() =~= front);
            }
        }
    }
}

proof fn lemma_members_no_reference(
    members: Seq<(Seq<char>, Json)>,
    known: Map<Seq<char>, Seq<char>>,
)
    requires
        forall|id: Seq<char>|
            known.contains_key(id) ==> bulk::referenced(#[trigger] known[id]) is None,
    ensures
        bulk::substituted_members(members, known) matches Ok(values) ==> values.len()
            == members.len() && bulk::references_in_members(
            json::with_values(members, values),
        ).len() == 0,
    decreases members,
{
    if members.len() > 0 {
        let front = members.drop_last();
        lemma_members_no_reference(front, known);
        law_substitution_leaves_no_reference(members.last().1, known);
        if let Ok(values) = bulk::substituted_members(front, known) {
            if let Ok(value) = bulk::substituted(members.last().1, known) {
                let after = json::with_values(members, values.push(value));
                assert(after.drop_last() =~= json::with_values(front, values));
                assert(after.last().1 == value);
            }
        }
    }
}

proof fn lemma_reference_declared(ops: Seq<BulkOperationModel>, from: int, i: int, k: int)
    requires
        bulk::reference_refusal(ops, from) is None,
        0 <= from <= i < ops.len(),
        0 <= k < bulk::operation_references(ops[i]).len(),
    ensures
        bulk::declared_before(
            ops,
            ops.len() as int,
            bulk::operation_references(ops[i])[k],
        ),
    decreases i - from,
{
    if from < i {
        lemma_reference_declared(ops, from + 1, i, k);
    } else {
        lemma_declared(ops, bulk::operation_references(ops[i]), 0, k);
    }
}

proof fn lemma_declared(ops: Seq<BulkOperationModel>, refs: Seq<Seq<char>>, from: int, k: int)
    requires
        bulk::undeclared(ops, refs, from) is None,
        0 <= from <= k < refs.len(),
    ensures
        bulk::declared_before(ops, ops.len() as int, refs[k]),
    decreases k - from,
{
    if from < k {
        lemma_declared(ops, refs, from + 1, k);
    }
}

/// When the operations run in a schedule, and the identifiers for those that the next operation
/// depends on were noted as they ran, its references can all be replaced.
pub proof fn law_scheduled_references_resolve(
    ops: Seq<BulkOperationModel>,
    order: Seq<int>,
    k: int,
    known: Map<Seq<char>, Seq<char>>,
    data: Json,
)
    requires
        bulk::reference_refusal(ops, 0) is None,
        bulk::is_schedule(ops, order),
        0 <= k < order.len(),
        ops[order[k]].data == Some(data),
        forall|a: int, id: Seq<char>|
            0 <= a < k && bulk::depends(ops, order[k], order[a]) && #[trigger] bulk::declares(
                ops,
                order[a],
                id,
            ) ==> known.contains_key(id),
    ensures
        bulk::substituted(data, known) is Ok,
{
    let i = order[k];
    assert(bulk::ready(ops, order.take(k), i));
    let refs = bulk::references(data);
    assert forall|r: int| 0 <= r < refs.len() implies known.contains_key(#[trigger] refs[r]) by {
        lemma_reference_declared(ops, 0, i, r);
        let j = choose|j: int| j < ops.len() && #[trigger] bulk::declares(ops, j, refs[r]);
        assert(bulk::operation_references(ops[i])[r] == refs[r]);
        assert(bulk::depends(ops, i, j));
        law_referenced_operations_run_first(ops, order, k, j);
        let a = choose|a: int| 0 <= a < k && order[a] == j;
        assert(bulk::declares(ops, order[a], refs[r]));
    }
    law_substitution_succeeds_when_all_known(data, known);
}

} // verus!
