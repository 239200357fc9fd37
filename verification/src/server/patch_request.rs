//! The body of a PATCH request (RFC 7644 §3.5.2): `{"schemas": [...], "Operations": [...]}`.

use crate::json;
use crate::json::{viewed, Json, Value};
use crate::patch;
use crate::patch::{OperationModel, PatchOp, PatchOperation};
use crate::text;
use crate::text::{same_text, to_ascii_lower};
use vstd::prelude::*;

verus! {

/// Why the body of a PATCH request could not be read.
#[derive(Clone, Debug, PartialEq)]
pub enum PatchRequestError {
    MissingOperations,
    OperationsNotAnArray,
    MissingOp,
    /// The operation's name, in small letters.
    UnknownOp(String),
}

/// Such an error, as contracts speak of it.
#[verifier::ext_equal]
pub enum RequestErrorModel {
    MissingOperations,
    OperationsNotAnArray,
    MissingOp,
    UnknownOp(Seq<char>),
}

impl View for PatchRequestError {
    type V = RequestErrorModel;

    open spec fn view(&self) -> RequestErrorModel {
        match self {
            PatchRequestError::MissingOperations => RequestErrorModel::MissingOperations,
            PatchRequestError::OperationsNotAnArray => RequestErrorModel::OperationsNotAnArray,
            PatchRequestError::MissingOp => RequestErrorModel::MissingOp,
            PatchRequestError::UnknownOp(s) => RequestErrorModel::UnknownOp(s@),
        }
    }
}

/// The operation that a name stands for, in any case of its letters.
pub open spec fn op_named(name: Seq<char>) -> Option<PatchOp> {
    let lower = text::ascii_lower(name);
    if lower == "add"@ {
        Some(PatchOp::Add)
    } else if lower == "remove"@ {
        Some(PatchOp::Remove)
    } else if lower == "replace"@ {
        Some(PatchOp::Replace)
    } else {
        None
    }
}

/// The operation that an entry of `Operations` stands for. A path that is no text counts as none.
pub open spec fn operation_of(raw: Json) -> Result<OperationModel, RequestErrorModel> {
    match raw.get("op"@) {
        Some(Json::String(name)) => match op_named(name) {
            None => Err(RequestErrorModel::UnknownOp(text::ascii_lower(name))),
            Some(op) => Ok(
                OperationModel {
                    op,
                    path: match raw.get("path"@) {
                        Some(Json::String(s)) => Some(s),
                        _ => None,
                    },
                    value: raw.get("value"@),
                },
            ),
        },
        _ => Err(RequestErrorModel::MissingOp),
    }
}

/// The operations that entries stand for, or the first error.
pub open spec fn operations_in(entries: Seq<Json>) -> Result<
    Seq<OperationModel>,
    RequestErrorModel,
>
    decreases entries.len(),
{
    if entries.len() == 0 {
        Ok(Seq::empty())
    } else {
        match operations_in(entries.drop_last()) {
            Err(e) => Err(e),
            Ok(front) => match operation_of(entries.last()) {
                Err(e) => Err(e),
                Ok(op) => Ok(front.push(op)),
            },
        }
    }
}

/// The operations in the body of a PATCH request.
pub open spec fn operations_of(body: Json) -> Result<Seq<OperationModel>, RequestErrorModel> {
    match body.get("Operations"@) {
        None => Err(RequestErrorModel::MissingOperations),
        Some(Json::Array(entries)) => operations_in(entries),
        Some(_) => Err(RequestErrorModel::OperationsNotAnArray),
    }
}

proof fn lemma_first_error(entries: Seq<Json>, k: int)
    requires
        0 <= k <= entries.len(),
        operations_in(entries.take(k)) is Err,
    ensures
        operations_in(entries) == operations_in(entries.take(k)),
    decreases entries.len() - k,
{
    if k == entries.len() {
        assert(entries.take(k) =~= entries);
    } else {
        assert(entries.take(k + 1).drop_last() =~= entries.take(k));
        lemma_first_error(entries, k + 1);
    }
}

fn parse_one(raw: &Value) -> (r: Result<PatchOperation, PatchRequestError>)
    ensures
        (match r {
            Ok(op) => Ok(op@),
            Err(e) => Err(e@),
        }) == operation_of(raw@),
{
    let name = match raw.get("op") {
        Some(Value::String(s)) => s,
        _ => {
            return Err(PatchRequestError::MissingOp);
        },
    };
    let lower = to_ascii_lower(name.as_str());
    let op = if same_text(&lower, "add") {
        PatchOp::Add
    } else if same_text(&lower, "remove") {
        PatchOp::Remove
    } else if same_text(&lower, "replace") {
        PatchOp::Replace
    } else {
        return Err(PatchRequestError::UnknownOp(lower));
    };
    let path = match raw.get("path") {
        Some(Value::String(s)) => Some(s.clone()),
        _ => None,
    };
    let value = match raw.get("value") {
        Some(v) => Some(v.clone()),
        None => None,
    };
    Ok(PatchOperation { op, path, value })
}

/// Reads the operations out of the body of a PATCH request.
pub fn parse_patch_operations(body: &Value) -> (r: Result<Vec<PatchOperation>, PatchRequestError>)
    ensures
        (match r {
            Ok(ops) => Ok(patch::operation_views(ops@)),
            Err(e) => Err(e@),
        }) == operations_of(body@),
{
    let entries = match body.get("Operations") {
        None => {
            return Err(PatchRequestError::MissingOperations);
        },
        Some(Value::Array(entries)) => entries,
        Some(_) => {
            return Err(PatchRequestError::OperationsNotAnArray);
        },
    };
    let ghost shown = json::views(entries@);
    let mut ops: Vec<PatchOperation> = Vec::new();
    let mut i: usize = 0;
    assert(patch::operation_views(ops@) =~= Seq::empty());
    while i < entries.len()
        invariant
            i <= entries.len(),
            shown == json::views(entries@),
            shown.len() == entries.len(),
            body@.get("Operations"@) == Some(Json::Array(shown)),
            operations_in(shown.take(i as int)) == Ok::<Seq<OperationModel>, RequestErrorModel>(
                patch::operation_views(ops@),
            ),
        decreases entries.len() - i,
    {
        proof {
            json::lemma_views_index(entries@, i as int);
            assert(shown.take(i + 1).drop_last() =~= shown.take(i as int));
            assert(shown.take(i + 1).last() == shown[i as int]);
        }
        match parse_one(&entries[i]) {
            Ok(op) => {
                let ghost before = patch::operation_views(ops@);
                let ghost added = op@;
                ops.push(op);
                assert(patch::operation_views(ops@) =~= before.push(added));
            },
            Err(e) => {
                proof {
                    lemma_first_error(shown, i + 1);
                }
                return Err(e);
            },
        }
        i += 1;
    }
    assert(shown.take(i as int) =~= shown);
    Ok(ops)
}

/// A body that can be read gives one operation for each entry, in order.
pub proof fn law_every_entry_is_an_operation(entries: Seq<Json>, i: int)
    requires
        operations_in(entries) is Ok,
        0 <= i < entries.len(),
    ensures
        operations_in(entries)->Ok_0.len() == entries.len(),
        operation_of(entries[i]) == Ok::<OperationModel, RequestErrorModel>(
            operations_in(entries)->Ok_0[i],
        ),
    decreases entries.len(),
{
    if entries.len() > 1 {
        if i < entries.len() - 1 {
            law_every_entry_is_an_operation(entries.drop_last(), i);
        } else {
            law_every_entry_is_an_operation(entries.drop_last(), 0);
        }
    } else {
        reveal_with_fuel(operations_in, 2);
        assert(entries.drop_last() =~= Seq::empty());
    }
}

} // verus!
