//! The bulk operations of RFC 7644 §3.7.
//!
//! A caller runs the operations of a request against its own storage in the order that
//! [`order_operations`] gives, and tells a [`BulkIdResolver`] the identifier that each POST was
//! assigned. The `"bulkId:xxx"` references in later operations are then replaced by identifiers
//! before those operations run.

use crate::json;
use crate::json::{viewed, Json, Value};
use crate::number;
use crate::number::decimal_text;
use crate::text;
use crate::text::{chars_of, copy_optional, joined, same_text, starts_with, text_of};
use vstd::prelude::*;

verus! {

pub const BULK_REQUEST_SCHEMA_URI: &'static str =
    "urn:ietf:params:scim:api:messages:2.0:BulkRequest";

pub const BULK_RESPONSE_SCHEMA_URI: &'static str =
    "urn:ietf:params:scim:api:messages:2.0:BulkResponse";

/// The HTTP method of a bulk operation.
#[derive(Clone, Copy, Debug, PartialEq, Eq, Structural)]
pub enum BulkMethod {
    Post,
    Put,
    Patch,
    Delete,
}

/// One operation of a bulk request.
#[derive(Clone, Debug, PartialEq)]
pub struct BulkOperationRequest {
    pub method: BulkMethod,
    pub bulk_id: Option<String>,
    pub version: Option<String>,
    pub path: String,
    pub data: Option<Value>,
}

/// A bulk request.
#[derive(Clone, Debug, PartialEq)]
pub struct BulkRequest {
    pub schemas: Vec<String>,
    pub fail_on_errors: Option<u32>,
    pub operations: Vec<BulkOperationRequest>,
}

/// The status of a bulk operation. It is written as an object with a `code`, as the text of
/// RFC 7644 §3.7.3 has it, and read from that or from a bare string, as some of its examples do.
#[derive(Clone, Debug, PartialEq)]
pub struct BulkStatus {
    pub code: String,
    pub description: Option<String>,
}

/// The outcome of one operation of a bulk request.
#[derive(Clone, Debug, PartialEq)]
pub struct BulkOperationResponse {
    pub location: Option<String>,
    pub method: BulkMethod,
    pub bulk_id: Option<String>,
    pub version: Option<String>,
    pub status: BulkStatus,
    pub response: Option<Value>,
}

/// A bulk response.
#[derive(Clone, Debug, PartialEq)]
pub struct BulkResponse {
    pub schemas: Vec<String>,
    pub operations: Vec<BulkOperationResponse>,
}

/// Why a bulk request cannot be run.
#[derive(Clone, Debug, PartialEq)]
pub enum BulkError {
    /// The POST at this position has no `bulkId`.
    MissingBulkIdOnPost(usize),
    /// Two operations declare the same `bulkId`.
    DuplicateBulkId(String),
    /// A reference to a `bulkId` that no operation declares, or whose identifier is not known.
    UnresolvedBulkId(String),
    /// The operations depend on each other in a circle.
    CircularReference,
    /// The request exceeds a limit of RFC 7644 §3.7.4.
    TooLarge(String),
}

/// A bulk operation, as contracts speak of it.
#[verifier::ext_equal]
pub struct BulkOperationModel {
    pub method: BulkMethod,
    pub bulk_id: Option<Seq<char>>,
    pub version: Option<Seq<char>>,
    pub path: Seq<char>,
    pub data: Option<Json>,
}

/// A status, as contracts speak of it.
#[verifier::ext_equal]
pub struct BulkStatusModel {
    pub code: Seq<char>,
    pub description: Option<Seq<char>>,
}

/// A bulk error, as contracts speak of it.
#[verifier::ext_equal]
pub enum BulkErrorModel {
    MissingBulkIdOnPost(int),
    DuplicateBulkId(Seq<char>),
    UnresolvedBulkId(Seq<char>),
    CircularReference,
    TooLarge(Seq<char>),
}

impl View for BulkOperationRequest {
    type V = BulkOperationModel;

    open spec fn view(&self) -> BulkOperationModel {
        BulkOperationModel {
            method: self.method,
            bulk_id: text::optional_text(self.bulk_id),
            version: text::optional_text(self.version),
            path: self.path@,
            data: (match self.data {
                Some(v) => Some(v@),
                None => None,
            }),
        }
    }
}

impl View for BulkStatus {
    type V = BulkStatusModel;

    open spec fn view(&self) -> BulkStatusModel {
        BulkStatusModel {
            code: self.code@,
            description: text::optional_text(self.description),
        }
    }
}

impl View for BulkError {
    type V = BulkErrorModel;

    open spec fn view(&self) -> BulkErrorModel {
        match self {
            BulkError::MissingBulkIdOnPost(i) => BulkErrorModel::MissingBulkIdOnPost(*i as int),
            BulkError::DuplicateBulkId(id) => BulkErrorModel::DuplicateBulkId(id@),
            BulkError::UnresolvedBulkId(id) => BulkErrorModel::UnresolvedBulkId(id@),
            BulkError::CircularReference => BulkErrorModel::CircularReference,
            BulkError::TooLarge(s) => BulkErrorModel::TooLarge(s@),
        }
    }
}

/// The operations that a sequence of exec operations stands for.
pub open spec fn bulk_views(operations: Seq<BulkOperationRequest>) -> Seq<BulkOperationModel> {
    Seq::new(operations.len(), |i: int| operations[i]@)
}

// ---- Statuses and limits ----

/// Why a value is no status.
#[derive(Clone, Copy, Debug, PartialEq, Eq, Structural)]
pub enum BulkStatusError {
    /// An object without a textual `code`.
    MissingCode,
    /// Neither a string nor an object.
    NotStringOrObject,
}

/// The status that a JSON value stands for: a string is the code, an object has a `code` and may
/// have a `description`.
pub open spec fn status_of(value: Json) -> Result<BulkStatusModel, BulkStatusError> {
    match value {
        Json::String(code) => Ok(BulkStatusModel { code, description: None }),
        Json::Object(members) => match json::lookup(members, "code"@) {
            Some(Json::String(code)) => Ok(
                BulkStatusModel {
                    code,
                    description: match json::lookup(members, "description"@) {
                        Some(Json::String(d)) => Some(d),
                        _ => None,
                    },
                },
            ),
            _ => Err(BulkStatusError::MissingCode),
        },
        _ => Err(BulkStatusError::NotStringOrObject),
    }
}

impl BulkStatus {
    /// A status with a code alone.
    pub fn code(code: &str) -> (s: BulkStatus)
        ensures
            s@ == (BulkStatusModel { code: code@, description: None }),
    {
        BulkStatus { code: code.to_owned(), description: None }
    }

    /// Reads a status in either of its forms.
    pub fn from_value(value: &Value) -> (r: Result<BulkStatus, BulkStatusError>)
        ensures
            (match r {
                Ok(s) => Ok(s@),
                Err(e) => Err(e),
            }) == status_of(value@),
    {
        match value {
            Value::String(code) => Ok(BulkStatus { code: code.clone(), description: None }),
            Value::Object(members) => match members.get("code") {
                Some(Value::String(code)) => {
                    let description = match members.get("description") {
                        Some(Value::String(d)) => Some(d.clone()),
                        _ => None,
                    };
                    Ok(BulkStatus { code: code.clone(), description })
                },
                _ => Err(BulkStatusError::MissingCode),
            },
            _ => Err(BulkStatusError::NotStringOrObject),
        }
    }
}

impl BulkResponse {
    /// A response that reports the given outcomes.
    pub fn new(operations: Vec<BulkOperationResponse>) -> (r: BulkResponse)
        ensures
            text::texts(r.schemas@) == seq![BULK_RESPONSE_SCHEMA_URI@],
            r.operations == operations,
    {
        let r = BulkResponse { schemas: vec![BULK_RESPONSE_SCHEMA_URI.to_owned()], operations };
        assert(text::texts(r.schemas@) =~= seq![BULK_RESPONSE_SCHEMA_URI@]);
        r
    }
}

/// The refusal of a request with too many operations or too large a payload.
pub open spec fn limits_refusal(
    operations: nat,
    max_operations: u32,
    max_payload_size_bytes: u64,
    payload_size_bytes: u64,
) -> Option<BulkErrorModel> {
    if operations > max_operations {
        Some(
            BulkErrorModel::TooLarge(
                "request has "@ + number::digits(operations)
                    + " operations, exceeding the maximum of "@ + number::digits(
                    max_operations as nat,
                ),
            ),
        )
    } else if payload_size_bytes > max_payload_size_bytes {
        Some(
            BulkErrorModel::TooLarge(
                "request payload is "@ + number::digits(payload_size_bytes as nat)
                    + " bytes, exceeding the maximum of "@ + number::digits(
                    max_payload_size_bytes as nat,
                ),
            ),
        )
    } else {
        None
    }
}

/// Holds a request to the limits of RFC 7644 §3.7.4. The size of the payload is the caller's to
/// measure.
pub fn check_limits(
    request: &BulkRequest,
    max_operations: u32,
    max_payload_size_bytes: u64,
    payload_size_bytes: u64,
) -> (r: Result<(), BulkError>)
    ensures
        (match r {
            Ok(_) => None,
            Err(e) => Some(e@),
        }) == limits_refusal(
            request.operations@.len(),
            max_operations,
            max_payload_size_bytes,
            payload_size_bytes,
        ),
{
    let count: u64 = request.operations.len() as u64;
    if count > max_operations as u64 {
        let start = joined("request has ", &decimal_text(count));
        let middle = joined(&start, " operations, exceeding the maximum of ");
        return Err(BulkError::TooLarge(joined(&middle, &decimal_text(max_operations as u64))));
    }
    if payload_size_bytes > max_payload_size_bytes {
        let start = joined("request payload is ", &decimal_text(payload_size_bytes));
        let middle = joined(&start, " bytes, exceeding the maximum of ");
        return Err(BulkError::TooLarge(joined(&middle, &decimal_text(max_payload_size_bytes))));
    }
    Ok(())
}

// ---- References ----

/// What a reference to a `bulkId` begins with.
pub const BULK_ID_PREFIX: &'static str = "bulkId:";

/// The `bulkId` that a text refers to, where it is a reference.
pub open spec fn referenced(s: Seq<char>) -> Option<Seq<char>> {
    if text::begins_with(s, BULK_ID_PREFIX@) {
        Some(s.skip(BULK_ID_PREFIX@.len() as int))
    } else {
        None
    }
}

/// Every reference in a document, in the order in which they stand there.
pub open spec fn references(doc: Json) -> Seq<Seq<char>>
    decreases doc,
{
    match doc {
        Json::String(s) => match referenced(s) {
            Some(id) => seq![id],
            None => Seq::empty(),
        },
        Json::Array(items) => references_in_items(items),
        Json::Object(members) => references_in_members(members),
        _ => Seq::empty(),
    }
}

/// The references in the items of an array.
pub open spec fn references_in_items(items: Seq<Json>) -> Seq<Seq<char>>
    decreases items,
{
    if items.len() == 0 {
        Seq::empty()
    } else {
        references_in_items(items.drop_last()) + references(items.last())
    }
}

/// The references in the members of an object.
pub open spec fn references_in_members(members: Seq<(Seq<char>, Json)>) -> Seq<Seq<char>>
    decreases members,
{
    if members.len() == 0 {
        Seq::empty()
    } else {
        references_in_members(members.drop_last()) + references(members.last().1)
    }
}

/// The references in the data of an operation.
pub open spec fn operation_references(op: BulkOperationModel) -> Seq<Seq<char>> {
    match op.data {
        Some(doc) => references(doc),
        None => Seq::empty(),
    }
}

fn reference_in(s: &str) -> (r: Option<String>)
    ensures
        text::optional_text(r) == referenced(s@),
{
    if starts_with(s, BULK_ID_PREFIX) {
        let chars = chars_of(s);
        let prefix = chars_of(BULK_ID_PREFIX);
        let id = text_of(&chars, prefix.len(), chars.len());
        assert(id@ =~= s@.skip(prefix@.len() as int));
        Some(id)
    } else {
        None
    }
}

/// Appends every reference in `data` to `out`.
pub fn find_bulk_id_refs(data: &Value, out: &mut Vec<String>)
    ensures
        text::texts(final(out)@) == text::texts(old(out)@) + references(data@),
    decreases data,
{
    let ghost before = text::texts(out@);
    match data {
        Value::String(s) => match reference_in(s.as_str()) {
            Some(id) => {
                let ghost shown = id@;
                out.push(id);
                assert(text::texts(out@) =~= before + seq![shown]);
            },
            None => {
                assert(before + Seq::empty() =~= before);
            },
        },
        Value::Array(items) => {
            let ghost shown = json::views(items@);
            let mut i: usize = 0;
            assert(before + references_in_items(shown.take(0)) =~= before);
            while i < items.len()
                invariant
                    *data == Value::Array(*items),
                    i <= items.len(),
                    shown == json::views(items@),
                    shown.len() == items.len(),
                    text::texts(out@) == before + references_in_items(shown.take(i as int)),
                decreases items.len() - i,
            {
                assert(decreases_to!(*data => data->Array_0));
                assert(decreases_to!(items => items@));
                proof {
                    json::lemma_views_index(items@, i as int);
                    assert(shown.take(i + 1).drop_last() =~= shown.take(i as int));
                    assert(shown.take(i + 1).last() == shown[i as int]);
                    assert(before + (references_in_items(shown.take(i as int)) + references(
                        shown[i as int],
                    )) =~= (before + references_in_items(shown.take(i as int))) + references(
                        shown[i as int],
                    ));
                }
                find_bulk_id_refs(&items[i], out);
                i += 1;
            }
            assert(shown.take(i as int) =~= shown);
        },
        Value::Object(members) => {
            let ghost shown = members@;
            let mut i: usize = 0;
            assert(before + references_in_members(shown.take(0)) =~= before);
            while i < members.len()
                invariant
                    *data == Value::Object(*members),
                    i <= members@.len(),
                    shown == members@,
                    text::texts(out@) == before + references_in_members(shown.take(i as int)),
                decreases members@.len() - i,
            {
                assert(decreases_to!(*data => data->Object_0));
                proof {
                    assert(shown.take(i + 1).drop_last() =~= shown.take(i as int));
                    assert(shown.take(i + 1).last() == shown[i as int]);
                    assert(before + (references_in_members(shown.take(i as int)) + references(
                        shown[i as int].1,
                    )) =~= (before + references_in_members(shown.take(i as int))) + references(
                        shown[i as int].1,
                    ));
                }
                find_bulk_id_refs(members.value_at(i), out);
                i += 1;
            }
            assert(shown.take(i as int) =~= shown);
        },
        _ => {
            assert(before + Seq::empty() =~= before);
        },
    }
}

// ---- Dependency order ----

/// Whether the operation at `j` declares a `bulkId`.
pub open spec fn declares(ops: Seq<BulkOperationModel>, j: int, id: Seq<char>) -> bool {
    0 <= j < ops.len() && ops[j].bulk_id == Some(id)
}

/// Whether an operation before `end` declares a `bulkId`.
pub open spec fn declared_before(ops: Seq<BulkOperationModel>, end: int, id: Seq<char>) -> bool {
    exists|j: int| j < end && #[trigger] declares(ops, j, id)
}

/// The refusal for the first operation from `i` on that is a POST without a `bulkId`, or that
/// declares one again.
pub open spec fn declaration_refusal(ops: Seq<BulkOperationModel>, i: int) -> Option<BulkErrorModel>
    decreases ops.len() - i,
{
    if i < 0 || i >= ops.len() {
        None
    } else {
        match ops[i].bulk_id {
            None => if ops[i].method == BulkMethod::Post {
                Some(BulkErrorModel::MissingBulkIdOnPost(i))
            } else {
                declaration_refusal(ops, i + 1)
            },
            Some(id) => if declared_before(ops, i, id) {
                Some(BulkErrorModel::DuplicateBulkId(id))
            } else {
                declaration_refusal(ops, i + 1)
            },
        }
    }
}

/// The first of `refs`, from `k` on, that no operation declares.
pub open spec fn undeclared(ops: Seq<BulkOperationModel>, refs: Seq<Seq<char>>, k: int) -> Option<
    Seq<char>,
>
    decreases refs.len() - k,
{
    if k < 0 || k >= refs.len() {
        None
    } else if !declared_before(ops, ops.len() as int, refs[k]) {
        Some(refs[k])
    } else {
        undeclared(ops, refs, k + 1)
    }
}

/// The refusal for the first operation from `i` on that refers to what no operation declares.
pub open spec fn reference_refusal(ops: Seq<BulkOperationModel>, i: int) -> Option<BulkErrorModel>
    decreases ops.len() - i,
{
    if i < 0 || i >= ops.len() {
        None
    } else {
        match undeclared(ops, operation_references(ops[i]), 0) {
            Some(id) => Some(BulkErrorModel::UnresolvedBulkId(id)),
            None => reference_refusal(ops, i + 1),
        }
    }
}

/// Whether the operation at `i` refers to the one at `j`.
pub open spec fn depends(ops: Seq<BulkOperationModel>, i: int, j: int) -> bool {
    0 <= i < ops.len() && exists|k: int|
        0 <= k < operation_references(ops[i]).len() && declares(
            ops,
            j,
            #[trigger] operation_references(ops[i])[k],
        )
}

/// Whether the operation at `i` can run once those in `done` have: it has not run itself, and all
/// that it depends on have.
pub open spec fn ready(ops: Seq<BulkOperationModel>, done: Seq<int>, i: int) -> bool {
    &&& 0 <= i < ops.len()
    &&& !done.contains(i)
    &&& forall|j: int| #[trigger] depends(ops, i, j) ==> done.contains(j)
}

/// Whether each operation in `order` can run when its turn comes.
pub open spec fn runs_in_order(ops: Seq<BulkOperationModel>, order: Seq<int>) -> bool {
    forall|k: int| 0 <= k < order.len() ==> ready(ops, #[trigger] order.take(k), order[k])
}

/// Whether `order` runs every operation of the request, each when it can run.
pub open spec fn is_schedule(ops: Seq<BulkOperationModel>, order: Seq<int>) -> bool {
    order.len() == ops.len() && runs_in_order(ops, order)
}

/// Whether `order` always goes on with the first operation, as submitted, that can run.
pub open spec fn picks_first_ready(ops: Seq<BulkOperationModel>, order: Seq<int>) -> bool {
    forall|k: int, i: int|
        0 <= k < order.len() && #[trigger] ready(ops, order.take(k), i) ==> order[k] <= i
}

/// Positions as integers.
pub open spec fn positions(order: Seq<usize>) -> Seq<int> {
    Seq::new(order.len(), |i: int| order[i] as int)
}

proof fn lemma_declarations_unique(ops: Seq<BulkOperationModel>, from: int)
    requires
        0 <= from,
        declaration_refusal(ops, from) is None,
    ensures
        forall|i: int, j: int, id: Seq<char>|
            i < j && from <= j && #[trigger] declares(ops, i, id) ==> !#[trigger] declares(
                ops,
                j,
                id,
            ),
    decreases ops.len() - from,
{
    if from < ops.len() {
        lemma_declarations_unique(ops, from + 1);
        assert forall|i: int, j: int, id: Seq<char>|
            i < j && from <= j && #[trigger] declares(ops, i, id) implies !#[trigger] declares(
            ops,
            j,
            id,
        ) by {
            if j == from && declares(ops, j, id) {
                assert(declared_before(ops, from, id));
            }
        }
    }
}

proof fn lemma_order_members(ops: Seq<BulkOperationModel>, order: Seq<int>)
    requires
        runs_in_order(ops, order),
    ensures
        order.no_duplicates(),
        forall|k: int| 0 <= k < order.len() ==> 0 <= #[trigger] order[k] < ops.len(),
{
    assert forall|a: int, b: int| 0 <= a < b < order.len() implies order[a] != order[b] by {
        assert(ready(ops, order.take(b), order[b]));
        assert(order.take(b)[a] == order[a]);
    }
    assert forall|k: int| 0 <= k < order.len() implies 0 <= #[trigger] order[k] < ops.len() by {
        assert(ready(ops, order.take(k), order[k]));
    }
}

/// The first position of `other` that `order` has not run.
proof fn lemma_first_missing(order: Seq<int>, other: Seq<int>, k: int) -> (at: int)
    requires
        0 <= k < other.len(),
        forall|a: int| 0 <= a < k ==> order.contains(#[trigger] other[a]),
        exists|a: int| k <= a < other.len() && !order.contains(#[trigger] other[a]),
    ensures
        0 <= at < other.len(),
        !order.contains(other[at]),
        forall|a: int| 0 <= a < at ==> order.contains(#[trigger] other[a]),
    decreases other.len() - k,
{
    if !order.contains(other[k]) {
        k
    } else {
        lemma_first_missing(order, other, k + 1)
    }
}

/// Where nothing more can run and something is left, nothing runs the whole request.
proof fn lemma_stuck_is_circular(ops: Seq<BulkOperationModel>, order: Seq<int>, other: Seq<int>)
    requires
        runs_in_order(ops, order),
        order.len() < ops.len(),
        forall|i: int| !ready(ops, order, i),
    ensures
        !is_schedule(ops, other),
{
    if is_schedule(ops, other) {
        lemma_order_members(ops, order);
        lemma_order_members(ops, other);
        if forall|a: int| 0 <= a < other.len() ==> order.contains(#[trigger] other[a]) {
            order.unique_seq_to_set();
            other.unique_seq_to_set();
            assert(other.to_set().subset_of(order.to_set())) by {
                assert forall|x: int| other.to_set().contains(x) implies order.to_set().contains(
                    x,
                ) by {
                    let a = choose|a: int| 0 <= a < other.len() && other[a] == x;
                    assert(order.contains(other[a]));
                }
            }
            vstd::set_lib::lemma_len_subset(other.to_set(), order.to_set());
            assert(false);
        }
        let at = lemma_first_missing(order, other, 0);
        assert(ready(ops, other.take(at), other[at]));
        assert(ready(ops, order, other[at])) by {
            assert forall|j: int| #[trigger] depends(ops, other[at], j) implies order.contains(
                j,
            ) by {
                let a = choose|a: int| 0 <= a < at && other.take(at)[a] == j;
                assert(other[a] == j);
            }
        }
    }
}

fn find_declarer(operations: &[BulkOperationRequest], id: &str, end: usize) -> (r: Option<usize>)
    requires
        end <= operations.len(),
    ensures
        match r {
            Some(j) => j < end && declares(bulk_views(operations@), j as int, id@),
            None => !declared_before(bulk_views(operations@), end as int, id@),
        },
{
    let ghost ops = bulk_views(operations@);
    let mut j: usize = 0;
    while j < end
        invariant
            j <= end <= operations.len(),
            ops == bulk_views(operations@),
            forall|k: int| k < j ==> !#[trigger] declares(ops, k, id@),
        decreases end - j,
    {
        assert(ops[j as int] == operations@[j as int]@);
        if let Some(bulk_id) = &operations[j].bulk_id {
            if same_text(bulk_id.as_str(), id) {
                return Some(j);
            }
        }
        j += 1;
    }
    None
}

fn check_declarations(operations: &[BulkOperationRequest]) -> (r: Result<(), BulkError>)
    ensures
        (match r {
            Ok(_) => None,
            Err(e) => Some(e@),
        }) == declaration_refusal(bulk_views(operations@), 0),
{
    let ghost ops = bulk_views(operations@);
    let mut i: usize = 0;
    while i < operations.len()
        invariant
            i <= operations.len(),
            ops == bulk_views(operations@),
            declaration_refusal(ops, 0) == declaration_refusal(ops, i as int),
        decreases operations.len() - i,
    {
        assert(ops[i as int] == operations@[i as int]@);
        match &operations[i].bulk_id {
            None => {
                if operations[i].method == BulkMethod::Post {
                    return Err(BulkError::MissingBulkIdOnPost(i));
                }
            },
            Some(bulk_id) => {
                if find_declarer(operations, bulk_id.as_str(), i).is_some() {
                    return Err(BulkError::DuplicateBulkId(bulk_id.clone()));
                }
            },
        }
        i += 1;
    }
    Ok(())
}

/// The positions that the operation at `i` depends on, or its first reference to nothing.
fn dependencies(operations: &[BulkOperationRequest], i: usize) -> (r: Result<Vec<usize>, BulkError>)
    requires
        i < operations.len(),
        declaration_refusal(bulk_views(operations@), 0) is None,
    ensures
        match r {
            Ok(deps) => {
                &&& undeclared(
                    bulk_views(operations@),
                    operation_references(bulk_views(operations@)[i as int]),
                    0,
                ) is None
                &&& forall|j: int|
                    positions(deps@).contains(j) <==> #[trigger] depends(
                        bulk_views(operations@),
                        i as int,
                        j,
                    )
                &&& forall|k: int| 0 <= k < deps.len() ==> #[trigger] deps[k] < operations.len()
            },
            Err(e) => undeclared(
                bulk_views(operations@),
                operation_references(bulk_views(operations@)[i as int]),
                0,
            ) matches Some(id) && e@ == BulkErrorModel::UnresolvedBulkId(id),
        },
{
    let ghost ops = bulk_views(operations@);
    assert(ops[i as int] == operations@[i as int]@);
    let mut refs: Vec<String> = Vec::new();
    if let Some(data) = &operations[i].data {
        find_bulk_id_refs(data, &mut refs);
    }
    let ghost shown = operation_references(ops[i as int]);
    assert(text::texts(refs@) =~= shown);
    let mut deps: Vec<usize> = Vec::new();
    let mut k: usize = 0;
    while k < refs.len()
        invariant
            k <= refs.len(),
            i < operations.len(),
            ops == bulk_views(operations@),
            shown == operation_references(ops[i as int]),
            text::texts(refs@) == shown,
            deps.len() == k,
            undeclared(ops, shown, 0) == undeclared(ops, shown, k as int),
            forall|a: int|
                0 <= a < k ==> (#[trigger] deps[a]) < operations.len() && declares(
                    ops,
                    deps[a] as int,
                    shown[a],
                ),
        decreases refs.len() - k,
    {
        assert(shown[k as int] == refs@[k as int]@);
        match find_declarer(operations, refs[k].as_str(), operations.len()) {
            Some(j) => {
                assert(declared_before(ops, ops.len() as int, shown[k as int]));
                deps.push(j);
            },
            None => {
                return Err(BulkError::UnresolvedBulkId(refs[k].clone()));
            },
        }
        k += 1;
    }
    proof {
        lemma_declarations_unique(ops, 0);
        assert forall|j: int| positions(deps@).contains(j) <==> #[trigger] depends(
            ops,
            i as int,
            j,
        ) by {
            if positions(deps@).contains(j) {
                let a = choose|a: int| 0 <= a < positions(deps@).len() && positions(deps@)[a] == j;
                assert(deps[a] == j);
                assert(declares(ops, j, shown[a]));
            }
            if depends(ops, i as int, j) {
                let a = choose|a: int| 0 <= a < shown.len() && declares(ops, j, #[trigger] shown[a]);
                assert(declares(ops, deps[a] as int, shown[a]));
                assert(deps[a] == j);
                assert(positions(deps@)[a] == j);
            }
        }
    }
    Ok(deps)
}

fn all_done(deps: &Vec<usize>, done: &Vec<bool>) -> (r: bool)
    requires
        forall|k: int| 0 <= k < deps.len() ==> #[trigger] deps[k] < done.len(),
    ensures
        r <==> forall|k: int| 0 <= k < deps.len() ==> done[#[trigger] deps[k] as int],
{
    let mut k: usize = 0;
    while k < deps.len()
        invariant
            k <= deps.len(),
            forall|a: int| 0 <= a < deps.len() ==> #[trigger] deps[a] < done.len(),
            forall|a: int| 0 <= a < k ==> done[#[trigger] deps[a] as int],
        decreases deps.len() - k,
    {
        if !done[deps[k]] {
            return false;
        }
        k += 1;
    }
    true
}

fn all_dependencies(operations: &[BulkOperationRequest]) -> (r: Result<Vec<Vec<usize>>, BulkError>)
    requires
        declaration_refusal(bulk_views(operations@), 0) is None,
    ensures
        match r {
            Ok(deps) => {
                &&& reference_refusal(bulk_views(operations@), 0) is None
                &&& deps.len() == operations.len()
                &&& forall|i: int, j: int|
                    0 <= i < deps.len() ==> (positions(deps[i]@).contains(j) <==> #[trigger] depends(
                        bulk_views(operations@),
                        i,
                        j,
                    ))
                &&& forall|i: int, k: int|
                    0 <= i < deps.len() && 0 <= k < deps[i].len() ==> #[trigger] deps[i][k]
                        < operations.len()
            },
            Err(e) => reference_refusal(bulk_views(operations@), 0) == Some(e@),
        },
{
    let ghost ops = bulk_views(operations@);
    let mut deps: Vec<Vec<usize>> = Vec::new();
    let mut i: usize = 0;
    while i < operations.len()
        invariant
            i <= operations.len(),
            ops == bulk_views(operations@),
            declaration_refusal(ops, 0) is None,
            reference_refusal(ops, 0) == reference_refusal(ops, i as int),
            deps.len() == i,
            forall|a: int, j: int|
                0 <= a < i ==> (positions(deps[a]@).contains(j) <==> #[trigger] depends(ops, a, j)),
            forall|a: int, k: int|
                0 <= a < i && 0 <= k < deps[a].len() ==> #[trigger] deps[a][k] < operations.len(),
        decreases operations.len() - i,
    {
        match dependencies(operations, i) {
            Ok(found) => {
                deps.push(found);
            },
            Err(e) => {
                return Err(e);
            },
        }
        i += 1;
    }
    Ok(deps)
}

/// The first operation, as submitted, that can run after those in `order`.
fn next_ready(
    operations: &[BulkOperationRequest],
    deps: &Vec<Vec<usize>>,
    done: &Vec<bool>,
    order: &Vec<usize>,
) -> (next: Option<usize>)
    requires
        deps.len() == operations.len(),
        done.len() == operations.len(),
        forall|i: int, j: int|
            0 <= i < deps.len() ==> (positions(deps[i]@).contains(j) <==> #[trigger] depends(
                bulk_views(operations@),
                i,
                j,
            )),
        forall|i: int, k: int|
            0 <= i < deps.len() && 0 <= k < deps[i].len() ==> #[trigger] deps[i][k]
                < operations.len(),
        forall|i: int|
            0 <= i < done.len() ==> (#[trigger] done[i] <==> positions(order@).contains(i)),
    ensures
        match next {
            Some(x) => ready(bulk_views(operations@), positions(order@), x as int) && forall|a: int|
                #[trigger] ready(bulk_views(operations@), positions(order@), a) ==> x <= a,
            None => forall|a: int|
                !#[trigger] ready(bulk_views(operations@), positions(order@), a),
        },
{
    let ghost ops = bulk_views(operations@);
    let ghost so_far = positions(order@);
    let n: usize = operations.len();
    let mut i: usize = 0;
    while i < n
        invariant
            ops == bulk_views(operations@),
            so_far == positions(order@),
            n == ops.len(),
            n == deps.len(),
            n == done.len(),
            i <= n,
            forall|a: int, j: int|
                0 <= a < n ==> (positions(deps[a]@).contains(j) <==> #[trigger] depends(ops, a, j)),
            forall|a: int, k: int|
                0 <= a < n && 0 <= k < deps[a].len() ==> #[trigger] deps[a][k] < n,
            forall|a: int| 0 <= a < n ==> (#[trigger] done[a] <==> so_far.contains(a)),
            forall|a: int| a < i ==> !#[trigger] ready(ops, so_far, a),
        decreases n - i,
    {
        let free = all_done(&deps[i], done);
        proof {
            lemma_free(ops, so_far, i as int, deps@[i as int]@, done@);
        }
        if !done[i] && free {
            return Some(i);
        }
        i += 1;
    }
    None
}

/// What a request is answered with: its first refusal, or an order to run it in, or the refusal for
/// depending on itself where there is no such order.
pub open spec fn is_answer(
    ops: Seq<BulkOperationModel>,
    answer: Result<Seq<int>, BulkErrorModel>,
) -> bool {
    match answer {
        Ok(order) => {
            &&& declaration_refusal(ops, 0) is None
            &&& reference_refusal(ops, 0) is None
            &&& is_schedule(ops, order)
            &&& picks_first_ready(ops, order)
        },
        Err(e) => match declaration_refusal(ops, 0) {
            Some(refused) => e == refused,
            None => match reference_refusal(ops, 0) {
                Some(refused) => e == refused,
                None => e == BulkErrorModel::CircularReference && forall|order: Seq<int>|
                    !#[trigger] is_schedule(ops, order),
            },
        },
    }
}

/// The positions of the operations in an order in which each comes after those that it refers to.
/// At every step the first operation, as submitted, that can run goes next.
pub fn order_operations(operations: &[BulkOperationRequest]) -> (r: Result<Vec<usize>, BulkError>)
    ensures
        is_answer(
            bulk_views(operations@),
            match r {
                Ok(order) => Ok(positions(order@)),
                Err(e) => Err(e@),
            },
        ),
{
    let ghost ops = bulk_views(operations@);
    match check_declarations(operations) {
        Ok(_) => {},
        Err(e) => {
            return Err(e);
        },
    }
    let deps = match all_dependencies(operations) {
        Ok(deps) => deps,
        Err(e) => {
            return Err(e);
        },
    };
    let n: usize = operations.len();
    let mut done: Vec<bool> = Vec::new();
    while done.len() < n
        invariant
            done.len() <= n,
            forall|i: int| 0 <= i < done.len() ==> !#[trigger] done[i],
        decreases n - done.len(),
    {
        done.push(false);
    }
    let mut order: Vec<usize> = Vec::new();
    while order.len() < n
        invariant
            ops == bulk_views(operations@),
            n == operations.len(),
            n == ops.len(),
            n == deps.len(),
            n == done.len(),
            order.len() <= n,
            declaration_refusal(ops, 0) is None,
            reference_refusal(ops, 0) is None,
            forall|i: int, j: int|
                0 <= i < n ==> (positions(deps[i]@).contains(j) <==> #[trigger] depends(ops, i, j)),
            forall|i: int, k: int|
                0 <= i < n && 0 <= k < deps[i].len() ==> #[trigger] deps[i][k] < n,
            forall|i: int|
                0 <= i < n ==> (#[trigger] done[i] <==> positions(order@).contains(i)),
            runs_in_order(ops, positions(order@)),
            picks_first_ready(ops, positions(order@)),
        decreases n - order.len(),
    {
        let ghost so_far = positions(order@);
        let next = next_ready(operations, &deps, &done, &order);
        match next {
            None => {
                proof {
                    assert forall|other: Seq<int>| !#[trigger] is_schedule(ops, other) by {
                        assert forall|a: int| !ready(ops, so_far, a) by {}
                        lemma_stuck_is_circular(ops, so_far, other);
                    }
                }
                return Err(BulkError::CircularReference);
            },
            Some(x) => {
                order.push(x);
                done.set(x, true);
                proof {
                    lemma_order_grows(ops, so_far, x as int);
                    assert(positions(order@) =~= so_far.push(x as int));
                    assert forall|a: int| 0 <= a < n implies (#[trigger] done[a] <==> positions(
                        order@,
                    ).contains(a)) by {
                        assert(so_far.push(x as int)[so_far.len() as int] == x);
                        if so_far.contains(a) {
                            let k = choose|k: int| 0 <= k < so_far.len() && so_far[k] == a;
                            assert(so_far.push(x as int)[k] == a);
                        }
                    }
                }
            },
        }
    }
    Ok(order)
}

proof fn lemma_free(
    ops: Seq<BulkOperationModel>,
    so_far: Seq<int>,
    i: int,
    deps: Seq<usize>,
    done: Seq<bool>,
)
    requires
        0 <= i < ops.len(),
        done.len() == ops.len(),
        forall|j: int| positions(deps).contains(j) <==> #[trigger] depends(ops, i, j),
        forall|k: int| 0 <= k < deps.len() ==> #[trigger] deps[k] < ops.len(),
        forall|a: int| 0 <= a < ops.len() ==> (#[trigger] done[a] <==> so_far.contains(a)),
    ensures
        ready(ops, so_far, i) <==> !done[i] && forall|k: int|
            0 <= k < deps.len() ==> done[#[trigger] deps[k] as int],
{
    if ready(ops, so_far, i) {
        assert forall|k: int| 0 <= k < deps.len() implies done[#[trigger] deps[k] as int] by {
            assert(positions(deps)[k] == deps[k]);
            assert(depends(ops, i, deps[k] as int));
        }
    }
    if !done[i] && forall|k: int| 0 <= k < deps.len() ==> done[#[trigger] deps[k] as int] {
        assert forall|j: int| #[trigger] depends(ops, i, j) implies so_far.contains(j) by {
            let k = choose|k: int| 0 <= k < positions(deps).len() && positions(deps)[k] == j;
            assert(done[deps[k] as int]);
        }
    }
}

proof fn lemma_order_grows(ops: Seq<BulkOperationModel>, order: Seq<int>, x: int)
    requires
        runs_in_order(ops, order),
        picks_first_ready(ops, order),
        ready(ops, order, x),
        forall|a: int| #[trigger] ready(ops, order, a) ==> x <= a,
    ensures
        runs_in_order(ops, order.push(x)),
        picks_first_ready(ops, order.push(x)),
{
    let after = order.push(x);
    assert forall|k: int| 0 <= k < after.len() implies ready(ops, #[trigger] after.take(k), after[k]) by {
        if k < order.len() {
            assert(after.take(k) =~= order.take(k));
            assert(ready(ops, order.take(k), order[k]));
        } else {
            assert(after.take(k) =~= order);
        }
    }
    assert forall|k: int, i: int| 0 <= k < after.len() && #[trigger] ready(
        ops,
        after.take(k),
        i,
    ) implies after[k] <= i by {
        if k < order.len() {
            assert(after.take(k) =~= order.take(k));
            assert(ready(ops, order.take(k), i));
        } else {
            assert(after.take(k) =~= order);
        }
    }
}

// ---- Substitution ----

/// The identifiers that resources were assigned, by the `bulkId` that an operation declared.
#[derive(Debug)]
pub struct BulkIdResolver {
    known: Vec<(String, String)>,
}

/// Pairs of texts as a map; no first text occurs twice.
spec fn pairs_map(known: Seq<(String, String)>) -> Map<Seq<char>, Seq<char>>
    decreases known.len(),
{
    if known.len() == 0 {
        Map::empty()
    } else {
        pairs_map(known.drop_last()).insert(known.last().0@, known.last().1@)
    }
}

spec fn keys_distinct(known: Seq<(String, String)>) -> bool {
    forall|i: int, j: int|
        0 <= i < j < known.len() ==> (#[trigger] known[i]).0@ != (#[trigger] known[j]).0@
}

proof fn lemma_pair_found(known: Seq<(String, String)>, i: int)
    requires
        keys_distinct(known),
        0 <= i < known.len(),
    ensures
        pairs_map(known).contains_key(known[i].0@),
        pairs_map(known)[known[i].0@] == known[i].1@,
    decreases known.len(),
{
    if i < known.len() - 1 {
        lemma_pair_found(known.drop_last(), i);
        assert(known.drop_last()[i] == known[i]);
        assert(known.last() == known[known.len() - 1]);
    }
}

proof fn lemma_pair_missing(known: Seq<(String, String)>, id: Seq<char>)
    requires
        forall|i: int| 0 <= i < known.len() ==> (#[trigger] known[i]).0@ != id,
    ensures
        !pairs_map(known).contains_key(id),
    decreases known.len(),
{
    if known.len() > 0 {
        assert forall|i: int| 0 <= i < known.drop_last().len() implies (
        #[trigger] known.drop_last()[i]).0@ != id by {
            assert(known.drop_last()[i] == known[i]);
        }
        lemma_pair_missing(known.drop_last(), id);
        assert(known.last() == known[known.len() - 1]);
    }
}

proof fn lemma_pair_replaced(known: Seq<(String, String)>, i: int, pair: (String, String))
    requires
        keys_distinct(known),
        0 <= i < known.len(),
        known[i].0@ == pair.0@,
    ensures
        pairs_map(known.update(i, pair)) == pairs_map(known).insert(pair.0@, pair.1@),
    decreases known.len(),
{
    let after = known.update(i, pair);
    if i == known.len() - 1 {
        assert(after.drop_last() =~= known.drop_last());
        assert(pairs_map(after) =~= pairs_map(known).insert(pair.0@, pair.1@));
    } else {
        lemma_pair_replaced(known.drop_last(), i, pair);
        assert(after.drop_last() =~= known.drop_last().update(i, pair));
        assert(after.last() == known.last());
        assert(known.last() == known[known.len() - 1]);
        assert(known.last().0@ != pair.0@);
        assert(pairs_map(after) =~= pairs_map(known).insert(pair.0@, pair.1@));
    }
}

impl View for BulkIdResolver {
    type V = Map<Seq<char>, Seq<char>>;

    closed spec fn view(&self) -> Map<Seq<char>, Seq<char>> {
        pairs_map(self.known@)
    }
}

/// A document with every reference replaced by the identifier that is known for it, or the first
/// reference for which none is.
pub open spec fn substituted(doc: Json, known: Map<Seq<char>, Seq<char>>) -> Result<
    Json,
    BulkErrorModel,
>
    decreases doc,
{
    match doc {
        Json::String(s) => match referenced(s) {
            Some(id) => if known.contains_key(id) {
                Ok(Json::String(known[id]))
            } else {
                Err(BulkErrorModel::UnresolvedBulkId(id))
            },
            None => Ok(doc),
        },
        Json::Array(items) => match substituted_items(items, known) {
            Ok(values) => Ok(Json::Array(values)),
            Err(e) => Err(e),
        },
        Json::Object(members) => match substituted_members(members, known) {
            Ok(values) => Ok(Json::Object(json::with_values(members, values))),
            Err(e) => Err(e),
        },
        _ => Ok(doc),
    }
}

/// The items of an array after substitution.
pub open spec fn substituted_items(items: Seq<Json>, known: Map<Seq<char>, Seq<char>>) -> Result<
    Seq<Json>,
    BulkErrorModel,
>
    decreases items,
{
    if items.len() == 0 {
        Ok(Seq::empty())
    } else {
        match substituted_items(items.drop_last(), known) {
            Err(e) => Err(e),
            Ok(front) => match substituted(items.last(), known) {
                Err(e) => Err(e),
                Ok(value) => Ok(front.push(value)),
            },
        }
    }
}

/// The values of an object's members after substitution.
pub open spec fn substituted_members(
    members: Seq<(Seq<char>, Json)>,
    known: Map<Seq<char>, Seq<char>>,
) -> Result<Seq<Json>, BulkErrorModel>
    decreases members,
{
    if members.len() == 0 {
        Ok(Seq::empty())
    } else {
        match substituted_members(members.drop_last(), known) {
            Err(e) => Err(e),
            Ok(front) => match substituted(members.last().1, known) {
                Err(e) => Err(e),
                Ok(value) => Ok(front.push(value)),
            },
        }
    }
}

proof fn lemma_items_error(items: Seq<Json>, known: Map<Seq<char>, Seq<char>>, k: int)
    requires
        0 <= k <= items.len(),
        substituted_items(items.take(k), known) is Err,
    ensures
        substituted_items(items, known) == substituted_items(items.take(k), known),
    decreases items.len() - k,
{
    if k == items.len() {
        assert(items.take(k) =~= items);
    } else {
        assert(items.take(k + 1).drop_last() =~= items.take(k));
        lemma_items_error(items, known, k + 1);
    }
}

proof fn lemma_members_error(
    members: Seq<(Seq<char>, Json)>,
    known: Map<Seq<char>, Seq<char>>,
    k: int,
)
    requires
        0 <= k <= members.len(),
        substituted_members(members.take(k), known) is Err,
    ensures
        substituted_members(members, known) == substituted_members(members.take(k), known),
    decreases members.len() - k,
{
    if k == members.len() {
        assert(members.take(k) =~= members);
    } else {
        assert(members.take(k + 1).drop_last() =~= members.take(k));
        lemma_members_error(members, known, k + 1);
    }
}

impl BulkIdResolver {
    #[verifier::type_invariant]
    spec fn no_id_twice(&self) -> bool {
        keys_distinct(self.known@)
    }

    /// A resolver that knows nothing yet.
    pub fn new() -> (r: BulkIdResolver)
        ensures
            r@ == Map::<Seq<char>, Seq<char>>::empty(),
    {
        BulkIdResolver { known: Vec::new() }
    }

    /// Notes the identifier of the resource that the operation declaring `bulk_id` made or changed.
    pub fn record(&mut self, bulk_id: &str, real_id: &str)
        ensures
            final(self)@ == old(self)@.insert(bulk_id@, real_id@),
    {
        proof {
            use_type_invariant(&*self);
        }
        let mut known: Vec<(String, String)> = Vec::new();
        std::mem::swap(&mut known, &mut self.known);
        let ghost before = known@;
        let pair = (bulk_id.to_owned(), real_id.to_owned());
        let mut i: usize = 0;
        while i < known.len() && !same_text(known[i].0.as_str(), bulk_id)
            invariant
                i <= known.len(),
                known@ == before,
                forall|j: int| 0 <= j < i ==> (#[trigger] before[j]).0@ != bulk_id@,
            decreases known.len() - i,
        {
            i += 1;
        }
        if i < known.len() {
            proof {
                lemma_pair_replaced(before, i as int, pair);
            }
            known.set(i, pair);
        } else {
            known.push(pair);
            assert(known@.drop_last() =~= before);
        }
        self.known = known;
    }

    fn find(&self, id: &str) -> (r: Option<&str>)
        ensures
            match r {
                Some(found) => self@.contains_key(id@) && found@ == self@[id@],
                None => !self@.contains_key(id@),
            },
    {
        proof {
            use_type_invariant(self);
        }
        let mut i: usize = 0;
        while i < self.known.len()
            invariant
                i <= self.known.len(),
                keys_distinct(self.known@),
                forall|j: int| 0 <= j < i ==> (#[trigger] self.known@[j]).0@ != id@,
            decreases self.known.len() - i,
        {
            if same_text(self.known[i].0.as_str(), id) {
                proof {
                    lemma_pair_found(self.known@, i as int);
                }
                return Some(self.known[i].1.as_str());
            }
            i += 1;
        }
        proof {
            lemma_pair_missing(self.known@, id@);
        }
        None
    }

    /// Replaces every reference anywhere in `data` by the identifier noted for it. It is an error
    /// if there is none for one of them.
    pub fn substitute(&self, data: &Value) -> (r: Result<Value, BulkError>)
        ensures
            (match r {
                Ok(v) => Ok(v@),
                Err(e) => Err(e@),
            }) == substituted(data@, self@),
        decreases data,
    {
        match data {
            Value::String(s) => match reference_in(s.as_str()) {
                Some(id) => match self.find(id.as_str()) {
                    Some(found) => Ok(Value::text(found)),
                    None => Err(BulkError::UnresolvedBulkId(id)),
                },
                None => Ok(data.clone()),
            },
            Value::Array(items) => {
                let ghost shown = json::views(items@);
                let mut out: Vec<Value> = Vec::new();
                let mut i: usize = 0;
                assert(json::views(out@) =~= Seq::empty());
                while i < items.len()
                    invariant
                        *data == Value::Array(*items),
                        i <= items.len(),
                        shown == json::views(items@),
                        shown.len() == items.len(),
                        data@ == Json::Array(shown),
                        substituted_items(shown.take(i as int), self@) == Ok::<
                            Seq<Json>,
                            BulkErrorModel,
                        >(json::views(out@)),
                    decreases items.len() - i,
                {
                    assert(decreases_to!(*data => data->Array_0));
                    assert(decreases_to!(items => items@));
                    proof {
                        json::lemma_views_index(items@, i as int);
                        assert(shown.take(i + 1).drop_last() =~= shown.take(i as int));
                        assert(shown.take(i + 1).last() == shown[i as int]);
                    }
                    match self.substitute(&items[i]) {
                        Ok(v) => {
                            proof {
                                json::lemma_views_push(out@, v);
                            }
                            out.push(v);
                        },
                        Err(e) => {
                            proof {
                                lemma_items_error(shown, self@, i + 1);
                            }
                            return Err(e);
                        },
                    }
                    i += 1;
                }
                assert(shown.take(i as int) =~= shown);
                Ok(Value::Array(out))
            },
            Value::Object(members) => {
                let ghost shown = members@;
                let mut out: Vec<Value> = Vec::new();
                let mut i: usize = 0;
                assert(json::views(out@) =~= Seq::empty());
                while i < members.len()
                    invariant
                        *data == Value::Object(*members),
                        i <= members@.len(),
                        shown == members@,
                        data@ == Json::Object(shown),
                        out.len() == i,
                        substituted_members(shown.take(i as int), self@) == Ok::<
                            Seq<Json>,
                            BulkErrorModel,
                        >(json::views(out@)),
                    decreases members@.len() - i,
                {
                    assert(decreases_to!(*data => data->Object_0));
                    proof {
                        assert(shown.take(i + 1).drop_last() =~= shown.take(i as int));
                        assert(shown.take(i + 1).last() == shown[i as int]);
                    }
                    match self.substitute(members.value_at(i)) {
                        Ok(v) => {
                            proof {
                                json::lemma_views_push(out@, v);
                            }
                            out.push(v);
                        },
                        Err(e) => {
                            proof {
                                lemma_members_error(shown, self@, i + 1);
                            }
                            return Err(e);
                        },
                    }
                    i += 1;
                }
                assert(shown.take(i as int) =~= shown);
                Ok(Value::Object(members.with_values(out)))
            },
            _ => Ok(data.clone()),
        }
    }
}

impl Clone for BulkIdResolver {
    fn clone(&self) -> (r: Self)
        ensures
            r@ == self@,
    {
        proof {
            use_type_invariant(self);
        }
        let mut known: Vec<(String, String)> = Vec::new();
        let mut i: usize = 0;
        while i < self.known.len()
            invariant
                i <= self.known.len(),
                known@ == self.known@.take(i as int),
            decreases self.known.len() - i,
        {
            known.push((self.known[i].0.clone(), self.known[i].1.clone()));
            i += 1;
        }
        assert(known@ =~= self.known@);
        BulkIdResolver { known }
    }
}

impl Default for BulkIdResolver {
    fn default() -> (r: BulkIdResolver)
        ensures
            r@ == Map::<Seq<char>, Seq<char>>::empty(),
    {
        BulkIdResolver::new()
    }
}

} // verus!
