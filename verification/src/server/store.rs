//! The resources in memory, and a log of the requests that were received.
//!
//! The log holds request bodies as they came, but for what is known to be secret: the `password` of
//! a user never enters it.

use crate::json;
use crate::json::{Json, Members, Value};
use crate::text;
use crate::text::{chars_of, equal_ignoring_case, text_of};
use vstd::prelude::*;

verus! {

/// What stands in the log in place of a secret.
pub const REDACTED: &'static str = "[REDACTED]";

/// Whether an attribute holds a secret.
pub open spec fn sensitive(attr: Seq<char>) -> bool {
    text::same_ignoring_case(attr, "password"@)
}

/// Whether `c` can stand in an attribute name.
pub open spec fn is_name_char(c: char) -> bool {
    ('a' <= c && c <= 'z') || ('A' <= c && c <= 'Z') || ('0' <= c && c <= '9') || c == '-' || c
        == '_'
}

/// Whether the text from `i` to `j` is a whole run of name characters.
pub open spec fn is_name_run(path: Seq<char>, i: int, j: int) -> bool {
    &&& 0 <= i < j <= path.len()
    &&& forall|k: int| i <= k < j ==> is_name_char(#[trigger] path[k])
    &&& i == 0 || !is_name_char(path[i - 1])
    &&& j == path.len() || !is_name_char(path[j])
}

/// Whether a path names an attribute that holds a secret, anywhere in it.
pub open spec fn names_sensitive(path: Seq<char>) -> bool {
    exists|i: int, j: int| #[trigger] is_name_run(path, i, j) && sensitive(path.subrange(i, j))
}

/// Whether `key` may be the member that is meant by `name`: the member of that very name where
/// there is one, else any that differs from it only in the case of its letters.
pub open spec fn is_candidate(
    members: Seq<(Seq<char>, Json)>,
    name: Seq<char>,
    key: Seq<char>,
) -> bool {
    if json::lookup(members, name) is Some {
        key == name
    } else {
        text::same_ignoring_case(key, name)
    }
}

/// Whether a path member targets a secret. One that is no text counts as if it did.
pub open spec fn path_value_is_sensitive(value: Json) -> bool {
    match value {
        Json::String(s) => names_sensitive(s),
        _ => true,
    }
}

/// Whether an object is an operation on a secret: one of its candidate paths targets one.
pub open spec fn targets_sensitive(members: Seq<(Seq<char>, Json)>) -> bool {
    exists|i: int|
        0 <= i < members.len() && is_candidate(members, "path"@, (#[trigger] members[i]).0)
            && path_value_is_sensitive(members[i].1)
}

/// Whether the member at `i` of an operation on a secret holds the secret: a candidate value, or
/// another spelling of it with the same content as one.
pub open spec fn holds_secret(members: Seq<(Seq<char>, Json)>, i: int) -> bool {
    ||| is_candidate(members, "value"@, members[i].0)
    ||| text::same_ignoring_case(members[i].0, "value"@) && exists|j: int|
        0 <= j < members.len() && is_candidate(members, "value"@, (#[trigger] members[j]).0)
            && json::same_json(members[j].1, members[i].1)
}

/// The members of an object after the values of an operation on a secret were taken out.
pub open spec fn without_secret_values(members: Seq<(Seq<char>, Json)>) -> Seq<
    (Seq<char>, Json),
> {
    if targets_sensitive(members) {
        Seq::new(
            members.len(),
            |i: int|
                (
                    members[i].0,
                    if holds_secret(members, i) {
                        Json::String(REDACTED@)
                    } else {
                        members[i].1
                    },
                ),
        )
    } else {
        members
    }
}

/// A document without its secrets: the value of every member that holds one, and the values of
/// operations whose path targets one, are replaced.
pub open spec fn redacted(doc: Json) -> Json
    decreases doc,
{
    match doc {
        Json::Object(members) => Json::Object(without_secret_values(redacted_members(members))),
        Json::Array(items) => Json::Array(redacted_items(items)),
        _ => doc,
    }
}

/// The members of an object, each without its secrets.
pub open spec fn redacted_members(members: Seq<(Seq<char>, Json)>) -> Seq<(Seq<char>, Json)>
    decreases members,
{
    Seq::new(
        members.len(),
        |i: int|
            if 0 <= i < members.len() {
                (
                    members[i].0,
                    if sensitive(members[i].0) {
                        Json::String(REDACTED@)
                    } else {
                        redacted(members[i].1)
                    },
                )
            } else {
                arbitrary()
            },
    )
}

/// The items of an array, each without its secrets.
pub open spec fn redacted_items(items: Seq<Json>) -> Seq<Json>
    decreases items,
{
    Seq::new(
        items.len(),
        |i: int|
            if 0 <= i < items.len() {
                redacted(items[i])
            } else {
                arbitrary()
            },
    )
}

/// Whether an attribute holds a secret.
pub fn is_sensitive_attribute(attr: &str) -> (r: bool)
    ensures
        r == sensitive(attr@),
{
    equal_ignoring_case(attr, "password")
}

fn name_char(c: char) -> (r: bool)
    ensures
        r == is_name_char(c),
{
    ('a' <= c && c <= 'z') || ('A' <= c && c <= 'Z') || ('0' <= c && c <= '9') || c == '-' || c
        == '_'
}

proof fn lemma_runs_apart(path: Seq<char>, i: int, j: int, start: int, end: int)
    requires
        is_name_run(path, i, j),
        0 <= start <= end <= path.len(),
        forall|k: int| start <= k < end ==> is_name_char(#[trigger] path[k]),
        start == 0 || !is_name_char(path[start - 1]),
        end == path.len() || !is_name_char(path[end]),
        start <= i,
    ensures
        i == start && j == end || i > end,
{
    if i <= end && i > start {
        if i == end {
            assert(end < path.len());
            assert(is_name_char(path[i]));
        } else {
            assert(is_name_char(path[i - 1]));
        }
    } else if i == start {
        if j < end {
            assert(is_name_char(path[j]));
        } else if j > end {
            assert(is_name_char(path[end]));
        }
    }
}

/// Whether a path names an attribute that holds a secret. Whatever cannot stand in an attribute
/// name separates names, so that no punctuation hides one.
pub fn path_targets_a_sensitive_attribute(path: &str) -> (r: bool)
    ensures
        r == names_sensitive(path@),
{
    let chars = chars_of(path);
    let mut start: usize = 0;
    while start < chars.len()
        invariant
            start <= chars.len(),
            chars@ == path@,
            start == 0 || !is_name_char(path@[start - 1]),
            forall|i: int, j: int|
                i < start && #[trigger] is_name_run(path@, i, j) ==> !sensitive(
                    path@.subrange(i, j),
                ),
        decreases chars.len() - start,
    {
        let mut end: usize = start;
        while end < chars.len() && name_char(chars[end])
            invariant
                start <= end <= chars.len(),
                chars@ == path@,
                forall|k: int| start <= k < end ==> is_name_char(#[trigger] path@[k]),
            decreases chars.len() - end,
        {
            end += 1;
        }
        if end > start {
            let name = text_of(&chars, start, end);
            if is_sensitive_attribute(name.as_str()) {
                assert(is_name_run(path@, start as int, end as int));
                return true;
            }
        }
        proof {
            assert forall|i: int, j: int|
                i < end + 1 && #[trigger] is_name_run(path@, i, j) implies !sensitive(
                path@.subrange(i, j),
            ) by {
                if i >= start {
                    lemma_runs_apart(path@, i, j, start as int, end as int);
                }
            }
        }
        if end == chars.len() {
            assert forall|i: int, j: int| #[trigger] is_name_run(path@, i, j) implies !sensitive(
                path@.subrange(i, j),
            ) by {
                assert(i < end + 1);
            }
            return false;
        }
        start = end + 1;
    }
    false
}

/// Whether `key` may be the member that is meant by `name`; `exact` tells whether there is a member
/// of that very name.
fn is_candidate_key(exact: bool, name: &str, key: &str) -> (r: bool)
    ensures
        r == (if exact {
            key@ == name@
        } else {
            text::same_ignoring_case(key@, name@)
        }),
{
    if exact {
        text::same_text(key, name)
    } else {
        equal_ignoring_case(key, name)
    }
}

fn is_sensitive_path(value: &Value) -> (r: bool)
    ensures
        r == path_value_is_sensitive(value@),
{
    match value {
        Value::String(s) => path_targets_a_sensitive_attribute(s.as_str()),
        _ => true,
    }
}

fn operates_on_secret(members: &Members) -> (r: bool)
    ensures
        r == targets_sensitive(members@),
{
    let exact = members.contains_key("path");
    let mut i: usize = 0;
    while i < members.len()
        invariant
            i <= members@.len(),
            exact == (json::lookup(members@, "path"@) is Some),
            forall|j: int|
                0 <= j < i ==> !(is_candidate(members@, "path"@, (#[trigger] members@[j]).0)
                    && path_value_is_sensitive(members@[j].1)),
        decreases members@.len() - i,
    {
        if is_candidate_key(exact, "path", members.name_at(i)) && is_sensitive_path(
            members.value_at(i),
        ) {
            assert(is_candidate(members@, "path"@, members@[i as int].0));
            return true;
        }
        i += 1;
    }
    false
}

fn is_secret_member(members: &Members, exact: bool, i: usize) -> (r: bool)
    requires
        i < members@.len(),
        exact == (json::lookup(members@, "value"@) is Some),
    ensures
        r == holds_secret(members@, i as int),
{
    if is_candidate_key(exact, "value", members.name_at(i)) {
        return true;
    }
    if !equal_ignoring_case(members.name_at(i), "value") {
        return false;
    }
    let mut j: usize = 0;
    while j < members.len()
        invariant
            j <= members@.len(),
            i < members@.len(),
            exact == (json::lookup(members@, "value"@) is Some),
            text::same_ignoring_case(members@[i as int].0, "value"@),
            !is_candidate(members@, "value"@, members@[i as int].0),
            forall|k: int|
                0 <= k < j ==> !(is_candidate(members@, "value"@, (#[trigger] members@[k]).0)
                    && json::same_json(members@[k].1, members@[i as int].1)),
        decreases members@.len() - j,
    {
        if is_candidate_key(exact, "value", members.name_at(j)) && members.value_at(j).same_as(
            members.value_at(i),
        ) {
            assert(is_candidate(members@, "value"@, members@[j as int].0));
            return true;
        }
        j += 1;
    }
    false
}

fn take_out_secret_values(members: Members) -> (r: Members)
    ensures
        r@ == without_secret_values(members@),
{
    if !operates_on_secret(&members) {
        return members;
    }
    let exact = members.contains_key("value");
    let mut values: Vec<Value> = Vec::new();
    let mut i: usize = 0;
    while i < members.len()
        invariant
            i <= members@.len(),
            values.len() == i,
            exact == (json::lookup(members@, "value"@) is Some),
            forall|j: int|
                0 <= j < i ==> #[trigger] json::views(values@)[j] == (if holds_secret(
                    members@,
                    j,
                ) {
                    Json::String(REDACTED@)
                } else {
                    members@[j].1
                }),
        decreases members@.len() - i,
    {
        let value = if is_secret_member(&members, exact, i) {
            Value::text(REDACTED)
        } else {
            members.value_at(i).clone()
        };
        proof {
            json::lemma_views_push(values@, value);
        }
        values.push(value);
        i += 1;
    }
    let r = members.with_values(values);
    assert(r@ =~= without_secret_values(members@));
    r
}

/// A copy of a document without its secrets.
pub fn redact_sensitive(value: &Value) -> (r: Value)
    ensures
        r@ == redacted(value@),
    decreases value,
{
    match value {
        Value::Object(members) => {
            let ghost shown = members@;
            let mut values: Vec<Value> = Vec::new();
            let mut i: usize = 0;
            while i < members.len()
                invariant
                    *value == Value::Object(*members),
                    shown == members@,
                    i <= shown.len(),
                    values.len() == i,
                    forall|j: int|
                        0 <= j < i ==> #[trigger] json::views(values@)[j] == (if sensitive(
                            shown[j].0,
                        ) {
                            Json::String(REDACTED@)
                        } else {
                            redacted(shown[j].1)
                        }),
                decreases shown.len() - i,
            {
                assert(decreases_to!(*value => value->Object_0));
                let next = if is_sensitive_attribute(members.name_at(i)) {
                    Value::text(REDACTED)
                } else {
                    redact_sensitive(members.value_at(i))
                };
                proof {
                    json::lemma_views_push(values@, next);
                }
                values.push(next);
                i += 1;
            }
            let first = members.with_values(values);
            proof {
                lemma_redacted_members(shown, first@);
            }
            Value::Object(take_out_secret_values(first))
        },
        Value::Array(items) => {
            let ghost shown = json::views(items@);
            let mut out: Vec<Value> = Vec::new();
            let mut i: usize = 0;
            while i < items.len()
                invariant
                    *value == Value::Array(*items),
                    shown == json::views(items@),
                    shown.len() == items.len(),
                    i <= items.len(),
                    out.len() == i,
                    forall|j: int|
                        0 <= j < i ==> #[trigger] json::views(out@)[j] == redacted(shown[j]),
                decreases items.len() - i,
            {
                assert(decreases_to!(*value => value->Array_0));
                assert(decreases_to!(items => items@));
                let next = redact_sensitive(&items[i]);
                proof {
                    json::lemma_views_push(out@, next);
                    json::lemma_views_index(items@, i as int);
                }
                out.push(next);
                i += 1;
            }
            proof {
                lemma_redacted_items(shown, json::views(out@));
            }
            Value::Array(out)
        },
        _ => value.clone(),
    }
}

proof fn lemma_redacted_members(
    members: Seq<(Seq<char>, Json)>,
    after: Seq<(Seq<char>, Json)>,
)
    requires
        after.len() == members.len(),
        forall|i: int|
            0 <= i < members.len() ==> #[trigger] after[i] == (
                members[i].0,
                if sensitive(members[i].0) {
                    Json::String(REDACTED@)
                } else {
                    redacted(members[i].1)
                },
            ),
    ensures
        after == redacted_members(members),
{
    assert(after =~= redacted_members(members));
}

proof fn lemma_redacted_items(items: Seq<Json>, after: Seq<Json>)
    requires
        after.len() == items.len(),
        forall|i: int| 0 <= i < items.len() ==> #[trigger] after[i] == redacted(items[i]),
    ensures
        after == redacted_items(items),
{
    assert(after =~= redacted_items(items));
}

/// A request that was received.
#[derive(Clone, Debug)]
pub struct CapturedRequest {
    pub resource_type: &'static str,
    pub method: &'static str,
    pub id: Option<String>,
    pub content_type: Option<String>,
    pub body: Value,
}

/// Such a request, as contracts speak of it.
#[verifier::ext_equal]
pub struct CapturedModel {
    pub resource_type: Seq<char>,
    pub method: Seq<char>,
    pub id: Option<Seq<char>>,
    pub content_type: Option<Seq<char>>,
    pub body: Json,
}

impl View for CapturedRequest {
    type V = CapturedModel;

    open spec fn view(&self) -> CapturedModel {
        CapturedModel {
            resource_type: self.resource_type@,
            method: self.method@,
            id: text::optional_text(self.id),
            content_type: text::optional_text(self.content_type),
            body: self.body@,
        }
    }
}

/// The requests that a sequence of exec ones stands for.
pub open spec fn captured_views(captured: Seq<CapturedRequest>) -> Seq<CapturedModel> {
    Seq::new(captured.len(), |i: int| captured[i]@)
}

/// The resources by their identifiers, and the log.
#[derive(Debug)]
pub struct Store {
    pub users: Members,
    pub groups: Members,
    pub captured: Vec<CapturedRequest>,
}

impl Store {
    /// An empty store.
    pub fn new() -> (r: Store)
        ensures
            r.users@ == Seq::<(Seq<char>, Json)>::empty(),
            r.groups@ == Seq::<(Seq<char>, Json)>::empty(),
            captured_views(r.captured@) == Seq::<CapturedModel>::empty(),
    {
        let r = Store { users: Members::new(), groups: Members::new(), captured: Vec::new() };
        assert(captured_views(r.captured@) =~= Seq::<CapturedModel>::empty());
        r
    }

    /// Notes a request in the log, its body without secrets. The resources stay as they are.
    pub fn capture(
        &mut self,
        resource_type: &'static str,
        method: &'static str,
        id: Option<String>,
        content_type: Option<String>,
        body: Value,
    )
        ensures
            final(self).users@ == old(self).users@,
            final(self).groups@ == old(self).groups@,
            captured_views(final(self).captured@) == captured_views(old(self).captured@).push(
                CapturedModel {
                    resource_type: resource_type@,
                    method: method@,
                    id: text::optional_text(id),
                    content_type: text::optional_text(content_type),
                    body: redacted(body@),
                },
            ),
    {
        let ghost before = captured_views(self.captured@);
        let entry = CapturedRequest {
            resource_type,
            method,
            id,
            content_type,
            body: redact_sensitive(&body),
        };
        let ghost added = entry@;
        self.captured.push(entry);
        assert(captured_views(self.captured@) =~= before.push(added));
    }
}

impl Default for Store {
    fn default() -> (r: Store)
        ensures
            r.users@ == Seq::<(Seq<char>, Json)>::empty(),
            r.groups@ == Seq::<(Seq<char>, Json)>::empty(),
            captured_views(r.captured@) == Seq::<CapturedModel>::empty(),
    {
        Store::new()
    }
}

} // verus!
