//! What holds of every logged request body.

use crate::json;
use crate::json::Json;
use crate::server::store;
use crate::server::store::REDACTED;
use crate::text;
use vstd::prelude::*;

verus! {

/// Whether no member called like a secret, anywhere in the document, holds anything but the
/// placeholder.
pub open spec fn secret_free(doc: Json) -> bool
    decreases doc,
{
    match doc {
        Json::Object(members) => forall|i: int|
            0 <= i < members.len() ==> (store::sensitive((#[trigger] members[i]).0)
                ==> members[i].1 == Json::String(REDACTED@)) && secret_free(members[i].1),
        Json::Array(items) => forall|i: int| 0 <= i < items.len() ==> secret_free(#[trigger] items[i]),
        _ => true,
    }
}

proof fn lemma_redacted_member(members: Seq<(Seq<char>, Json)>, i: int)
    requires
        0 <= i < members.len(),
    ensures
        store::redacted_members(members).len() == members.len(),
        store::redacted_members(members)[i] == (
            members[i].0,
            if store::sensitive(members[i].0) {
                Json::String(REDACTED@)
            } else {
                store::redacted(members[i].1)
            },
        ),
{
}

proof fn lemma_redacted_item(items: Seq<Json>, i: int)
    requires
        0 <= i < items.len(),
    ensures
        store::redacted_items(items).len() == items.len(),
        store::redacted_items(items)[i] == store::redacted(items[i]),
{
}

/// No secret is left in a logged body: whatever the document, every member called `password`, in
/// any case of its letters and at any depth, holds the placeholder.
pub proof fn law_no_secret_is_logged(doc: Json)
    ensures
        secret_free(store::redacted(doc)),
    decreases doc,
{
    match doc {
        Json::Object(members) => {
            let first = store::redacted_members(members);
            let after = store::without_secret_values(first);
            assert(first.len() == members.len());
            assert forall|i: int| 0 <= i < after.len() implies (store::sensitive(
                (#[trigger] after[i]).0,
            ) ==> after[i].1 == Json::String(REDACTED@)) && secret_free(after[i].1) by {
                lemma_redacted_member(members, i);
                law_no_secret_is_logged(members[i].1);
                assert(secret_free(Json::String(REDACTED@)));
            }
            assert(store::redacted(doc) == Json::Object(after));
        },
        Json::Array(items) => {
            let after = store::redacted_items(items);
            assert(after.len() == items.len());
            assert forall|i: int| 0 <= i < after.len() implies secret_free(
                #[trigger] after[i],
            ) by {
                lemma_redacted_item(items, i);
                law_no_secret_is_logged(items[i]);
            }
            assert(store::redacted(doc) == Json::Array(after));
        },
        _ => {},
    }
}

/// In a logged operation whose path targets a secret, every candidate value is the placeholder, and
/// so is every other spelling of `value` that held the same as one.
pub proof fn law_values_for_secrets_are_not_logged(members: Seq<(Seq<char>, Json)>, i: int)
    requires
        store::targets_sensitive(store::redacted_members(members)),
        0 <= i < members.len(),
        store::holds_secret(store::redacted_members(members), i),
    ensures
        store::redacted(Json::Object(members)) matches Json::Object(after) && after.len()
            == members.len() && after[i] == (members[i].0, Json::String(REDACTED@)),
{
    lemma_redacted_member(members, i);
}

/// Whether a document holds neither a member called like a secret nor an operation on one.
pub open spec fn harmless(doc: Json) -> bool
    decreases doc,
{
    match doc {
        Json::Object(members) => !store::targets_sensitive(members) && forall|i: int|
            0 <= i < members.len() ==> !store::sensitive((#[trigger] members[i]).0) && harmless(
                members[i].1,
            ),
        Json::Array(items) => forall|i: int| 0 <= i < items.len() ==> harmless(#[trigger] items[i]),
        _ => true,
    }
}

/// What holds no secret is logged as it came.
pub proof fn law_nothing_else_is_redacted(doc: Json)
    requires
        harmless(doc),
    ensures
        store::redacted(doc) == doc,
    decreases doc,
{
    match doc {
        Json::Object(members) => {
            let first = store::redacted_members(members);
            assert forall|i: int| 0 <= i < members.len() implies first[i] == members[i] by {
                lemma_redacted_member(members, i);
                law_nothing_else_is_redacted(members[i].1);
            }
            assert(first =~= members);
        },
        Json::Array(items) => {
            assert forall|i: int| 0 <= i < items.len() implies store::redacted_items(items)[i]
                == items[i] by {
                lemma_redacted_item(items, i);
                law_nothing_else_is_redacted(items[i]);
            }
            assert(store::redacted_items(items) =~= items);
        },
        _ => {},
    }
}

/// Whether the names of two member sequences are the same.
spec fn same_names(a: Seq<(Seq<char>, Json)>, b: Seq<(Seq<char>, Json)>) -> bool {
    a.len() == b.len() && forall|i: int| 0 <= i < a.len() ==> (#[trigger] a[i]).0 == b[i].0
}

proof fn lemma_found_alike(
    a: Seq<(Seq<char>, Json)>,
    b: Seq<(Seq<char>, Json)>,
    name: Seq<char>,
)
    requires
        same_names(a, b),
    ensures
        json::lookup(a, name) is Some <==> json::lookup(b, name) is Some,
    decreases a.len(),
{
    if a.len() > 0 && a[0].0 != name {
        assert(a[0].0 == b[0].0);
        assert(same_names(a.skip(1), b.skip(1))) by {
            assert forall|i: int| 0 <= i < a.skip(1).len() implies (#[trigger] a.skip(1)[i]).0
                == b.skip(1)[i].0 by {
                assert(a[i + 1].0 == b[i + 1].0);
            }
        }
        lemma_found_alike(a.skip(1), b.skip(1), name);
    }
}

/// Taking the values of an operation on a secret out a second time changes nothing.
proof fn lemma_values_taken_out_once(members: Seq<(Seq<char>, Json)>)
    ensures
        store::without_secret_values(store::without_secret_values(members))
            == store::without_secret_values(members),
{
    let after = store::without_secret_values(members);
    if store::targets_sensitive(members) {
        assert(same_names(members, after));
        lemma_found_alike(members, after, "path"@);
        lemma_found_alike(members, after, "value"@);
        assert forall|i: int| 0 <= i < members.len() && store::is_candidate(
            members,
            "path"@,
            members[i].0,
        ) implies after[i] == #[trigger] members[i] by {
            lemma_path_is_no_value(members, i);
        }
        assert(store::targets_sensitive(after)) by {
            let i = choose|i: int|
                0 <= i < members.len() && store::is_candidate(
                    members,
                    "path"@,
                    (#[trigger] members[i]).0,
                ) && store::path_value_is_sensitive(members[i].1);
            assert(after[i] == members[i]);
        }
        let again = store::without_secret_values(after);
        assert forall|i: int| 0 <= i < after.len() implies again[i] == after[i] by {
            if !store::holds_secret(members, i) && store::holds_secret(after, i) {
                // The member shares its content, the placeholder, with a candidate.
                let j = choose|j: int|
                    0 <= j < after.len() && store::is_candidate(
                        after,
                        "value"@,
                        (#[trigger] after[j]).0,
                    ) && json::same_json(after[j].1, after[i].1);
                assert(store::is_candidate(members, "value"@, members[j].0));
                assert(store::holds_secret(members, j));
                assert(after[j].1 == Json::String(REDACTED@));
            }
        }
        assert(again =~= after);
    }
}

/// A member called like a path is not called like a value.
proof fn lemma_path_is_no_value(members: Seq<(Seq<char>, Json)>, i: int)
    requires
        0 <= i < members.len(),
        store::is_candidate(members, "path"@, members[i].0),
    ensures
        !store::holds_secret(members, i),
{
    let key = members[i].0;
    reveal_strlit("path");
    reveal_strlit("value");
    assert(text::same_ignoring_case(key, "path"@));
    assert(text::ascii_lower("path"@).len() == 4);
    assert(text::ascii_lower("value"@).len() == 5);
    assert(!text::same_ignoring_case(key, "value"@));
    assert(key != "value"@);
}

proof fn lemma_keeps_names(members: Seq<(Seq<char>, Json)>)
    ensures
        same_names(members, store::redacted_members(members)),
        same_names(members, store::without_secret_values(members)),
{
    assert(store::redacted_members(members).len() == members.len());
    assert forall|i: int| 0 <= i < members.len() implies (#[trigger] members[i]).0
        == store::redacted_members(members)[i].0 by {
        lemma_redacted_member(members, i);
    }
}

/// Redacting a logged body again changes nothing.
pub proof fn law_redaction_is_idempotent(doc: Json)
    ensures
        store::redacted(store::redacted(doc)) == store::redacted(doc),
    decreases doc,
{
    match doc {
        Json::Object(members) => {
            let first = store::redacted_members(members);
            let after = store::without_secret_values(first);
            lemma_keeps_names(members);
            lemma_keeps_names(first);
            assert forall|i: int| 0 <= i < after.len() implies store::redacted_members(after)[i]
                == after[i] by {
                lemma_redacted_member(members, i);
                lemma_redacted_member(after, i);
                law_redaction_is_idempotent(members[i].1);
                assert(members[i].0 == first[i].0 && first[i].0 == after[i].0);
                assert(store::redacted(Json::String(REDACTED@)) == Json::String(REDACTED@));
            }
            assert(store::redacted_members(after).len() == after.len());
            assert(store::redacted_members(after) =~= after);
            lemma_values_taken_out_once(first);
        },
        Json::Array(items) => {
            let after = store::redacted_items(items);
            assert(after.len() == items.len());
            assert forall|i: int| 0 <= i < after.len() implies store::redacted_items(after)[i]
                == after[i] by {
                lemma_redacted_item(items, i);
                lemma_redacted_item(after, i);
                law_redaction_is_idempotent(items[i]);
            }
            assert(store::redacted_items(after) =~= after);
        },
        _ => {},
    }
}

// ---- What is replaced, by the texts themselves ----

/// Whether a text is the given word, in any case of its letters.
pub open spec fn spells(s: Seq<char>, word: Seq<char>) -> bool {
    text::ascii_lower(s) == word
}

/// Whether a member of an object is the one meant by a word: the member of that very name where
/// there is one, else any in another case of its letters.
pub open spec fn is_meant(members: Seq<(Seq<char>, Json)>, i: int, word: Seq<char>) -> bool {
    &&& 0 <= i < members.len()
    &&& spells(members[i].0, word)
    &&& members[i].0 == word || forall|k: int|
        0 <= k < members.len() ==> (#[trigger] members[k]).0 != word
}

/// Whether `c` cannot stand in an attribute name.
pub open spec fn ends_name(c: char) -> bool {
    !('a' <= c && c <= 'z') && !('A' <= c && c <= 'Z') && !('0' <= c && c <= '9') && c != '-' && c
        != '_'
}

/// Whether a path names the password: the word stands in it, in any case of its letters, with
/// nothing of a longer name on either side.
pub open spec fn names_the_password(path: Seq<char>) -> bool {
    exists|x: Seq<char>, w: Seq<char>, y: Seq<char>|
        path == #[trigger] (x + w + y) && spells(w, "password"@) && (x.len() == 0 || ends_name(
            x.last(),
        )) && (y.len() == 0 || ends_name(y[0]))
}

proof fn lemma_words()
    ensures
        text::ascii_lower("path"@) =~= "path"@,
        text::ascii_lower("value"@) =~= "value"@,
        text::ascii_lower("password"@) =~= "password"@,
        "path"@.len() == 4,
        "value"@.len() == 5,
        "password"@.len() == 8,
        forall|i: int|
            0 <= i < 8 ==> 'a' <= #[trigger] "password"@[i] && "password"@[i] <= 'z',
{
    reveal_strlit("path");
    reveal_strlit("value");
    reveal_strlit("password");
}

proof fn lemma_has_name(members: Seq<(Seq<char>, Json)>, name: Seq<char>)
    ensures
        json::lookup(members, name) is Some <==> exists|k: int|
            0 <= k < members.len() && (#[trigger] members[k]).0 == name,
    decreases members.len(),
{
    if members.len() > 0 {
        let rest = members.skip(1);
        lemma_has_name(rest, name);
        if members[0].0 != name {
            if exists|k: int| 0 <= k < rest.len() && (#[trigger] rest[k]).0 == name {
                let k = choose|k: int| 0 <= k < rest.len() && (#[trigger] rest[k]).0 == name;
                assert(members[k + 1] == rest[k]);
            }
            if exists|k: int| 0 <= k < members.len() && (#[trigger] members[k]).0 == name {
                let k = choose|k: int| 0 <= k < members.len() && (#[trigger] members[k]).0 == name;
                assert(rest[k - 1] == members[k]);
            }
        }
    }
}

proof fn lemma_candidate(members: Seq<(Seq<char>, Json)>, i: int, word: Seq<char>)
    requires
        0 <= i < members.len(),
        text::ascii_lower(word) == word,
    ensures
        store::is_candidate(members, word, members[i].0) <==> is_meant(members, i, word),
{
    lemma_has_name(members, word);
}

/// A path that names the password is one that is held back.
pub proof fn law_paths_to_the_password_are_known(path: Seq<char>)
    ensures
        store::names_sensitive(path) <==> names_the_password(path),
{
    lemma_words();
    if names_the_password(path) {
        let (x, w, y) = choose|x: Seq<char>, w: Seq<char>, y: Seq<char>|
            path == #[trigger] (x + w + y) && spells(w, "password"@) && (x.len() == 0 || ends_name(
                x.last(),
            )) && (y.len() == 0 || ends_name(y[0]));
        let i: int = x.len() as int;
        let j: int = i + w.len();
        assert(w.len() == text::ascii_lower(w).len());
        assert(path.subrange(i, j) =~= w);
        assert forall|k: int| i <= k < j implies store::is_name_char(#[trigger] path[k]) by {
            assert(path[k] == w[k - i]);
            assert(text::ascii_lower(w)[k - i] == "password"@[k - i]);
        }
        if i > 0 {
            assert(path[i - 1] == x.last());
        }
        if j < path.len() {
            assert(path[j] == y[0]);
        }
        assert(store::is_name_run(path, i, j));
    }
    if store::names_sensitive(path) {
        let (i, j) = choose|i: int, j: int| #[trigger]
            store::is_name_run(path, i, j) && store::sensitive(path.subrange(i, j));
        let (x, w, y) = (path.take(i), path.subrange(i, j), path.skip(j));
        assert(path =~= x + w + y);
        assert(x.len() > 0 ==> x.last() == path[i - 1]);
        assert(y.len() > 0 ==> y[0] == path[j]);
    }
}

/// A member called `password`, in any case of its letters, is logged as the placeholder. In an
/// object that has no member called like a path, all others are logged as they would be alone, and
/// so are the items of an array.
pub proof fn law_members_are_logged_by_their_names(
    members: Seq<(Seq<char>, Json)>,
    items: Seq<Json>,
    i: int,
)
    ensures
        0 <= i < members.len() && spells(members[i].0, "password"@) ==> (
        store::redacted(Json::Object(members)) matches Json::Object(after) && after.len()
            == members.len() && after[i] == (members[i].0, Json::String("[REDACTED]"@))),
        0 <= i < members.len() && !spells(members[i].0, "password"@) && (forall|k: int|
            0 <= k < members.len() ==> !spells((#[trigger] members[k]).0, "path"@)) ==> (
        store::redacted(Json::Object(members)) matches Json::Object(after) && after.len()
            == members.len() && after[i] == (members[i].0, store::redacted(members[i].1))),
        0 <= i < items.len() ==> (store::redacted(Json::Array(items)) matches Json::Array(after)
            && after.len() == items.len() && after[i] == store::redacted(items[i])),
{
    lemma_words();
    lemma_keeps_names(members);
    if 0 <= i < members.len() {
        lemma_redacted_member(members, i);
        let first = store::redacted_members(members);
        if !spells(members[i].0, "password"@) && (forall|k: int|
            0 <= k < members.len() ==> !spells((#[trigger] members[k]).0, "path"@)) {
            assert forall|k: int| 0 <= k < first.len() implies !store::is_candidate(
                first,
                "path"@,
                (#[trigger] first[k]).0,
            ) by {
                assert(members[k].0 == first[k].0);
            }
        }
    }
    if 0 <= i < items.len() {
        lemma_redacted_item(items, i);
    }
}

/// Where the path of an operation names the password, or is no text, its value is logged as the
/// placeholder; so is a text under another spelling of `value` that is the same as the value.
pub proof fn law_operations_on_the_password_are_logged_without_value(
    members: Seq<(Seq<char>, Json)>,
    i: int,
    j: int,
    m: int,
    s: Seq<char>,
)
    requires
        is_meant(members, i, "path"@),
        members[i].1 matches Json::String(path) ==> names_the_password(path),
        is_meant(members, j, "value"@),
    ensures
        store::redacted(Json::Object(members)) matches Json::Object(after) && after.len()
            == members.len() && after[j] == (members[j].0, Json::String("[REDACTED]"@)) && (0 <= m
            < members.len() && spells(members[m].0, "value"@) && members[j].1 == Json::String(s)
            && members[m].1 == Json::String(s) ==> after[m].1 == Json::String("[REDACTED]"@)),
{
    lemma_words();
    lemma_keeps_names(members);
    let first = store::redacted_members(members);
    lemma_redacted_member(members, i);
    lemma_redacted_member(members, j);
    assert forall|k: int| 0 <= k < members.len() implies (#[trigger] first[k]).0 == members[k].0 by {
        assert(members[k].0 == first[k].0);
    }
    lemma_candidate(first, i, "path"@);
    lemma_candidate(first, j, "value"@);
    assert(is_meant(first, i, "path"@));
    assert(is_meant(first, j, "value"@));
    assert(!store::sensitive(members[i].0));
    assert(!store::sensitive(members[j].0));
    if let Json::String(path) = members[i].1 {
        law_paths_to_the_password_are_known(path);
    }
    assert(store::path_value_is_sensitive(first[i].1));
    assert(store::targets_sensitive(first));
    assert(store::holds_secret(first, j));
    if 0 <= m < members.len() && spells(members[m].0, "value"@) && members[j].1 == Json::String(s)
        && members[m].1 == Json::String(s) {
        lemma_redacted_member(members, m);
        assert(!store::sensitive(members[m].0));
        assert(json::same_json(first[j].1, first[m].1));
        assert(store::holds_secret(first, m));
    }
}

/// An operation whose path is a text that does not name the password is logged with its value, and
/// so is anything in an operation on the password that is not called like a value.
pub proof fn law_other_operations_are_logged_with_their_values(
    members: Seq<(Seq<char>, Json)>,
    j: int,
)
    requires
        0 <= j < members.len(),
        !spells(members[j].0, "password"@),
        !spells(members[j].0, "value"@) || forall|i: int|
            0 <= i < members.len() && spells((#[trigger] members[i]).0, "path"@) ==> (
            members[i].1 matches Json::String(path) && !names_the_password(path)),
    ensures
        store::redacted(Json::Object(members)) matches Json::Object(after) && after.len()
            == members.len() && after[j] == (members[j].0, store::redacted(members[j].1)),
{
    lemma_words();
    lemma_keeps_names(members);
    let first = store::redacted_members(members);
    lemma_redacted_member(members, j);
    if spells(members[j].0, "value"@) {
        assert forall|i: int| 0 <= i < first.len() && store::is_candidate(
            first,
            "path"@,
            (#[trigger] first[i]).0,
        ) implies !store::path_value_is_sensitive(first[i].1) by {
            assert(members[i].0 == first[i].0);
            lemma_redacted_member(members, i);
            assert(spells(members[i].0, "path"@));
            assert(!store::sensitive(members[i].0));
            law_paths_to_the_password_are_known(members[i].1->String_0);
        }
        assert(!store::targets_sensitive(first));
    } else {
        assert(members[j].0 == first[j].0);
        lemma_candidate(first, j, "value"@);
        assert(!store::holds_secret(first, j));
    }
}

} // verus!
