//! What holds of the schemas of users and groups.

use crate::common;
use crate::common::Mutability;
use crate::discovery;
use crate::discovery::AttributeModel;
use crate::group;
use crate::json::Json;
use crate::mutability;
use crate::patch;
use crate::patch::OperationModel;
use crate::patch_laws;
use crate::text;
use crate::user;
use vstd::prelude::*;

verus! {

/// Whether an attribute and its sub-attributes have mutabilities of RFC 7643 §2.2, and no
/// sub-attribute has a looser one than the attribute.
pub open spec fn guards_its_parts(def: AttributeModel) -> bool {
    &&& common::mutability_of(def.mutability) is Some
    &&& forall|j: int|
        0 <= j < def.sub_attributes.len() ==> {
            let sub = #[trigger] def.sub_attributes[j];
            &&& common::mutability_of(sub.mutability) is Some
            &&& mutability::rank(common::mutability_of(sub.mutability)->0) >= mutability::rank(
                common::mutability_of(def.mutability)->0,
            )
        }
}

/// What the four tokens of RFC 7643 §2.2 stand for.
pub proof fn lemma_mutabilities()
    ensures
        common::mutability_of("readOnly"@) == Some(Mutability::ReadOnly),
        common::mutability_of("readWrite"@) == Some(Mutability::ReadWrite),
        common::mutability_of("immutable"@) == Some(Mutability::Immutable),
        common::mutability_of("writeOnly"@) == Some(Mutability::WriteOnly),
{
    reveal_strlit("readOnly");
    reveal_strlit("readWrite");
    reveal_strlit("immutable");
    reveal_strlit("writeOnly");
    assert("readOnly"@[0] == 'r');
    assert("readWrite"@[4] == 'W');
    assert("immutable"@[0] == 'i');
    assert("writeOnly"@[0] == 'w');
    assert("readOnly"@.len() == 8);
    assert("readWrite"@.len() == 9);
}

/// In the schemas of users, enterprise users and groups every attribute has one of the four
/// mutabilities, and every part of a read-only or immutable attribute is protected by itself.
pub proof fn law_schemas_leave_no_gap(i: int)
    ensures
        0 <= i < user::user_schema_model().attributes.len() ==> guards_its_parts(
            user::user_schema_model().attributes[i],
        ),
        0 <= i < user::enterprise_user_schema_model().attributes.len() ==> guards_its_parts(
            user::enterprise_user_schema_model().attributes[i],
        ),
        0 <= i < group::group_schema_model().attributes.len() ==> guards_its_parts(
            group::group_schema_model().attributes[i],
        ),
{
    lemma_mutabilities();
}

proof fn lemma_found_at(attributes: Seq<AttributeModel>, name: Seq<char>, at: int)
    requires
        0 <= at < attributes.len(),
        attributes[at].name == name,
        forall|i: int|
            0 <= i < at ==> !text::same_ignoring_case((#[trigger] attributes[i]).name, name),
    ensures
        discovery::named(attributes, name) == Some(attributes[at]),
    decreases at,
{
    if at > 0 {
        assert(!text::same_ignoring_case(attributes[0].name, name));
        assert forall|i: int| 0 <= i < at - 1 implies !text::same_ignoring_case(
            (#[trigger] attributes.skip(1)[i]).name,
            name,
        ) by {
            assert(attributes.skip(1)[i] == attributes[i + 1]);
        }
        lemma_found_at(attributes.skip(1), name, at - 1);
    }
}

/// Texts of different lengths or with different first letters are not the same in any case.
proof fn lemma_differ(a: Seq<char>, b: Seq<char>)
    requires
        a.len() != b.len() || (a.len() > 0 && text::lower(a[0]) != text::lower(b[0])),
    ensures
        !text::same_ignoring_case(a, b),
{
    if text::same_ignoring_case(a, b) {
        assert(text::ascii_lower(a).len() == a.len());
        assert(text::ascii_lower(a).len() == b.len());
        assert(text::ascii_lower(a)[0] == text::lower(a[0]));
        assert(text::ascii_lower(b)[0] == text::lower(b[0]));
    }
}

proof fn lemma_groups_are_read_only()
    ensures
        patch_laws::declared(user::user_schema_model(), "groups"@) == Some(Mutability::ReadOnly),
{
    let attributes = user::user_attributes();
    reveal_strlit("userName");
    reveal_strlit("name");
    reveal_strlit("displayName");
    reveal_strlit("nickName");
    reveal_strlit("profileUrl");
    reveal_strlit("title");
    reveal_strlit("userType");
    reveal_strlit("preferredLanguage");
    reveal_strlit("locale");
    reveal_strlit("timezone");
    reveal_strlit("active");
    reveal_strlit("password");
    reveal_strlit("emails");
    reveal_strlit("phoneNumbers");
    reveal_strlit("ims");
    reveal_strlit("photos");
    reveal_strlit("addresses");
    reveal_strlit("groups");
    assert forall|i: int| 0 <= i < 17 implies !text::same_ignoring_case(
        (#[trigger] attributes[i]).name,
        "groups"@,
    ) by {
        lemma_differ(attributes[i].name, "groups"@);
    }
    assert(attributes[17] == user::groups_attribute());
    lemma_found_at(attributes, "groups"@, 17);
    lemma_mutabilities();
}

/// No PATCH request changes the groups that a user is in, unless it names a part of them that the
/// schema does not have.
pub proof fn law_group_memberships_never_change(resource: Json, operations: Seq<OperationModel>)
    requires
        forall|i: int|
            0 <= i < operations.len() ==> !patch_laws::names_unmodelled_sub_attribute(
                #[trigger] operations[i],
                user::user_schema_model(),
                "groups"@,
            ),
    ensures
        patch::patched(resource, operations, Some(user::user_schema_model())) matches Ok(after)
            ==> after.get("groups"@) == resource.get("groups"@),
{
    lemma_groups_are_read_only();
    patch_laws::law_read_only_attributes_never_change(
        resource,
        operations,
        user::user_schema_model(),
        "groups"@,
    );
}

} // verus!
