//! The Group resource of RFC 7643 §4.2.

use crate::common::{ExternalId, Meta, ResourceId};
use crate::discovery;
use crate::discovery::{AttributeDefinition, AttributeModel, SchemaModel, SchemaResource, SCHEMA_SCHEMA_URI};
use crate::text;
use crate::user;
use crate::user::complex_attr;
use vstd::prelude::*;

verus! {

pub const GROUP_SCHEMA_URI: &'static str = "urn:ietf:params:scim:schemas:core:2.0:Group";

/// An entry of `members`. It is set when a member is added and does not change after; that is up
/// to PATCH, which knows the previous value.
#[derive(Clone, Debug, PartialEq)]
pub struct Member {
    pub value: ResourceId,
    pub ref_: Option<String>,
    pub display: Option<String>,
    /// `"User"` or `"Group"`; groups can nest.
    pub type_: Option<String>,
}

/// The Group resource. A client that creates one sends neither `id` nor `meta`.
#[derive(Clone, Debug, PartialEq)]
pub struct Group {
    pub schemas: Vec<String>,
    pub id: Option<ResourceId>,
    pub external_id: Option<ExternalId>,
    pub meta: Option<Meta>,
    pub display_name: String,
    pub members: Vec<Member>,
}

/// `displayName`.
pub open spec fn group_name_attribute() -> AttributeModel {
    AttributeModel {
        required: true,
        ..discovery::simple_attribute(
            "displayName"@,
            "string"@,
            "A human-readable name for the Group."@,
            "readWrite"@,
        )
    }
}

/// The `$ref` of a member.
pub open spec fn member_ref_attribute() -> AttributeModel {
    AttributeModel {
        reference_types: seq!["User"@, "Group"@],
        ..discovery::simple_attribute(
            "$ref"@,
            "reference"@,
            "The URI corresponding to a SCIM resource that is a member of this Group."@,
            "immutable"@,
        )
    }
}

/// The `type` of a member.
pub open spec fn member_type_attribute() -> AttributeModel {
    AttributeModel {
        canonical_values: seq!["User"@, "Group"@],
        ..discovery::simple_attribute(
            "type"@,
            "string"@,
            "A label indicating the type of resource, e.g., 'User' or 'Group'."@,
            "immutable"@,
        )
    }
}

/// `members`: entries can be added and removed, but what an entry holds does not change.
pub open spec fn members_attribute() -> AttributeModel {
    user::complex_attribute(
        "members"@,
        "A list of members of the Group."@,
        "readWrite"@,
        true,
        seq![
            discovery::simple_attribute(
                "value"@,
                "string"@,
                "Identifier of the member of this Group."@,
                "immutable"@,
            ),
            member_ref_attribute(),
            discovery::simple_attribute(
                "display"@,
                "string"@,
                "A human-readable name for the member."@,
                "immutable"@,
            ),
            member_type_attribute(),
        ],
    )
}

/// The schema of a Group.
pub open spec fn group_schema_model() -> SchemaModel {
    SchemaModel {
        schemas: seq![SCHEMA_SCHEMA_URI@],
        id: GROUP_SCHEMA_URI@,
        name: Some("Group"@),
        description: Some("Group"@),
        attributes: seq![group_name_attribute(), members_attribute()],
    }
}

fn group_name_attr() -> (r: AttributeDefinition)
    ensures
        r@ == group_name_attribute(),
{
    AttributeDefinition {
        required: true,
        ..AttributeDefinition::simple(
            "displayName",
            "string",
            "A human-readable name for the Group.",
            "readWrite",
        )
    }
}

fn member_kinds() -> (r: Vec<String>)
    ensures
        text::texts(r@) == seq!["User"@, "Group"@],
{
    let r = vec!["User".to_owned(), "Group".to_owned()];
    assert(text::texts(r@) =~= seq!["User"@, "Group"@]);
    r
}

fn member_ref_attr() -> (r: AttributeDefinition)
    ensures
        r@ == member_ref_attribute(),
{
    AttributeDefinition {
        reference_types: member_kinds(),
        ..AttributeDefinition::simple(
            "$ref",
            "reference",
            "The URI corresponding to a SCIM resource that is a member of this Group.",
            "immutable",
        )
    }
}

fn member_type_attr() -> (r: AttributeDefinition)
    ensures
        r@ == member_type_attribute(),
{
    AttributeDefinition {
        canonical_values: member_kinds(),
        ..AttributeDefinition::simple(
            "type",
            "string",
            "A label indicating the type of resource, e.g., 'User' or 'Group'.",
            "immutable",
        )
    }
}

fn members_attr() -> (r: AttributeDefinition)
    ensures
        r@ == members_attribute(),
{
    broadcast use discovery::group_attribute_views;

    let subs = vec![
        AttributeDefinition::simple(
            "value",
            "string",
            "Identifier of the member of this Group.",
            "immutable",
        ),
        member_ref_attr(),
        AttributeDefinition::simple(
            "display",
            "string",
            "A human-readable name for the member.",
            "immutable",
        ),
        member_type_attr(),
    ];
    assert(discovery::attribute_views(subs@) =~= members_attribute().sub_attributes);
    complex_attr("members", "A list of members of the Group.", "readWrite", true, subs)
}

/// The attribute table of RFC 7643 §4.2: what `/Schemas` serves, and what PATCH requests on a
/// Group are held to.
pub fn group_schema() -> (r: SchemaResource)
    ensures
        r@ == group_schema_model(),
{
    broadcast use discovery::group_attribute_views;

    let attributes = vec![group_name_attr(), members_attr()];
    assert(discovery::attribute_views(attributes@) =~= group_schema_model().attributes);
    let schemas = vec![SCHEMA_SCHEMA_URI.to_owned()];
    assert(text::texts(schemas@) =~= seq![SCHEMA_SCHEMA_URI@]);
    SchemaResource {
        schemas,
        id: GROUP_SCHEMA_URI.to_owned(),
        name: Some("Group".to_owned()),
        description: Some("Group".to_owned()),
        attributes,
    }
}

} // verus!
