//! The discovery documents of the server: exactly what it implements.

use crate::discovery::{
    AuthenticationScheme, BulkConfig, FilterConfig, ResourceType, SchemaResource,
    ServiceProviderConfig, Supported, RESOURCE_TYPE_SCHEMA_URI,
    SERVICE_PROVIDER_CONFIG_SCHEMA_URI,
};
use crate::group;
use crate::group::{group_schema, GROUP_SCHEMA_URI};
use crate::text;
use crate::user;
use crate::user::{enterprise_user_schema, user_schema, USER_SCHEMA_URI};
use vstd::prelude::*;

verus! {

/// PATCH and a single shared bearer token, nothing else.
pub fn service_provider_config() -> (r: ServiceProviderConfig)
    ensures
        text::texts(r.schemas@) == seq![SERVICE_PROVIDER_CONFIG_SCHEMA_URI@],
        text::optional_text(r.documentation_uri) == Some(
            "https://github.com/little-auth/scimforge/tree/main/keycloak-it"@,
        ),
        r.patch.supported,
        r.bulk == (BulkConfig { supported: false, max_operations: 0, max_payload_size: 0 }),
        r.filter == (FilterConfig { supported: false, max_results: 0 }),
        !r.change_password.supported,
        !r.sort.supported,
        !r.etag.supported,
        r.authentication_schemes@.len() == 1,
        r.authentication_schemes@[0].type_@ == "oauthbearertoken"@,
        r.authentication_schemes@[0].name@ == "Bearer Token"@,
        r.authentication_schemes@[0].description@
            == "A single shared bearer token, fixed per server process -- test fixture, not a real auth scheme."@,
        r.authentication_schemes@[0].spec_uri is None,
        r.authentication_schemes@[0].documentation_uri is None,
        r.authentication_schemes@[0].primary == Some(true),
{
    let schemas = vec![SERVICE_PROVIDER_CONFIG_SCHEMA_URI.to_owned()];
    assert(text::texts(schemas@) =~= seq![SERVICE_PROVIDER_CONFIG_SCHEMA_URI@]);
    ServiceProviderConfig {
        schemas,
        documentation_uri: Some(
            "https://github.com/little-auth/scimforge/tree/main/keycloak-it".to_owned(),
        ),
        patch: Supported { supported: true },
        bulk: BulkConfig { supported: false, max_operations: 0, max_payload_size: 0 },
        filter: FilterConfig { supported: false, max_results: 0 },
        change_password: Supported { supported: false },
        sort: Supported { supported: false },
        etag: Supported { supported: false },
        authentication_schemes: vec![
            AuthenticationScheme {
                type_: "oauthbearertoken".to_owned(),
                name: "Bearer Token".to_owned(),
                description: "A single shared bearer token, fixed per server process -- test fixture, not a real auth scheme.".to_owned(),
                spec_uri: None,
                documentation_uri: None,
                primary: Some(true),
            },
        ],
    }
}

/// Whether a resource type is served under `endpoint` with the given names and no extensions.
pub open spec fn is_resource_type(
    r: ResourceType,
    name: Seq<char>,
    description: Seq<char>,
    endpoint: Seq<char>,
    schema: Seq<char>,
) -> bool {
    &&& text::texts(r.schemas@) == seq![RESOURCE_TYPE_SCHEMA_URI@]
    &&& text::optional_text(r.id) == Some(name)
    &&& r.name@ == name
    &&& text::optional_text(r.description) == Some(description)
    &&& r.endpoint@ == endpoint
    &&& r.schema@ == schema
    &&& r.schema_extensions@.len() == 0
}

fn resource_type(name: &str, description: &str, endpoint: &str, schema: &str) -> (r: ResourceType)
    ensures
        is_resource_type(r, name@, description@, endpoint@, schema@),
{
    let schemas = vec![RESOURCE_TYPE_SCHEMA_URI.to_owned()];
    assert(text::texts(schemas@) =~= seq![RESOURCE_TYPE_SCHEMA_URI@]);
    ResourceType {
        schemas,
        id: Some(name.to_owned()),
        name: name.to_owned(),
        description: Some(description.to_owned()),
        endpoint: endpoint.to_owned(),
        schema: schema.to_owned(),
        schema_extensions: Vec::new(),
    }
}

/// The kinds of resources that are served.
pub fn resource_types() -> (r: Vec<ResourceType>)
    ensures
        r@.len() == 2,
        is_resource_type(r@[0], "User"@, "User Account"@, "/Users"@, USER_SCHEMA_URI@),
        is_resource_type(r@[1], "Group"@, "Group"@, "/Groups"@, GROUP_SCHEMA_URI@),
{
    vec![
        resource_type("User", "User Account", "/Users", USER_SCHEMA_URI),
        resource_type("Group", "Group", "/Groups", GROUP_SCHEMA_URI),
    ]
}

/// The schemas of the resources that are served.
pub fn schemas() -> (r: Vec<SchemaResource>)
    ensures
        r@.len() == 3,
        r@[0]@ == user::user_schema_model(),
        r@[1]@ == user::enterprise_user_schema_model(),
        r@[2]@ == group::group_schema_model(),
{
    vec![user_schema(), enterprise_user_schema(), group_schema()]
}

} // verus!
